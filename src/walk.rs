use crate::model::{entries_view, EntryView, RemoteEntry};
use crate::path::PathParts;
use vstd::multiset::Multiset;
use vstd::prelude::*;

verus! {

/// The paths of the directories in a listing, in listing order.
pub open spec fn listed_dirs(listing: Seq<EntryView>) -> Seq<Seq<Seq<char>>>
    decreases listing.len(),
{
    if listing.len() == 0 {
        Seq::empty()
    } else {
        let rest = listed_dirs(listing.drop_last());
        if listing.last().is_directory {
            rest.push(listing.last().path)
        } else {
            rest
        }
    }
}

/// The entries of a listing that are not directories, in listing order.
pub open spec fn listed_files(listing: Seq<EntryView>) -> Seq<EntryView>
    decreases listing.len(),
{
    if listing.len() == 0 {
        Seq::empty()
    } else {
        let rest = listed_files(listing.drop_last());
        if listing.last().is_directory {
            rest
        } else {
            rest.push(listing.last())
        }
    }
}

/// One step of the walk: the first pending directory, whose listing is
/// `listing`, leaves the queue; its subdirectories join the end of the queue
/// and its other entries the files found.
pub open spec fn walk_step(
    pending: Seq<Seq<Seq<char>>>,
    found: Seq<EntryView>,
    listing: Seq<EntryView>,
) -> (Seq<Seq<Seq<char>>>, Seq<EntryView>) {
    (pending.drop_first() + listed_dirs(listing), found + listed_files(listing))
}

/// The walk of a remote tree, given as the listing of each directory path,
/// after at most `fuel` steps: the directories still pending and the files found.
pub open spec fn walk_run(
    tree: Map<Seq<Seq<char>>, Seq<EntryView>>,
    pending: Seq<Seq<Seq<char>>>,
    found: Seq<EntryView>,
    fuel: nat,
) -> (Seq<Seq<Seq<char>>>, Seq<EntryView>)
    decreases fuel,
{
    if fuel == 0 || pending.len() == 0 {
        (pending, found)
    } else {
        let next = walk_step(pending, found, tree[pending[0]]);
        walk_run(tree, next.0, next.1, (fuel - 1) as nat)
    }
}

/// A tree of depth at most `bound` components: every listed directory has
/// a listing of its own, one component deeper than its parent.
pub open spec fn tree_bounded(tree: Map<Seq<Seq<char>>, Seq<EntryView>>, bound: nat) -> bool {
    &&& forall|d: Seq<Seq<char>>| #[trigger] tree.contains_key(d) ==> d.len() <= bound
    &&& forall|d: Seq<Seq<char>>, i: int|
        tree.contains_key(d) && 0 <= i < tree[d].len() && (#[trigger] tree[d][i]).is_directory
            ==> tree.contains_key(tree[d][i].path) && tree[d][i].path.len() == d.len() + 1
}

/// The files below the directory `d` of a tree of depth at most `bound`,
/// counted as often as they are listed, and the number of directories from
/// `d` down, `d` included.
pub open spec fn subtree(tree: Map<Seq<Seq<char>>, Seq<EntryView>>, d: Seq<Seq<char>>, bound: nat) -> (
    Multiset<EntryView>,
    nat,
)
    decreases bound - d.len(), 0nat,
{
    let files = listed_files(tree[d]).to_multiset();
    if d.len() < bound {
        let below = subtrees_at(tree, listed_dirs(tree[d]), bound, d.len() + 1);
        (files.add(below.0), below.1 + 1)
    } else {
        (files, 1)
    }
}

/// The sum of `subtree` over the directories of `ds` that lie at depth `level`.
pub open spec fn subtrees_at(
    tree: Map<Seq<Seq<char>>, Seq<EntryView>>,
    ds: Seq<Seq<Seq<char>>>,
    bound: nat,
    level: nat,
) -> (Multiset<EntryView>, nat)
    decreases bound - level, ds.len(),
{
    if ds.len() == 0 {
        (Multiset::empty(), 0)
    } else {
        let rest = subtrees_at(tree, ds.drop_last(), bound, level);
        let last = if ds.last().len() == level && level <= bound {
            subtree(tree, ds.last(), bound)
        } else {
            (Multiset::empty(), 0nat)
        };
        (rest.0.add(last.0), rest.1 + last.1)
    }
}

/// The sum of `subtree` over all the directories of `ds`.
pub open spec fn subtrees(
    tree: Map<Seq<Seq<char>>, Seq<EntryView>>,
    ds: Seq<Seq<Seq<char>>>,
    bound: nat,
) -> (Multiset<EntryView>, nat)
    decreases ds.len(),
{
    if ds.len() == 0 {
        (Multiset::empty(), 0)
    } else {
        let rest = subtrees(tree, ds.drop_last(), bound);
        let last = subtree(tree, ds.last(), bound);
        (rest.0.add(last.0), rest.1 + last.1)
    }
}

proof fn lemma_listed_dirs_in_tree(
    tree: Map<Seq<Seq<char>>, Seq<EntryView>>,
    listing: Seq<EntryView>,
    depth: nat,
)
    requires
        forall|i: int|
            0 <= i < listing.len() && (#[trigger] listing[i]).is_directory ==> tree.contains_key(
                listing[i].path,
            ) && listing[i].path.len() == depth,
    ensures
        forall|k: int|
            0 <= k < listed_dirs(listing).len() ==> tree.contains_key(
                #[trigger] listed_dirs(listing)[k],
            ) && listed_dirs(listing)[k].len() == depth,
    decreases listing.len(),
{
    if listing.len() > 0 {
        let front = listing.drop_last();
        assert forall|i: int| 0 <= i < front.len() && (#[trigger] front[i]).is_directory implies tree.contains_key(
            front[i].path,
        ) && front[i].path.len() == depth by {
            assert(front[i] == listing[i]);
        }
        lemma_listed_dirs_in_tree(tree, front, depth);
        assert(listing.last() == listing[listing.len() - 1]);
        let all = listed_dirs(listing);
        let before = listed_dirs(front);
        assert forall|k: int| 0 <= k < all.len() implies tree.contains_key(#[trigger] all[k])
            && all[k].len() == depth by {
            if k < before.len() {
                assert(all[k] == before[k]);
            } else {
                assert(all[k] == listing[listing.len() - 1].path);
            }
        }
    }
}

proof fn lemma_subtrees_at_level(
    tree: Map<Seq<Seq<char>>, Seq<EntryView>>,
    ds: Seq<Seq<Seq<char>>>,
    bound: nat,
    level: nat,
)
    requires
        level <= bound,
        forall|k: int| 0 <= k < ds.len() ==> (#[trigger] ds[k]).len() == level,
    ensures
        subtrees_at(tree, ds, bound, level) == subtrees(tree, ds, bound),
    decreases ds.len(),
{
    if ds.len() > 0 {
        let front = ds.drop_last();
        assert forall|k: int| 0 <= k < front.len() implies (#[trigger] front[k]).len() == level by {
            assert(front[k] == ds[k]);
        }
        lemma_subtrees_at_level(tree, front, bound, level);
        assert(ds.last() == ds[ds.len() - 1]);
    }
}

proof fn lemma_subtrees_concat(
    tree: Map<Seq<Seq<char>>, Seq<EntryView>>,
    a: Seq<Seq<Seq<char>>>,
    b: Seq<Seq<Seq<char>>>,
    bound: nat,
)
    ensures
        subtrees(tree, a + b, bound).0 == subtrees(tree, a, bound).0.add(subtrees(tree, b, bound).0),
        subtrees(tree, a + b, bound).1 == subtrees(tree, a, bound).1 + subtrees(tree, b, bound).1,
    decreases b.len(),
{
    broadcast use vstd::multiset::group_multiset_axioms;

    if b.len() == 0 {
        assert(a + b =~= a);
        assert(subtrees(tree, a, bound).0.add(Multiset::empty()) =~= subtrees(tree, a, bound).0);
    } else {
        assert((a + b).drop_last() =~= a + b.drop_last());
        assert((a + b).last() == b.last());
        lemma_subtrees_concat(tree, a, b.drop_last(), bound);
        let x = subtrees(tree, a, bound).0;
        let y = subtrees(tree, b.drop_last(), bound).0;
        let z = subtree(tree, b.last(), bound).0;
        assert(x.add(y).add(z) =~= x.add(y.add(z)));
    }
}

proof fn lemma_subtree_unfold(
    tree: Map<Seq<Seq<char>>, Seq<EntryView>>,
    d: Seq<Seq<char>>,
    bound: nat,
)
    requires
        tree_bounded(tree, bound),
        tree.contains_key(d),
    ensures
        subtree(tree, d, bound).0 == listed_files(tree[d]).to_multiset().add(
            subtrees(tree, listed_dirs(tree[d]), bound).0,
        ),
        subtree(tree, d, bound).1 == subtrees(tree, listed_dirs(tree[d]), bound).1 + 1,
        forall|k: int|
            0 <= k < listed_dirs(tree[d]).len() ==> tree.contains_key(
                #[trigger] listed_dirs(tree[d])[k],
            ),
{
    broadcast use vstd::multiset::group_multiset_axioms;

    let listing = tree[d];
    assert forall|i: int|
        0 <= i < listing.len() && (#[trigger] listing[i]).is_directory implies tree.contains_key(
        listing[i].path,
    ) && listing[i].path.len() == d.len() + 1 by {
        assert(tree[d][i] == listing[i]);
    }
    lemma_listed_dirs_in_tree(tree, listing, d.len() + 1);
    let dirs = listed_dirs(listing);
    if d.len() < bound {
        lemma_subtrees_at_level(tree, dirs, bound, d.len() + 1);
    } else {
        if dirs.len() > 0 {
            assert(tree.contains_key(dirs[0]));
            assert(dirs[0].len() <= bound);
        }
        assert(listed_files(listing).to_multiset().add(Multiset::empty()) =~= listed_files(
            listing,
        ).to_multiset());
    }
}

proof fn lemma_walk_run(
    tree: Map<Seq<Seq<char>>, Seq<EntryView>>,
    pending: Seq<Seq<Seq<char>>>,
    found: Seq<EntryView>,
    bound: nat,
    fuel: nat,
)
    requires
        tree_bounded(tree, bound),
        forall|k: int| 0 <= k < pending.len() ==> tree.contains_key(#[trigger] pending[k]),
        fuel >= subtrees(tree, pending, bound).1,
    ensures
        walk_run(tree, pending, found, fuel).0.len() == 0,
        walk_run(tree, pending, found, fuel).1.to_multiset() == found.to_multiset().add(
            subtrees(tree, pending, bound).0,
        ),
    decreases fuel,
{
    broadcast use vstd::multiset::group_multiset_axioms;
    broadcast use vstd::seq_lib::lemma_multiset_commutative;

    if pending.len() == 0 {
        assert(found.to_multiset().add(Multiset::empty()) =~= found.to_multiset());
    } else {
        let d = pending[0];
        let rest = pending.drop_first();
        let listing = tree[d];
        let dirs = listed_dirs(listing);
        let files = listed_files(listing);
        assert(pending =~= seq![d] + rest);
        lemma_subtrees_concat(tree, seq![d], rest, bound);
        assert(seq![d].drop_last() =~= Seq::<Seq<Seq<char>>>::empty());
        assert(seq![d].last() == d);
        assert(Multiset::<EntryView>::empty().add(subtree(tree, d, bound).0) =~= subtree(
            tree,
            d,
            bound,
        ).0);
        lemma_subtree_unfold(tree, d, bound);
        lemma_subtrees_concat(tree, rest, dirs, bound);
        let next = walk_step(pending, found, listing);
        assert(next.0 == rest + dirs);
        assert forall|k: int| 0 <= k < next.0.len() implies tree.contains_key(
            #[trigger] next.0[k],
        ) by {
            if k < rest.len() {
                assert(next.0[k] == pending[k + 1]);
            } else {
                assert(next.0[k] == dirs[k - rest.len()]);
            }
        }
        assert(subtrees(tree, pending, bound) == subtrees(tree, seq![d] + rest, bound));
        assert(subtrees(tree, seq![d].drop_last(), bound) == (Multiset::<EntryView>::empty(), 0nat));
        assert(subtrees(tree, seq![d], bound).0 == subtree(tree, d, bound).0);
        assert(subtrees(tree, seq![d], bound).1 == subtree(tree, d, bound).1);
        assert(fuel > 0);
        assert(walk_run(tree, pending, found, fuel) == walk_run(
            tree,
            next.0,
            next.1,
            (fuel - 1) as nat,
        ));
        lemma_walk_run(tree, next.0, next.1, bound, (fuel - 1) as nat);
        let f = found.to_multiset();
        let fl = files.to_multiset();
        let r = subtrees(tree, rest, bound).0;
        let b = subtrees(tree, dirs, bound).0;
        assert(next.1.to_multiset() == f.add(fl));
        assert(subtrees(tree, next.0, bound).0 == r.add(b));
        assert(subtrees(tree, pending, bound).0 == fl.add(b).add(r));
        assert(f.add(fl).add(r.add(b)) =~= f.add(fl.add(b).add(r)));
    }
}

/// The walk of a tree of bounded depth, started at `root` and handed each
/// directory's listing in turn, finishes once it has listed every directory
/// below `root`, and it then has found every file of the tree exactly as
/// often as the tree lists it: each one once, whatever the depth and whatever
/// the order of the listings.
pub proof fn lemma_walk_complete(
    tree: Map<Seq<Seq<char>>, Seq<EntryView>>,
    root: Seq<Seq<char>>,
    bound: nat,
    fuel: nat,
)
    requires
        tree_bounded(tree, bound),
        tree.contains_key(root),
        fuel >= subtree(tree, root, bound).1,
    ensures
        walk_run(tree, seq![root], Seq::empty(), fuel).0.len() == 0,
        walk_run(tree, seq![root], Seq::empty(), fuel).1.to_multiset() == subtree(
            tree,
            root,
            bound,
        ).0,
{
    broadcast use vstd::multiset::group_multiset_axioms;

    let start = seq![root];
    assert(start.drop_last() =~= Seq::<Seq<Seq<char>>>::empty());
    assert(start.last() == root);
    assert(Multiset::<EntryView>::empty().add(subtree(tree, root, bound).0) =~= subtree(
        tree,
        root,
        bound,
    ).0);
    assert forall|k: int| 0 <= k < start.len() implies tree.contains_key(#[trigger] start[k]) by {
    }
    assert(subtrees(tree, start.drop_last(), bound) == (Multiset::<EntryView>::empty(), 0nat));
    assert(subtrees(tree, start, bound).1 == subtree(tree, root, bound).1);
    assert(subtrees(tree, start, bound).0 == subtree(tree, root, bound).0);
    lemma_walk_run(tree, start, Seq::empty(), bound, fuel);
    assert(Seq::<EntryView>::empty().to_multiset() =~= Multiset::empty()) by {
        broadcast use vstd::seq_lib::group_to_multiset_ensures;
    }
    assert(Multiset::<EntryView>::empty().add(subtree(tree, root, bound).0) =~= subtree(
        tree,
        root,
        bound,
    ).0);
}

/// A tree of depth at most `bound` whose every entry lies directly inside
/// the directory that lists it, and in which no listing names a path twice.
pub open spec fn tree_proper(tree: Map<Seq<Seq<char>>, Seq<EntryView>>, bound: nat) -> bool {
    &&& tree_bounded(tree, bound)
    &&& forall|d: Seq<Seq<char>>, i: int|
        tree.contains_key(d) && 0 <= i < tree[d].len() ==> (#[trigger] tree[d][i]).path.len()
            == d.len() + 1 && d.is_prefix_of(tree[d][i].path)
    &&& forall|d: Seq<Seq<char>>, i: int, j: int|
        tree.contains_key(d) && 0 <= i < tree[d].len() && 0 <= j < tree[d].len() && i != j
            ==> (#[trigger] tree[d][i]).path != (#[trigger] tree[d][j]).path
}

/// No path occurs in `m` for two entries, nor twice for one entry.
pub open spec fn paths_once(m: Multiset<EntryView>) -> bool {
    forall|e1: EntryView, e2: EntryView|
        #[trigger] m.count(e1) > 0 && #[trigger] m.count(e2) > 0 && e1.path == e2.path ==> e1 == e2
            && m.count(e1) == 1
}

proof fn lemma_paths_once_sum(a: Multiset<EntryView>, b: Multiset<EntryView>)
    requires
        paths_once(a),
        paths_once(b),
        forall|e1: EntryView, e2: EntryView|
            #[trigger] a.count(e1) > 0 && #[trigger] b.count(e2) > 0 ==> e1.path != e2.path,
    ensures
        paths_once(a.add(b)),
{
    broadcast use vstd::multiset::group_multiset_axioms;

    assert forall|e1: EntryView, e2: EntryView|
        #[trigger] a.add(b).count(e1) > 0 && #[trigger] a.add(b).count(e2) > 0 && e1.path
            == e2.path implies e1 == e2 && a.add(b).count(e1) == 1 by {
        if a.count(e1) > 0 {
            if b.count(e1) > 0 {
                assert(e1.path != e1.path);
            }
            if a.count(e2) == 0 {
                assert(b.count(e2) > 0);
                assert(e1.path != e2.path);
            }
        } else {
            assert(b.count(e1) > 0);
            if b.count(e2) == 0 {
                assert(a.count(e2) > 0);
                assert(e2.path != e1.path);
            }
        }
    }
}

proof fn lemma_listed_files_origin(listing: Seq<EntryView>)
    requires
        forall|i: int, j: int|
            0 <= i < listing.len() && 0 <= j < listing.len() && i != j ==> (#[trigger] listing[i]).path
                != (#[trigger] listing[j]).path,
    ensures
        paths_once(listed_files(listing).to_multiset()),
        forall|e: EntryView|
            #[trigger] listed_files(listing).to_multiset().count(e) > 0 ==> exists|i: int|
                0 <= i < listing.len() && listing[i] == e,
    decreases listing.len(),
{
    broadcast use vstd::multiset::group_multiset_axioms;
    broadcast use vstd::seq_lib::group_to_multiset_ensures;

    if listing.len() == 0 {
        assert(listed_files(listing).to_multiset() =~= Multiset::empty());
    } else {
        let front = listing.drop_last();
        let last = listing.last();
        assert forall|i: int, j: int|
            0 <= i < front.len() && 0 <= j < front.len() && i != j implies (#[trigger] front[i]).path
                != (#[trigger] front[j]).path by {
            assert(front[i] == listing[i] && front[j] == listing[j]);
        }
        lemma_listed_files_origin(front);
        let m = listed_files(front).to_multiset();
        assert forall|e: EntryView| #[trigger] m.count(e) > 0 implies e.path != last.path by {
            let i = choose|i: int| 0 <= i < front.len() && front[i] == e;
            assert(listing[i] == e);
            assert(listing[listing.len() - 1] == last);
        }
        if !last.is_directory {
            assert(listed_files(listing) == listed_files(front).push(last));
            let one = Multiset::<EntryView>::singleton(last);
            assert(listed_files(front).push(last).to_multiset() =~= m.insert(last));
            assert(m.insert(last) =~= m.add(one));
            assert forall|e1: EntryView, e2: EntryView|
                #[trigger] one.count(e1) > 0 && #[trigger] one.count(e2) > 0 && e1.path == e2.path
                    implies e1 == e2 && one.count(e1) == 1 by {
            }
            lemma_paths_once_sum(m, one);
            assert forall|e: EntryView| #[trigger] m.add(one).count(e) > 0 implies exists|i: int|
                0 <= i < listing.len() && listing[i] == e by {
                if m.count(e) > 0 {
                    let i = choose|i: int| 0 <= i < front.len() && front[i] == e;
                    assert(listing[i] == e);
                } else {
                    assert(listing[listing.len() - 1] == e);
                }
            }
        } else {
            assert forall|e: EntryView| #[trigger] m.count(e) > 0 implies exists|i: int|
                0 <= i < listing.len() && listing[i] == e by {
                let i = choose|i: int| 0 <= i < front.len() && front[i] == e;
                assert(listing[i] == e);
            }
        }
    }
}

proof fn lemma_listed_dirs_origin(listing: Seq<EntryView>)
    requires
        forall|i: int, j: int|
            0 <= i < listing.len() && 0 <= j < listing.len() && i != j ==> (#[trigger] listing[i]).path
                != (#[trigger] listing[j]).path,
    ensures
        listed_dirs(listing).no_duplicates(),
        forall|k: int|
            0 <= k < listed_dirs(listing).len() ==> exists|i: int|
                0 <= i < listing.len() && listing[i].path == #[trigger] listed_dirs(listing)[k],
    decreases listing.len(),
{
    if listing.len() > 0 {
        let front = listing.drop_last();
        let last = listing.last();
        assert forall|i: int, j: int|
            0 <= i < front.len() && 0 <= j < front.len() && i != j implies (#[trigger] front[i]).path
                != (#[trigger] front[j]).path by {
            assert(front[i] == listing[i] && front[j] == listing[j]);
        }
        lemma_listed_dirs_origin(front);
        let before = listed_dirs(front);
        let all = listed_dirs(listing);
        assert(listing[listing.len() - 1] == last);
        assert forall|k: int| 0 <= k < before.len() implies before[k] != last.path by {
            let i = choose|i: int| 0 <= i < front.len() && front[i].path == before[k];
            assert(listing[i] == front[i]);
        }
        assert forall|k: int| 0 <= k < all.len() implies exists|i: int|
            0 <= i < listing.len() && listing[i].path == #[trigger] all[k] by {
            if k < before.len() {
                assert(all[k] == before[k]);
                let i = choose|i: int| 0 <= i < front.len() && front[i].path == before[k];
                assert(listing[i] == front[i]);
            } else {
                assert(all[k] == listing[listing.len() - 1].path);
            }
        }
        if last.is_directory {
            assert forall|a: int, b: int| 0 <= a < all.len() && 0 <= b < all.len() && a != b implies all[a]
                != all[b] by {
                if a < before.len() && b < before.len() {
                    assert(all[a] == before[a] && all[b] == before[b]);
                } else if a < before.len() {
                    assert(all[a] == before[a]);
                } else if b < before.len() {
                    assert(all[b] == before[b]);
                }
            }
        }
    }
}

proof fn lemma_prefix_trans(a: Seq<Seq<char>>, b: Seq<Seq<char>>, c: Seq<Seq<char>>)
    requires
        a.is_prefix_of(b),
        b.is_prefix_of(c),
    ensures
        a.is_prefix_of(c),
{
    assert forall|i: int| 0 <= i < a.len() implies c[i] == a[i] by {
        assert(b.subrange(0, a.len() as int)[i] == a[i]);
        assert(c.subrange(0, b.len() as int)[i] == b[i]);
    }
    assert(c.subrange(0, a.len() as int) =~= a);
}

proof fn lemma_subtree_paths_once(
    tree: Map<Seq<Seq<char>>, Seq<EntryView>>,
    d: Seq<Seq<char>>,
    bound: nat,
)
    requires
        tree_proper(tree, bound),
        tree.contains_key(d),
    ensures
        paths_once(subtree(tree, d, bound).0),
        forall|e: EntryView|
            #[trigger] subtree(tree, d, bound).0.count(e) > 0 ==> d.is_prefix_of(e.path)
                && e.path.len() > d.len(),
    decreases bound - d.len(), 0nat,
{
    broadcast use vstd::multiset::group_multiset_axioms;

    let listing = tree[d];
    assert forall|i: int, j: int|
        0 <= i < listing.len() && 0 <= j < listing.len() && i != j implies (#[trigger] listing[i]).path
            != (#[trigger] listing[j]).path by {
        assert(tree[d][i] == listing[i] && tree[d][j] == listing[j]);
    }
    lemma_listed_files_origin(listing);
    let files = listed_files(listing).to_multiset();
    assert forall|e: EntryView| #[trigger] files.count(e) > 0 implies d.is_prefix_of(e.path)
        && e.path.len() == d.len() + 1 by {
        let i = choose|i: int| 0 <= i < listing.len() && listing[i] == e;
        assert(tree[d][i] == e);
    }
    if d.len() < bound {
        assert forall|i: int|
            0 <= i < listing.len() && (#[trigger] listing[i]).is_directory implies tree.contains_key(
            listing[i].path,
        ) && listing[i].path.len() == d.len() + 1 by {
            assert(tree[d][i] == listing[i]);
        }
        lemma_listed_dirs_in_tree(tree, listing, d.len() + 1);
        lemma_listed_dirs_origin(listing);
        let dirs = listed_dirs(listing);
        lemma_subtrees_at_paths_once(tree, dirs, bound, d.len() + 1);
        let below = subtrees_at(tree, dirs, bound, d.len() + 1).0;
        assert forall|e: EntryView| #[trigger] below.count(e) > 0 implies d.is_prefix_of(e.path)
            && e.path.len() > d.len() + 1 by {
            let k = choose|k: int| 0 <= k < dirs.len() && dirs[k].is_prefix_of(e.path);
            let i = choose|i: int| 0 <= i < listing.len() && listing[i].path == dirs[k];
            assert(tree[d][i] == listing[i]);
            lemma_prefix_trans(d, dirs[k], e.path);
        }
        assert forall|e1: EntryView, e2: EntryView|
            #[trigger] files.count(e1) > 0 && #[trigger] below.count(e2) > 0 implies e1.path
            != e2.path by {
        }
        lemma_paths_once_sum(files, below);
    }
}

proof fn lemma_subtrees_at_paths_once(
    tree: Map<Seq<Seq<char>>, Seq<EntryView>>,
    ds: Seq<Seq<Seq<char>>>,
    bound: nat,
    level: nat,
)
    requires
        tree_proper(tree, bound),
        level <= bound,
        ds.no_duplicates(),
        forall|k: int|
            0 <= k < ds.len() ==> tree.contains_key(#[trigger] ds[k]) && ds[k].len() == level,
    ensures
        paths_once(subtrees_at(tree, ds, bound, level).0),
        forall|e: EntryView|
            #[trigger] subtrees_at(tree, ds, bound, level).0.count(e) > 0 ==> e.path.len() > level
                && exists|k: int| 0 <= k < ds.len() && ds[k].is_prefix_of(e.path),
    decreases bound - level, ds.len(),
{
    broadcast use vstd::multiset::group_multiset_axioms;

    if ds.len() == 0 {
        let m = subtrees_at(tree, ds, bound, level).0;
        assert(m =~= Multiset::empty());
    } else {
        let front = ds.drop_last();
        let last = ds.last();
        assert(ds[ds.len() - 1] == last);
        assert forall|k: int| 0 <= k < front.len() implies tree.contains_key(#[trigger] front[k])
            && front[k].len() == level by {
            assert(front[k] == ds[k]);
        }
        assert forall|a: int, b: int| 0 <= a < front.len() && 0 <= b < front.len() && a != b implies front[a]
            != front[b] by {
            assert(front[a] == ds[a] && front[b] == ds[b]);
        }
        lemma_subtrees_at_paths_once(tree, front, bound, level);
        lemma_subtree_paths_once(tree, last, bound);
        let r = subtrees_at(tree, front, bound, level).0;
        let l = subtree(tree, last, bound).0;
        assert forall|e1: EntryView, e2: EntryView|
            #[trigger] r.count(e1) > 0 && #[trigger] l.count(e2) > 0 implies e1.path != e2.path by {
            let k = choose|k: int| 0 <= k < front.len() && front[k].is_prefix_of(e1.path);
            if e1.path == e2.path {
                assert(front[k] =~= e1.path.subrange(0, level as int));
                assert(last =~= e2.path.subrange(0, level as int));
                assert(front[k] == ds[k]);
            }
        }
        lemma_paths_once_sum(r, l);
        assert forall|e: EntryView| #[trigger] r.add(l).count(e) > 0 implies e.path.len() > level
            && exists|k: int| 0 <= k < ds.len() && ds[k].is_prefix_of(e.path) by {
            if r.count(e) > 0 {
                let k = choose|k: int| 0 <= k < front.len() && front[k].is_prefix_of(e.path);
                assert(ds[k] == front[k]);
            } else {
                assert(ds[ds.len() - 1].is_prefix_of(e.path));
            }
        }
    }
}

/// In a tree whose entries lie inside the directories that list them and
/// whose listings name no path twice, the walk started at `root` finds no
/// path twice: every file it reports stands for a path of its own.
pub proof fn lemma_walk_no_path_twice(
    tree: Map<Seq<Seq<char>>, Seq<EntryView>>,
    root: Seq<Seq<char>>,
    bound: nat,
    fuel: nat,
)
    requires
        tree_proper(tree, bound),
        tree.contains_key(root),
        fuel >= subtree(tree, root, bound).1,
    ensures
        paths_once(walk_run(tree, seq![root], Seq::empty(), fuel).1.to_multiset()),
{
    lemma_walk_complete(tree, root, bound, fuel);
    lemma_subtree_paths_once(tree, root, bound);
}

/// A breadth-first walk of a remote tree: the directories still to list, in
/// order, and the files found so far.
pub struct TreeWalk {
    pending: Vec<PathParts>,
    files: Vec<RemoteEntry>,
}

impl TreeWalk {
    /// The directories still to list, first one first.
    pub closed spec fn pending(&self) -> Seq<Seq<Seq<char>>> {
        self.pending@.map_values(|p: PathParts| p@)
    }

    /// The files found so far, in the order they were found.
    pub closed spec fn found(&self) -> Seq<EntryView> {
        entries_view(self.files@)
    }

    /// A walk that starts by listing `root`; the root itself is never reported.
    pub fn new(root: PathParts) -> (w: TreeWalk)
        ensures
            w.pending() == seq![root@],
            w.found() == Seq::<EntryView>::empty(),
    {
        let w = TreeWalk { pending: vec![root], files: Vec::new() };
        proof {
            assert(w.pending() =~= seq![w.pending@[0]@]);
            assert(w.found() =~= Seq::<EntryView>::empty());
        }
        w
    }

    /// Whether every directory has been listed.
    pub fn is_done(&self) -> (r: bool)
        ensures
            r == (self.pending().len() == 0),
    {
        self.pending.len() == 0
    }

    /// The directory to list next, or `None` when the walk is complete.
    pub fn next_directory(&self) -> (r: Option<PathParts>)
        ensures
            self.pending().len() == 0 ==> r is None,
            self.pending().len() > 0 ==> (r matches Some(p) && p@ == self.pending()[0]),
    {
        if self.pending.len() == 0 {
            None
        } else {
            Some(self.pending[0].duplicate())
        }
    }

    /// Takes in the listing of the directory that `next_directory` named:
    /// its subdirectories join the end of the queue and its other entries the
    /// files found.
    pub fn absorb_listing(&mut self, listing: Vec<RemoteEntry>)
        requires
            old(self).pending().len() > 0,
        ensures
            final(self).pending() == old(self).pending().drop_first() + listed_dirs(entries_view(listing@)),
            final(self).found() == old(self).found() + listed_files(entries_view(listing@)),
    {
        let ghost lv = entries_view(listing@);
        let ghost rest = self.pending().drop_first();
        let ghost found0 = self.found();
        self.pending.remove(0);
        assert(self.pending() =~= rest);
        let mut i: usize = 0;
        while i < listing.len()
            invariant
                i <= listing.len(),
                lv == entries_view(listing@),
                self.pending() == rest + listed_dirs(lv.take(i as int)),
                self.found() == found0 + listed_files(lv.take(i as int)),
            decreases listing.len() - i,
        {
            let entry = &listing[i];
            proof {
                assert(lv.take(i + 1).drop_last() =~= lv.take(i as int));
                assert(lv.take(i + 1).last() == entry@);
            }
            if entry.is_directory {
                let ghost before = self.pending@;
                self.pending.push(entry.path.duplicate());
                proof {
                    assert(self.pending() =~= before.map_values(|p: PathParts| p@).push(
                        entry.path@,
                    ));
                }
            } else {
                let ghost before = self.files@;
                self.files.push(entry.duplicate());
                proof {
                    assert(self.found() =~= entries_view(before).push(entry@));
                }
            }
            i = i + 1;
        }
        proof {
            assert(lv.take(lv.len() as int) =~= lv);
        }
    }

    /// The files found so far.
    pub fn files(&self) -> (r: &Vec<RemoteEntry>)
        ensures
            entries_view(r@) == self.found(),
    {
        &self.files
    }

    /// The files found, once the walk is complete.
    pub fn into_files(self) -> (r: Vec<RemoteEntry>)
        ensures
            entries_view(r@) == self.found(),
    {
        self.files
    }
}

} // verus!
