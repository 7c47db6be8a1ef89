use vstd::prelude::*;

verus! {

/// The view of a path: its components, outermost first.
pub open spec fn parts_view(parts: Seq<String>) -> Seq<Seq<char>> {
    parts.map_values(|s: String| s@)
}

/// Where `path` lands when the root `from` is replaced by the root `to`:
/// `None` when `path` does not lie under `from`.
pub open spec fn map_root(path: Seq<Seq<char>>, from: Seq<Seq<char>>, to: Seq<Seq<char>>) -> Option<
    Seq<Seq<char>>,
> {
    if from.is_prefix_of(path) {
        Some(to + path.skip(from.len() as int))
    } else {
        None
    }
}

proof fn lemma_parts_view_push(s: Seq<String>, x: String)
    ensures
        parts_view(s.push(x)) == parts_view(s).push(x@),
{
    assert(parts_view(s.push(x)) =~= parts_view(s).push(x@));
}

/// A file-system path, held as its components.
#[derive(Clone, Debug, PartialEq, Eq)]
pub struct PathParts {
    pub parts: Vec<String>,
}

impl View for PathParts {
    type V = Seq<Seq<char>>;

    open spec fn view(&self) -> Seq<Seq<char>> {
        parts_view(self.parts@)
    }
}

impl PathParts {
    pub fn new(parts: Vec<String>) -> (r: PathParts)
        ensures
            r.parts == parts,
            r@ == parts_view(parts@),
    {
        PathParts { parts }
    }

    /// A copy of this path.
    pub fn duplicate(&self) -> (r: PathParts)
        ensures
            r@ == self@,
    {
        self.join(&PathParts { parts: Vec::new() })
    }

    /// The number of components.
    pub fn len(&self) -> (r: usize)
        ensures
            r == self@.len(),
    {
        self.parts.len()
    }

    /// This path followed by the components of `rel`.
    pub fn join(&self, rel: &PathParts) -> (r: PathParts)
        ensures
            r@ == self@ + rel@,
    {
        let mut parts: Vec<String> = Vec::new();
        let mut i: usize = 0;
        while i < self.parts.len()
            invariant
                i <= self.parts.len(),
                parts_view(parts@) == self@.take(i as int),
            decreases self.parts.len() - i,
        {
            let part = self.parts[i].clone();
            proof {
                lemma_parts_view_push(parts@, part);
                assert(self@.take(i as int).push(part@) =~= self@.take(i + 1));
            }
            parts.push(part);
            i = i + 1;
        }
        let mut j: usize = 0;
        while j < rel.parts.len()
            invariant
                j <= rel.parts.len(),
                parts_view(parts@) == self@ + rel@.take(j as int),
            decreases rel.parts.len() - j,
        {
            let part = rel.parts[j].clone();
            proof {
                lemma_parts_view_push(parts@, part);
                assert((self@ + rel@.take(j as int)).push(part@) =~= self@ + rel@.take(j + 1));
            }
            parts.push(part);
            j = j + 1;
        }
        proof {
            assert(self@.take(self@.len() as int) =~= self@);
            assert(rel@.take(rel@.len() as int) =~= rel@);
        }
        PathParts { parts }
    }

    /// Whether `root` is a leading part of this path, component by component.
    pub fn starts_with(&self, root: &PathParts) -> (r: bool)
        ensures
            r == root@.is_prefix_of(self@),
    {
        if root.parts.len() > self.parts.len() {
            return false;
        }
        let mut i: usize = 0;
        while i < root.parts.len()
            invariant
                i <= root.parts.len() <= self.parts.len(),
                forall|k: int| 0 <= k < i ==> root@[k] == self@[k],
            decreases root.parts.len() - i,
        {
            if root.parts[i] != self.parts[i] {
                proof {
                    assert(self@.subrange(0, root@.len() as int)[i as int] != root@[i as int]);
                }
                return false;
            }
            i = i + 1;
        }
        proof {
            assert(root@ =~= self@.take(root@.len() as int));
        }
        true
    }

    /// The components after the first `n`.
    pub fn suffix(&self, n: usize) -> (r: PathParts)
        requires
            n <= self@.len(),
        ensures
            r@ == self@.skip(n as int),
    {
        let mut parts: Vec<String> = Vec::new();
        let mut i: usize = n;
        while i < self.parts.len()
            invariant
                n <= i <= self.parts.len(),
                parts_view(parts@) == self@.subrange(n as int, i as int),
            decreases self.parts.len() - i,
        {
            let part = self.parts[i].clone();
            proof {
                lemma_parts_view_push(parts@, part);
                assert(self@.subrange(n as int, i as int).push(part@) =~= self@.subrange(
                    n as int,
                    i + 1,
                ));
            }
            parts.push(part);
            i = i + 1;
        }
        proof {
            assert(self@.subrange(n as int, self@.len() as int) =~= self@.skip(n as int));
        }
        PathParts { parts }
    }

    /// The path relative to `root`, or `None` when it does not lie under `root`.
    pub fn strip_prefix(&self, root: &PathParts) -> (r: Option<PathParts>)
        ensures
            r is Some <==> root@.is_prefix_of(self@),
            r matches Some(rel) ==> self@ == root@ + rel@,
    {
        if self.starts_with(root) {
            let rel = self.suffix(root.parts.len());
            proof {
                assert(self@ =~= root@ + rel@);
            }
            Some(rel)
        } else {
            None
        }
    }

    /// This path with the root `from` replaced by `to`; `None` when it does
    /// not lie under `from`.
    pub fn rebase(&self, from: &PathParts, to: &PathParts) -> (r: Option<PathParts>)
        ensures
            r is Some <==> map_root(self@, from@, to@) is Some,
            r matches Some(p) ==> map_root(self@, from@, to@) == Some(p@),
    {
        match self.strip_prefix(from) {
            Some(rel) => {
                proof {
                    assert(rel@ =~= self@.skip(from@.len() as int));
                }
                Some(to.join(&rel))
            },
            None => None,
        }
    }
}

/// Mapping the remote path `remote_root/p` onto the local root gives
/// `local_root/p`, and mapping that local path back onto the remote root gives
/// `remote_root/p` again, so repeated mapping back and forth is stable.
pub proof fn lemma_map_round_trip(
    local_root: Seq<Seq<char>>,
    remote_root: Seq<Seq<char>>,
    p: Seq<Seq<char>>,
)
    ensures
        map_root(remote_root + p, remote_root, local_root) == Some(local_root + p),
        map_root(local_root + p, local_root, remote_root) == Some(remote_root + p),
{
    assert((remote_root + p).subrange(0, remote_root.len() as int) =~= remote_root);
    assert((remote_root + p).skip(remote_root.len() as int) =~= p);
    assert((local_root + p).subrange(0, local_root.len() as int) =~= local_root);
    assert((local_root + p).skip(local_root.len() as int) =~= p);
}

} // verus!
