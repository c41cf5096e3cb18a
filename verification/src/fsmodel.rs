//! The target filesystem as the engine sees it: a value mapping relative
//! paths to nodes. The engine decides every write against this model and the
//! process boundary mirrors the decisions onto the real disk, so "which paths
//! an extraction writes" is a verified statement, not an observation.

use vstd::prelude::*;

verus! {

/// What stands at a path in the model filesystem.
pub ghost enum NodeV {
    File { data: Seq<u8> },
    Dir,
    Link { target: Seq<char> },
}

/// An executable filesystem node: a regular file's bytes, a directory, or a
/// symbolic link's target.
pub enum FsNode {
    File { data: Vec<u8> },
    Dir,
    Link { target: String },
}

impl View for FsNode {
    type V = NodeV;

    open spec fn view(&self) -> NodeV {
        match self {
            FsNode::File { data } => NodeV::File { data: data@ },
            FsNode::Dir => NodeV::Dir,
            FsNode::Link { target } => NodeV::Link { target: target@ },
        }
    }
}

/// The map a binding list denotes: later bindings shadow earlier ones.
pub open spec fn map_of(s: Seq<(String, FsNode)>) -> Map<Seq<char>, NodeV>
    decreases s.len(),
{
    if s.len() == 0 {
        Map::empty()
    } else {
        map_of(s.drop_last()).insert(s.last().0@, s.last().1@)
    }
}

/// The bindings of `s` whose path is not `p`, in order.
pub open spec fn drop_bindings(s: Seq<(String, FsNode)>, p: Seq<char>) -> Seq<(String, FsNode)>
    decreases s.len(),
{
    if s.len() == 0 {
        s
    } else if s.last().0@ == p {
        drop_bindings(s.drop_last(), p)
    } else {
        drop_bindings(s.drop_last(), p).push(s.last())
    }
}

/// A path is bound exactly when some binding carries it.
pub proof fn lemma_map_of_contains(s: Seq<(String, FsNode)>, p: Seq<char>)
    ensures
        map_of(s).contains_key(p) <==> exists|i: int| 0 <= i < s.len() && s[i].0@ == p,
    decreases s.len(),
{
    if s.len() > 0 {
        lemma_map_of_contains(s.drop_last(), p);
        if map_of(s).contains_key(p) {
            if s.last().0@ != p {
                let i = choose|i: int| 0 <= i < s.drop_last().len() && s.drop_last()[i].0@ == p;
                assert(s[i].0@ == p);
            } else {
                assert(s[s.len() - 1].0@ == p);
            }
        }
        if exists|i: int| 0 <= i < s.len() && s[i].0@ == p {
            let i = choose|i: int| 0 <= i < s.len() && s[i].0@ == p;
            if i < s.len() - 1 {
                assert(s.drop_last()[i].0@ == p);
            }
        }
    }
}

/// The value of a bound path is the value of its last binding.
pub proof fn lemma_map_of_last_match(s: Seq<(String, FsNode)>, j: int, p: Seq<char>)
    requires
        0 <= j < s.len(),
        s[j].0@ == p,
        forall|k: int| j < k < s.len() ==> s[k].0@ != p,
    ensures
        map_of(s).contains_key(p),
        map_of(s)[p] == s[j].1@,
    decreases s.len(),
{
    if j == s.len() - 1 {
    } else {
        assert(s.drop_last()[j].0@ == p);
        lemma_map_of_last_match(s.drop_last(), j, p);
    }
}

/// Dropping every binding of a path removes exactly that path from the map.
pub proof fn lemma_drop_bindings_removes(s: Seq<(String, FsNode)>, p: Seq<char>)
    ensures
        map_of(drop_bindings(s, p)) =~= map_of(s).remove(p),
    decreases s.len(),
{
    if s.len() > 0 {
        lemma_drop_bindings_removes(s.drop_last(), p);
        if s.last().0@ != p {
            assert(drop_bindings(s, p).drop_last() =~= drop_bindings(s.drop_last(), p));
            assert(drop_bindings(s, p).last() == s.last());
        }
    }
}

/// The target filesystem under one target root. Paths are relative to the
/// root; its view is the map from path to node.
pub struct Fs {
    bindings: Vec<(String, FsNode)>,
}

impl View for Fs {
    type V = Map<Seq<char>, NodeV>;

    closed spec fn view(&self) -> Map<Seq<char>, NodeV> {
        map_of(self.bindings@)
    }
}

impl Fs {
    /// An empty target root.
    pub fn empty() -> (r: Fs)
        ensures
            r@ == Map::<Seq<char>, NodeV>::empty(),
    {
        Fs { bindings: Vec::new() }
    }

    /// Whether `path` exists, and what stands there.
    pub fn lookup(&self, path: &String) -> (r: Option<&FsNode>)
        ensures
            match r {
                Some(node) => self@.contains_key(path@) && self@[path@] == node@,
                None => !self@.contains_key(path@),
            },
    {
        let n = self.bindings.len();
        let mut i: usize = n;
        while i > 0
            invariant
                i <= n,
                n == self.bindings@.len(),
                forall|k: int| i <= k < n ==> self.bindings@[k].0@ != path@,
            decreases i,
        {
            i = i - 1;
            if self.bindings[i].0 == *path {
                proof {
                    lemma_map_of_last_match(self.bindings@, i as int, path@);
                }
                return Some(&self.bindings[i].1);
            }
        }
        proof {
            lemma_map_of_contains(self.bindings@, path@);
        }
        None
    }

    /// Writes `node` at `path`, creating or replacing it.
    pub fn set_node(&mut self, path: String, node: FsNode)
        ensures
            final(self)@ == old(self)@.insert(path@, node@),
    {
        let ghost before = self.bindings@;
        self.bindings.push((path, node));
        proof {
            assert(self.bindings@.drop_last() =~= before);
        }
    }

    /// Deletes whatever stands at `path`; a missing path is left missing.
    pub fn remove_node(&mut self, path: &String)
        ensures
            final(self)@ == old(self)@.remove(path@),
    {
        let ghost orig = old(self).bindings@;
        let mut i: usize = 0;
        let ghost mut done: int = 0;
        while i < self.bindings.len()
            invariant
                0 <= done <= orig.len(),
                self.bindings@ =~= drop_bindings(orig.take(done), path@) + orig.skip(done),
                i == drop_bindings(orig.take(done), path@).len(),
            decreases orig.len() - done,
        {
            proof {
                assert(orig.take(done + 1).drop_last() =~= orig.take(done));
                assert(self.bindings@[i as int] == orig[done]);
            }
            if self.bindings[i].0 == *path {
                self.bindings.remove(i);
                proof {
                    assert(self.bindings@ =~= drop_bindings(orig.take(done + 1), path@)
                        + orig.skip(done + 1));
                }
            } else {
                i = i + 1;
                proof {
                    assert(drop_bindings(orig.take(done + 1), path@) =~= drop_bindings(
                        orig.take(done),
                        path@,
                    ).push(orig[done]));
                    assert(self.bindings@ =~= drop_bindings(orig.take(done + 1), path@)
                        + orig.skip(done + 1));
                }
            }
            proof {
                done = done + 1;
            }
        }
        proof {
            assert(done == orig.len());
            assert(orig.take(done) =~= orig);
            assert(self.bindings@ =~= drop_bindings(orig, path@));
            lemma_drop_bindings_removes(orig, path@);
        }
    }
}

/// Copies a byte vector.
pub fn clone_bytes(data: &Vec<u8>) -> (r: Vec<u8>)
    ensures
        r@ == data@,
{
    let mut out: Vec<u8> = Vec::new();
    let mut i: usize = 0;
    while i < data.len()
        invariant
            i <= data@.len(),
            out@ == data@.take(i as int),
        decreases data@.len() - i,
    {
        out.push(data[i]);
        proof {
            assert(out@ =~= data@.take(i + 1));
        }
        i = i + 1;
    }
    proof {
        assert(out@ =~= data@);
    }
    out
}

} // verus!
