//! Paths as lists of components.
//!
//! The decisions of this crate never parse a path: they compare paths, extend
//! them by one name, and test whether one lies under another. A path is
//! therefore held as the list of its components, and its view is that list.

use crate::text::same_text;
use vstd::prelude::*;
use vstd::string::StringExecFns;

verus! {

/// A path, component by component.
#[derive(Debug)]
pub struct TreePath {
    /// The components, outermost first.
    pub parts: Vec<String>,
}

impl View for TreePath {
    type V = Seq<Seq<char>>;

    open spec fn view(&self) -> Seq<Seq<char>> {
        Seq::new(self.parts@.len(), |i: int| self.parts@[i]@)
    }
}

/// `path` lies at or under `root`: the components of `root` are the first
/// components of `path`.
pub open spec fn under(path: Seq<Seq<char>>, root: Seq<Seq<char>>) -> bool {
    root.is_prefix_of(path)
}

/// The names held by a list of strings.
pub open spec fn names_of(names: Seq<String>) -> Seq<Seq<char>> {
    Seq::new(names.len(), |i: int| names[i]@)
}

impl TreePath {
    /// The path without components.
    pub fn new() -> (r: TreePath)
        ensures
            r@ == Seq::<Seq<char>>::empty(),
    {
        let r = TreePath { parts: Vec::new() };
        proof {
            assert(r@ =~= Seq::<Seq<char>>::empty());
        }
        r
    }

    /// The path with the given components.
    pub fn from_parts(parts: Vec<String>) -> (r: TreePath)
        ensures
            r@ == names_of(parts@),
    {
        TreePath { parts }
    }

    /// The number of components.
    pub fn len(&self) -> (n: usize)
        ensures
            n == self@.len(),
    {
        self.parts.len()
    }

    /// A copy of this path.
    pub fn duplicate(&self) -> (r: TreePath)
        ensures
            r@ == self@,
    {
        let mut parts: Vec<String> = Vec::new();
        let mut i: usize = 0;
        while i < self.parts.len()
            invariant
                i <= self.parts.len(),
                parts@.len() == i,
                forall|j: int| 0 <= j < i ==> parts@[j]@ == self.parts@[j]@,
            decreases self.parts.len() - i,
        {
            parts.push(self.parts[i].clone());
            i += 1;
        }
        let r = TreePath { parts };
        proof {
            assert(r@ =~= self@);
        }
        r
    }

    /// This path extended by one component.
    pub fn join(&self, name: &str) -> (r: TreePath)
        ensures
            r@ == self@.push(name@),
    {
        let mut r = self.duplicate();
        let ghost before = r@;
        r.parts.push(String::from_str(name));
        proof {
            assert(r@ =~= before.push(name@));
        }
        r
    }

    /// Whether two paths have the same components.
    pub fn same(&self, other: &TreePath) -> (r: bool)
        ensures
            r == (self@ == other@),
    {
        if self.parts.len() != other.parts.len() {
            proof {
                assert(self@.len() != other@.len());
            }
            return false;
        }
        let mut i: usize = 0;
        while i < self.parts.len()
            invariant
                i <= self.parts.len(),
                self.parts.len() == other.parts.len(),
                forall|j: int| 0 <= j < i ==> self@[j] == other@[j],
            decreases self.parts.len() - i,
        {
            if !same_text(self.parts[i].as_str(), other.parts[i].as_str()) {
                proof {
                    assert(self@[i as int] != other@[i as int]);
                }
                return false;
            }
            i += 1;
        }
        proof {
            assert(self@ =~= other@);
        }
        true
    }

    /// Whether this path lies at or under `prefix`.
    pub fn starts_with(&self, prefix: &TreePath) -> (r: bool)
        ensures
            r == under(self@, prefix@),
    {
        if prefix.parts.len() > self.parts.len() {
            proof {
                assert(prefix@.len() > self@.len());
            }
            return false;
        }
        let mut i: usize = 0;
        while i < prefix.parts.len()
            invariant
                i <= prefix.parts.len(),
                prefix.parts.len() <= self.parts.len(),
                forall|j: int| 0 <= j < i ==> self@[j] == prefix@[j],
            decreases prefix.parts.len() - i,
        {
            if !same_text(self.parts[i].as_str(), prefix.parts[i].as_str()) {
                proof {
                    assert(self@[i as int] != prefix@[i as int]);
                }
                return false;
            }
            i += 1;
        }
        proof {
            assert(prefix@ =~= self@.subrange(0, prefix@.len() as int));
        }
        true
    }
}

/// Two paths that differ still differ after the same name is added to both.
pub proof fn lemma_join_keeps_apart(a: Seq<Seq<char>>, b: Seq<Seq<char>>, name: Seq<char>)
    requires
        a != b,
    ensures
        a.push(name) != b.push(name),
{
    if a.push(name) == b.push(name) {
        assert(a.push(name).drop_last() =~= a);
        assert(b.push(name).drop_last() =~= b);
    }
}

} // verus!
