//! File-system paths as a base and the names joined onto it.

use vstd::prelude::*;
use crate::text::own;

verus! {

/// The operating system that a path layout is for.
pub enum Platform {
    Windows,
    MacOs,
    Other,
}

/// A path: its first part is the base, and each later part was joined onto
/// it with `Path::join`, in order.
pub struct FsPath {
    pub parts: Vec<String>,
}

impl View for FsPath {
    type V = Seq<Seq<char>>;

    open spec fn view(&self) -> Seq<Seq<char>> {
        Seq::new(self.parts.len() as nat, |i: int| self.parts[i]@)
    }
}

impl FsPath {
    /// The path `base`.
    pub fn new(base: &str) -> (r: FsPath)
        ensures
            r@ == seq![base@],
    {
        let mut parts: Vec<String> = Vec::new();
        parts.push(own(base));
        let r = FsPath { parts };
        assert(r@ =~= seq![base@]);
        r
    }

    /// `self.join(name)`.
    pub fn join(&self, name: &str) -> (r: FsPath)
        ensures
            r@ == self@.push(name@),
    {
        let mut parts: Vec<String> = Vec::new();
        let mut i: usize = 0;
        while i < self.parts.len()
            invariant
                i <= self.parts.len(),
                parts.len() == i,
                forall|j: int| 0 <= j < i ==> parts@[j]@ == self.parts@[j]@,
            decreases self.parts.len() - i,
        {
            parts.push(self.parts[i].clone());
            i += 1;
        }
        parts.push(own(name));
        let r = FsPath { parts };
        assert(r@ =~= self@.push(name@));
        r
    }

    /// A copy of the path.
    pub fn copy(&self) -> (r: FsPath)
        ensures
            r@ == self@,
    {
        let mut parts: Vec<String> = Vec::new();
        let mut i: usize = 0;
        while i < self.parts.len()
            invariant
                i <= self.parts.len(),
                parts.len() == i,
                forall|j: int| 0 <= j < i ==> parts@[j]@ == self.parts@[j]@,
            decreases self.parts.len() - i,
        {
            parts.push(self.parts[i].clone());
            i += 1;
        }
        let r = FsPath { parts };
        assert(r@ =~= self@);
        r
    }

    /// Whether two paths are made of the same parts.
    pub fn same_as(&self, other: &FsPath) -> (r: bool)
        ensures
            r == (self@ == other@),
    {
        if self.parts.len() != other.parts.len() {
            assert(self@.len() != other@.len());
            return false;
        }
        let mut i: usize = 0;
        while i < self.parts.len()
            invariant
                i <= self.parts.len() == other.parts.len(),
                forall|j: int| 0 <= j < i ==> self@[j] == other@[j],
            decreases self.parts.len() - i,
        {
            if !crate::text::str_equal(self.parts[i].as_str(), other.parts[i].as_str()) {
                assert(self@[i as int] != other@[i as int]);
                return false;
            }
            i += 1;
        }
        assert(self@ =~= other@);
        true
    }
}

} // verus!
