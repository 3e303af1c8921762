//! File paths as the sequence of their components.

use vstd::prelude::*;
use crate::ops::text::{same_text, texts};

verus! {

/// A path, held as its components from the outermost directory inwards.
#[derive(Debug)]
pub struct FilePath {
    pub components: Vec<String>,
}

impl View for FilePath {
    type V = Seq<Seq<char>>;

    open spec fn view(&self) -> Seq<Seq<char>> {
        texts(self.components@)
    }
}

impl Clone for FilePath {
    fn clone(&self) -> (copy: Self)
        ensures
            copy@ == self@,
    {
        let mut components: Vec<String> = Vec::new();
        let mut i: usize = 0;
        while i < self.components.len()
            invariant
                i <= self.components@.len(),
                components@.len() == i,
                forall|j: int| 0 <= j < i ==> (#[trigger] components@[j])@ == self.components@[j]@,
            decreases self.components@.len() - i,
        {
            components.push(self.components[i].clone());
            i += 1;
        }
        let copy = FilePath { components };
        assert(copy@ =~= self@);
        copy
    }
}

/// Whether `path` lies below `base` with `first` as the component that
/// follows `base`.
pub open spec fn enters(path: Seq<Seq<char>>, base: Seq<Seq<char>>, first: Seq<char>) -> bool {
    &&& base.len() < path.len()
    &&& path.subrange(0, base.len() as int) == base
    &&& path[base.len() as int] == first
}

/// Whether the last component of `path` is `name`.
pub open spec fn named(path: Seq<Seq<char>>, name: Seq<char>) -> bool {
    path.len() > 0 && path.last() == name
}

impl FilePath {
    /// The empty path.
    pub fn new() -> (path: FilePath)
        ensures
            path@.len() == 0,
    {
        let path = FilePath { components: Vec::new() };
        assert(path@ =~= Seq::empty());
        path
    }

    /// This path with one more component.
    pub fn join(&self, name: &str) -> (path: FilePath)
        ensures
            path@ == self@.push(name@),
    {
        let mut path = self.clone();
        path.components.push(name.to_owned());
        assert(path@ =~= self@.push(name@));
        path
    }

    /// This path without its last component, or `None` for the empty path.
    pub fn parent(&self) -> (parent: Option<FilePath>)
        ensures
            match parent {
                Some(p) => self@.len() > 0 && p@ == self@.drop_last(),
                None => self@.len() == 0,
            },
    {
        if self.components.len() == 0 {
            return None;
        }
        let mut components: Vec<String> = Vec::new();
        let kept = self.components.len() - 1;
        let mut i: usize = 0;
        while i < kept
            invariant
                kept + 1 == self.components@.len(),
                i <= kept,
                components@.len() == i,
                forall|j: int| 0 <= j < i ==> (#[trigger] components@[j])@ == self.components@[j]@,
            decreases kept - i,
        {
            components.push(self.components[i].clone());
            i += 1;
        }
        let parent = FilePath { components };
        assert(parent@ =~= self@.drop_last());
        Some(parent)
    }

    /// Whether two paths have the same components.
    pub fn equals(&self, other: &FilePath) -> (same: bool)
        ensures
            same == (self@ == other@),
    {
        if self.components.len() != other.components.len() {
            assert(self@.len() != other@.len());
            return false;
        }
        let mut i: usize = 0;
        while i < self.components.len()
            invariant
                self.components@.len() == other.components@.len(),
                i <= self.components@.len(),
                forall|j: int| 0 <= j < i ==> self@[j] == other@[j],
            decreases self.components@.len() - i,
        {
            if self.components[i] != other.components[i] {
                assert(self@[i as int] != other@[i as int]);
                return false;
            }
            i += 1;
        }
        assert(self@ =~= other@);
        true
    }

    /// Whether the last component is `name`.
    pub fn ends_with(&self, name: &str) -> (yes: bool)
        ensures
            yes == named(self@, name@),
    {
        let n = self.components.len();
        if n == 0 {
            return false;
        }
        assert(self@.last() == self.components@[n - 1]@);
        same_text(self.components[n - 1].as_str(), name)
    }

    /// Whether this path lies below `base` and continues there with `first`.
    pub fn enters(&self, base: &FilePath, first: &str) -> (yes: bool)
        ensures
            yes == enters(self@, base@, first@),
    {
        let n = base.components.len();
        if self.components.len() <= n {
            return false;
        }
        let mut i: usize = 0;
        while i < n
            invariant
                n == base.components@.len(),
                n < self.components@.len(),
                i <= n,
                forall|j: int| 0 <= j < i ==> self@[j] == base@[j],
            decreases n - i,
        {
            if self.components[i] != base.components[i] {
                assert(self@.subrange(0, n as int)[i as int] != base@[i as int]);
                return false;
            }
            i += 1;
        }
        assert(self@.subrange(0, n as int) =~= base@);
        assert(self@[n as int] == self.components@[n as int]@);
        same_text(self.components[n].as_str(), first)
    }
}

} // verus!
