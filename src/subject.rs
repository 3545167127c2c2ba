//! Subjects: the addresses on which payloads travel, with hierarchical
//! child derivation.
use vstd::prelude::*;

verus! {

/// A transport address from which child addresses are derived. `None` is an
/// indeterminate index: one that stands for any position.
pub trait Subject: Sized {
    fn child(&self, i: Option<u32>) -> Self;
}

/// A subject named by its path of child indices from the root subject of an
/// exchange.
#[derive(Debug, Clone, PartialEq, Eq)]
pub struct SubjectPath {
    pub segments: Vec<Option<u32>>,
}

impl View for SubjectPath {
    type V = Seq<Option<u32>>;

    open spec fn view(&self) -> Seq<Option<u32>> {
        self.segments@
    }
}

/// The subject that a path of child indices leads to from `root`.
pub open spec fn resolve(root: Seq<Option<u32>>, path: Seq<Option<u32>>) -> Seq<Option<u32>> {
    root + path
}

impl SubjectPath {
    /// The root subject.
    pub fn root() -> (r: SubjectPath)
        ensures
            r@ == Seq::<Option<u32>>::empty(),
    {
        SubjectPath { segments: Vec::new() }
    }

    /// A copy of this subject.
    pub fn copied(&self) -> (r: SubjectPath)
        ensures
            r@ == self@,
    {
        let mut segments: Vec<Option<u32>> = Vec::new();
        let mut k: usize = 0;
        while k < self.segments.len()
            invariant
                k <= self.segments.len(),
                segments@ == self@.subrange(0, k as int),
            decreases self.segments.len() - k,
        {
            segments.push(self.segments[k]);
            k = k + 1;
        }
        assert(segments@ == self@);
        SubjectPath { segments }
    }

    /// The child of this subject at index `i`.
    pub fn child_path(&self, i: Option<u32>) -> (r: SubjectPath)
        ensures
            r@ == self@.push(i),
    {
        let mut r = self.copied();
        r.segments.push(i);
        r
    }
}

impl Subject for SubjectPath {
    fn child(&self, i: Option<u32>) -> SubjectPath {
        self.child_path(i)
    }
}

/// Two different paths from one root lead to two different subjects, and no
/// child is its own parent.
pub proof fn lemma_child_subjects_distinct(
    root: Seq<Option<u32>>,
    p1: Seq<Option<u32>>,
    p2: Seq<Option<u32>>,
)
    requires
        p1 != p2,
    ensures
        resolve(root, p1) != resolve(root, p2),
        p1.len() > 0 ==> resolve(root, p1) != root,
{
    if resolve(root, p1) == resolve(root, p2) {
        assert(p1 =~= resolve(root, p1).subrange(root.len() as int, resolve(root, p1).len() as int));
        assert(p2 =~= resolve(root, p2).subrange(root.len() as int, resolve(root, p2).len() as int));
    }
}

} // verus!
