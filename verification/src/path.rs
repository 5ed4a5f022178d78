//! The path of the elements that are open: their names from the root down.
use vstd::prelude::*;
use crate::text::{join_strings, joined, texts};

verus! {

/// The slash-joined form of a path.
pub open spec fn path_text(segments: Seq<Seq<char>>) -> Seq<char> {
    joined(segments, "/"@)
}

/// Whether a position is outside the subtree that `target` roots: `target` is no prefix of
/// `current`. This holds of the ancestors of `target` and of every path that leaves it.
pub open spec fn is_above(current: Seq<Seq<char>>, target: Seq<Seq<char>>) -> bool {
    !target.is_prefix_of(current)
}

/// The number of places at which both paths hold the same name.
pub open spec fn matching_places(current: Seq<Seq<char>>, target: Seq<Seq<char>>) -> nat
    decreases target.len(),
{
    if target.len() == 0 {
        0
    } else {
        let before = matching_places(current, target.drop_last());
        if target.len() <= current.len() && current[target.len() - 1] == target.last() {
            before + 1
        } else {
            before
        }
    }
}

/// No more places match than `target` has, and all of them match exactly when `target` is
/// a prefix of `current`.
pub proof fn lemma_matching_places(current: Seq<Seq<char>>, target: Seq<Seq<char>>)
    ensures
        matching_places(current, target) <= target.len(),
        matching_places(current, target) == target.len() <==> target.is_prefix_of(current),
    decreases target.len(),
{
    if target.len() > 0 {
        let shorter = target.drop_last();
        lemma_matching_places(current, shorter);
        if target.is_prefix_of(current) {
            assert(shorter =~= current.subrange(0, shorter.len() as int));
            assert(current[target.len() - 1] == target[target.len() - 1]);
        }
        if shorter.is_prefix_of(current) && target.len() <= current.len() && current[target.len()
            - 1] == target.last() {
            assert(target =~= current.subrange(0, target.len() as int));
        }
    } else {
        assert(target =~= current.subrange(0, 0));
    }
}

/// Counting the matching places gives the same answer as `is_above`.
pub proof fn law_above_by_count(current: Seq<Seq<char>>, target: Seq<Seq<char>>)
    ensures
        is_above(current, target) <==> matching_places(current, target) < target.len(),
{
    lemma_matching_places(current, target);
}

/// Whether `path1` lies outside the subtree of `path2`.
pub fn superordinate(path1: &Vec<String>, path2: &Vec<String>) -> (above: bool)
    ensures
        above == is_above(texts(path1@), texts(path2@)),
{
    if path2.len() > path1.len() {
        return true;
    }
    let mut i: usize = 0;
    while i < path2.len()
        invariant
            i <= path2.len() <= path1.len(),
            forall|j: int| 0 <= j < i ==> texts(path1@)[j] == texts(path2@)[j],
        decreases path2.len() - i,
    {
        if path1[i] != path2[i] {
            proof {
                let current = texts(path1@);
                let target = texts(path2@);
                if target.is_prefix_of(current) {
                    assert(current.subrange(0, target.len() as int)[i as int] == target[i as int]);
                }
            }
            return true;
        }
        i += 1;
    }
    proof {
        assert(texts(path2@) =~= texts(path1@).subrange(0, path2.len() as int));
    }
    false
}

/// The names of the open elements, outermost first.
pub struct PathTracker {
    pub segments: Vec<String>,
}

impl View for PathTracker {
    type V = Seq<Seq<char>>;

    open spec fn view(&self) -> Seq<Seq<char>> {
        texts(self.segments@)
    }
}

impl PathTracker {
    /// The empty path: no element is open.
    pub fn new() -> (tracker: PathTracker)
        ensures
            tracker@ == Seq::<Seq<char>>::empty(),
    {
        let tracker = PathTracker { segments: Vec::new() };
        proof {
            assert(tracker@ =~= Seq::<Seq<char>>::empty());
        }
        tracker
    }

    /// Enters the element `name`.
    pub fn push(&mut self, name: String)
        ensures
            final(self)@ == old(self)@.push(name@),
    {
        self.segments.push(name);
        proof {
            assert(self@ =~= old(self)@.push(name@));
        }
    }

    /// Leaves the innermost element; at the root nothing changes.
    pub fn pop(&mut self)
        ensures
            final(self)@ == if old(self)@.len() > 0 {
                old(self)@.drop_last()
            } else {
                old(self)@
            },
    {
        let _ = self.segments.pop();
        proof {
            if old(self)@.len() > 0 {
                assert(self@ =~= old(self)@.drop_last());
            } else {
                assert(self@ =~= old(self)@);
            }
        }
    }

    /// The number of open elements.
    pub fn depth(&self) -> (depth: usize)
        ensures
            depth == self@.len(),
    {
        self.segments.len()
    }

    /// The path in its slash-joined form.
    pub fn as_string(&self) -> (joined_path: String)
        ensures
            joined_path@ == path_text(self@),
    {
        join_strings(&self.segments, "/")
    }

    /// Whether the path is `segments`, name by name.
    pub fn equals(&self, segments: &Vec<String>) -> (same: bool)
        ensures
            same == (self@ == texts(segments@)),
    {
        if self.segments.len() != segments.len() {
            proof {
                assert(self@.len() != texts(segments@).len());
            }
            return false;
        }
        let mut i: usize = 0;
        while i < segments.len()
            invariant
                i <= segments.len(),
                self.segments.len() == segments.len(),
                forall|j: int| 0 <= j < i ==> self@[j] == texts(segments@)[j],
            decreases segments.len() - i,
        {
            if self.segments[i] != segments[i] {
                proof {
                    assert(self@[i as int] != texts(segments@)[i as int]);
                }
                return false;
            }
            i += 1;
        }
        proof {
            assert(self@ =~= texts(segments@));
        }
        true
    }

    /// Whether the path lies outside the subtree of `target_segments`.
    pub fn is_strict_ancestor_of(&self, target_segments: &Vec<String>) -> (above: bool)
        ensures
            above == is_above(self@, texts(target_segments@)),
    {
        superordinate(&self.segments, target_segments)
    }
}

} // verus!
