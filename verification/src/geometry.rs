//! Rectangles on screen and whether two of them overlap.
use vstd::prelude::*;

verus! {

/// A screen rectangle in pixels, edges as reported by the window manager.
#[derive(Clone, Copy, Debug, PartialEq, Eq, Structural)]
pub struct Rect {
    pub left: i32,
    pub top: i32,
    pub right: i32,
    pub bottom: i32,
}

impl Rect {
    pub open spec fn is_zeroed(self) -> bool {
        self.left == 0 && self.top == 0 && self.right == 0 && self.bottom == 0
    }
}

/// Two rectangles overlap when neither is the all-zero rectangle and their
/// interiors intersect; touching edges do not count.
pub open spec fn spec_overlaps(a: Rect, b: Rect) -> bool {
    &&& !a.is_zeroed()
    &&& !b.is_zeroed()
    &&& a.left < b.right
    &&& b.left < a.right
    &&& a.top < b.bottom
    &&& b.top < a.bottom
}

pub fn are_overlaped(a: &Rect, b: &Rect) -> (res: bool)
    ensures
        res == spec_overlaps(*a, *b),
{
    let zeroed = Rect { left: 0, top: 0, right: 0, bottom: 0 };
    if *a == zeroed || *b == zeroed {
        return false;
    }
    if a.right <= b.left || a.left >= b.right || a.bottom <= b.top || a.top >= b.bottom {
        return false;
    }
    true
}

/// Overlap does not depend on the order of the two rectangles.
pub proof fn lemma_overlap_symmetric(a: Rect, b: Rect)
    ensures
        spec_overlaps(a, b) == spec_overlaps(b, a),
{
}

/// A rectangle with a positive area overlaps itself.
pub proof fn lemma_overlap_reflexive(a: Rect)
    requires
        a.left < a.right,
        a.top < a.bottom,
    ensures
        spec_overlaps(a, a),
{
}

} // verus!
