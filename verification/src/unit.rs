//! A unit: its frame templates and the bounds of what has been drawn of it.

use vstd::prelude::*;
use crate::cgg::FrameParts;
use crate::imageops::{Point, Rect};

verus! {

/// The frame templates of a unit, indexed from zero.
pub type Frames = Vec<FrameParts>;

/// A unit under assembly. `top_left` and `bottom_right` are the corners of
/// the smallest box around every frame composed so far for the animation
/// at hand; both are absent until a frame with visible content is merged.
#[derive(Debug, Default, Clone)]
pub struct Unit {
    pub id: u32,
    pub frames: Frames,
    pub top_left: Option<Point>,
    pub bottom_right: Option<Point>,
    pub width: Option<u32>,
    pub height: Option<u32>,
    pub x_offset: Option<i32>,
    pub y_offset: Option<i32>,
}

impl Rect {
    /// Whether the far corner of the rectangle is a canvas position that a
    /// `Point` can hold.
    pub open spec fn in_reach(self) -> bool {
        self.x + self.width <= i32::MAX && self.y + self.height <= i32::MAX
    }
}

/// The smaller of two coordinates.
pub open spec fn lower(a: i32, b: i32) -> i32 {
    if a <= b {
        a
    } else {
        b
    }
}

/// The larger of two coordinates.
pub open spec fn upper(a: i32, b: i32) -> i32 {
    if a >= b {
        a
    } else {
        b
    }
}

impl Unit {
    /// The unit with `rect` merged into its bounds: the first rectangle
    /// sets them, every later one can only widen them.
    pub open spec fn merged(self, rect: Rect) -> Unit {
        let left = rect.x as i32;
        let top = rect.y as i32;
        let right = (rect.x + rect.width) as i32;
        let bottom = (rect.y + rect.height) as i32;
        match (self.top_left, self.bottom_right) {
            (Some(tl), Some(br)) => Unit {
                top_left: Some(Point(lower(tl.0, left), lower(tl.1, top))),
                bottom_right: Some(Point(upper(br.0, right), upper(br.1, bottom))),
                ..self
            },
            _ => Unit {
                top_left: Some(Point(left, top)),
                bottom_right: Some(Point(right, bottom)),
                ..self
            },
        }
    }

    /// The unit with every rectangle of `rects` merged in, first to last.
    pub open spec fn merged_all(self, rects: Seq<Rect>) -> Unit
        decreases rects.len(),
    {
        if rects.len() == 0 {
            self
        } else {
            self.merged_all(rects.drop_last()).merged(rects.last())
        }
    }

    /// Whether the bounds, where both corners are present, span a box in
    /// the non-negative quarter of canvas space.
    pub open spec fn bounds_ordered(self) -> bool {
        match (self.top_left, self.bottom_right) {
            (Some(tl), Some(br)) => 0 <= tl.0 <= br.0 && 0 <= tl.1 <= br.1,
            _ => true,
        }
    }
}

/// Merges `rect` into the bounds of `unit`.
pub fn merge_bounding_box(unit: &mut Unit, rect: &Rect)
    requires
        rect.in_reach(),
    ensures
        *final(unit) == old(unit).merged(*rect),
{
    let left = rect.x as i32;
    let top = rect.y as i32;
    let right = (rect.x + rect.width) as i32;
    let bottom = (rect.y + rect.height) as i32;
    match (unit.top_left, unit.bottom_right) {
        (Some(tl), Some(br)) => {
            let x0 = if tl.x() <= left {
                tl.x()
            } else {
                left
            };
            let y0 = if tl.y() <= top {
                tl.y()
            } else {
                top
            };
            let x1 = if br.x() >= right {
                br.x()
            } else {
                right
            };
            let y1 = if br.y() >= bottom {
                br.y()
            } else {
                bottom
            };
            unit.top_left = Some(Point::new(x0, y0));
            unit.bottom_right = Some(Point::new(x1, y1));
        },
        _ => {
            unit.top_left = Some(Point::new(left, top));
            unit.bottom_right = Some(Point::new(right, bottom));
        },
    }
}

/// Merging two rectangles gives the same bounds in either order.
pub proof fn lemma_merge_commutes(unit: Unit, a: Rect, b: Rect)
    ensures
        unit.merged(a).merged(b) == unit.merged(b).merged(a),
{
}

/// Merging never narrows the bounds: whatever box they spanned before is
/// still inside them, and so is the rectangle merged in.
pub proof fn lemma_merge_widens(unit: Unit, rect: Rect)
    requires
        rect.in_reach(),
    ensures
        unit.merged(rect).top_left is Some,
        unit.merged(rect).bottom_right is Some,
        ({
            let tl = unit.merged(rect).top_left.unwrap();
            let br = unit.merged(rect).bottom_right.unwrap();
            &&& tl.0 <= rect.x
            &&& tl.1 <= rect.y
            &&& rect.x + rect.width <= br.0
            &&& rect.y + rect.height <= br.1
            &&& (unit.top_left is Some && unit.bottom_right is Some ==> {
                &&& tl.0 <= unit.top_left.unwrap().0
                &&& tl.1 <= unit.top_left.unwrap().1
                &&& unit.bottom_right.unwrap().0 <= br.0
                &&& unit.bottom_right.unwrap().1 <= br.1
            })
        }),
{
}

/// Merging a run of rectangles and then another run is merging the two
/// runs joined.
pub proof fn lemma_merge_joined(unit: Unit, first: Seq<Rect>, second: Seq<Rect>)
    ensures
        unit.merged_all(first).merged_all(second) == unit.merged_all(first + second),
    decreases second.len(),
{
    if second.len() == 0 {
        assert(first + second =~= first);
    } else {
        lemma_merge_joined(unit, first, second.drop_last());
        assert((first + second).drop_last() =~= first + second.drop_last());
        assert((first + second).last() == second.last());
    }
}

/// Taking one rectangle out of a run and merging it last changes nothing.
proof fn lemma_merge_moved_last(unit: Unit, rects: Seq<Rect>, j: int)
    requires
        0 <= j < rects.len(),
    ensures
        unit.merged_all(rects) == unit.merged_all(rects.remove(j)).merged(rects[j]),
    decreases rects.len(),
{
    if j == rects.len() - 1 {
        assert(rects.remove(j) =~= rects.drop_last());
    } else {
        let front = rects.drop_last();
        lemma_merge_moved_last(unit, front, j);
        let core = unit.merged_all(front.remove(j));
        lemma_merge_commutes(core, rects[j], rects.last());
        assert(rects.remove(j).drop_last() =~= front.remove(j));
        assert(rects.remove(j).last() == rects.last());
    }
}

/// The bounds do not depend on the order in which the rectangles are
/// merged: two runs that hold the same rectangles, each as often as the
/// other, give the same unit.
pub proof fn lemma_merge_any_order(unit: Unit, a: Seq<Rect>, b: Seq<Rect>)
    requires
        a.to_multiset() == b.to_multiset(),
    ensures
        unit.merged_all(a) == unit.merged_all(b),
    decreases a.len(),
{
    broadcast use vstd::seq_lib::group_to_multiset_ensures;

    a.to_multiset_ensures();
    b.to_multiset_ensures();
    if a.len() == 0 {
        assert(b.len() == 0);
    } else {
        let last = a.last();
        assert(a.to_multiset().count(last) > 0) by {
            assert(a.contains(last));
        }
        assert(b.contains(last));
        let j = choose|j: int| 0 <= j < b.len() && b[j] == last;
        vstd::seq_lib::to_multiset_remove(b, j);
        vstd::seq_lib::to_multiset_remove(a, a.len() - 1);
        assert(a.remove(a.len() - 1) =~= a.drop_last());
        lemma_merge_any_order(unit, a.drop_last(), b.remove(j));
        lemma_merge_moved_last(unit, b, j);
    }
}

} // verus!
