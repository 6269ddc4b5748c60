//! An axis-aligned bounding box over signed 32-bit database units.
//!
//! A box is valid once `xmin <= xmax` and `ymin <= ymax`.  A box whose x and
//! y ranges are both inverted counts as empty: merging the first point into
//! it replaces it.  Merging is a union: a valid box never shrinks.

use vstd::prelude::*;

verus! {

#[derive(Clone, Copy, Debug, PartialEq, Eq, Structural)]
pub struct BBox {
    pub xmin: i32,
    pub ymin: i32,
    pub xmax: i32,
    pub ymax: i32,
}

/// Does the invariant `xmin <= xmax && ymin <= ymax` hold?
pub open spec fn bbox_valid(b: BBox) -> bool {
    b.xmin <= b.xmax && b.ymin <= b.ymax
}

/// Is `b` empty, in the sense that merging a point replaces it outright?
pub open spec fn bbox_empty(b: BBox) -> bool {
    b.xmin > b.xmax && b.ymin > b.ymax
}

/// Does `b` contain the point `(x, y)`?
pub open spec fn bbox_contains_pt(b: BBox, x: i32, y: i32) -> bool {
    b.xmin <= x <= b.xmax && b.ymin <= y <= b.ymax
}

/// Does `outer` contain every point of `inner`?
pub open spec fn bbox_contains_bbox(outer: BBox, inner: BBox) -> bool {
    outer.xmin <= inner.xmin && outer.ymin <= inner.ymin && outer.xmax >= inner.xmax
        && outer.ymax >= inner.ymax
}

/// The box after merging the point `(x, y)` into `b`.
pub open spec fn bbox_include_pt(b: BBox, x: i32, y: i32) -> BBox {
    if bbox_empty(b) {
        BBox { xmin: x, ymin: y, xmax: x, ymax: y }
    } else {
        BBox {
            xmin: if b.xmin <= x { b.xmin } else { x },
            ymin: if b.ymin <= y { b.ymin } else { y },
            xmax: if b.xmax >= x { b.xmax } else { x },
            ymax: if b.ymax >= y { b.ymax } else { y },
        }
    }
}

/// The box after merging the corners of `o` into `b`.
pub open spec fn bbox_include_bbox(b: BBox, o: BBox) -> BBox {
    bbox_include_pt(bbox_include_pt(b, o.xmin, o.ymin), o.xmax, o.ymax)
}

/// Union is monotonic: merging any further box into a valid box never
/// shrinks it, and the result stays valid.
pub proof fn lemma_include_bbox_monotonic(b: BBox, o: BBox)
    requires
        bbox_valid(b),
    ensures
        bbox_valid(bbox_include_bbox(b, o)),
        bbox_contains_bbox(bbox_include_bbox(b, o), b),
        bbox_contains_bbox(bbox_include_bbox(b, o), o),
{
}

impl BBox {
    /// Merge one point into the box.  Merging into a valid box only ever
    /// grows it, and the result always contains the point.
    pub fn include_pt(&mut self, x: i32, y: i32)
        ensures
            *final(self) == bbox_include_pt(*old(self), x, y),
            bbox_contains_pt(*final(self), x, y),
            bbox_valid(*final(self)),
            bbox_valid(*old(self)) ==> bbox_contains_bbox(*final(self), *old(self)),
    {
        if self.xmin > self.xmax && self.ymin > self.ymax {
            self.xmin = x;
            self.xmax = x;
            self.ymin = y;
            self.ymax = y;
        } else {
            if x < self.xmin {
                self.xmin = x;
            }
            if x > self.xmax {
                self.xmax = x;
            }
            if y < self.ymin {
                self.ymin = y;
            }
            if y > self.ymax {
                self.ymax = y;
            }
        }
    }

    /// Merge another box's corners into this one.  Merging into a valid box
    /// is monotonic: the box never shrinks, and a valid operand ends up
    /// contained in the result.
    pub fn include_bbox(&mut self, o: &BBox)
        ensures
            *final(self) == bbox_include_bbox(*old(self), *o),
            bbox_valid(*old(self)) ==> bbox_contains_bbox(*final(self), *old(self)),
            bbox_valid(*final(self)),
            bbox_contains_bbox(*final(self), *o),
    {
        self.include_pt(o.xmin, o.ymin);
        self.include_pt(o.xmax, o.ymax);
    }

    /// Does the box invariant hold?
    pub fn is_valid(&self) -> (r: bool)
        ensures
            r == bbox_valid(*self),
    {
        self.xmin <= self.xmax && self.ymin <= self.ymax
    }
}

} // verus!
