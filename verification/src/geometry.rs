//! Axis-aligned boxes in fixed point, and their overlap.

use vstd::prelude::*;

verus! {

/// Largest magnitude of a box coordinate. Decoding cannot exceed it, and
/// below it every area and every product with a threshold fits in 128 bits.
pub const COORD_LIMIT: i64 = 0x2_0000_0000_0000;

/// The fixed-point value that stands for 1.0 in scores and thresholds.
pub const UNIT: u32 = 1_000_000;

/// A box as the integers it holds.
pub struct BoxView {
    pub xmin: int,
    pub ymin: int,
    pub xmax: int,
    pub ymax: int,
}

/// A bounding box, by its two corners.
#[derive(Clone, Copy, Debug, PartialEq, Eq, Structural)]
pub struct BoundingBox {
    pub xmin: i64,
    pub ymin: i64,
    pub xmax: i64,
    pub ymax: i64,
}

impl View for BoundingBox {
    type V = BoxView;

    open spec fn view(&self) -> BoxView {
        BoxView { xmin: self.xmin as int, ymin: self.ymin as int, xmax: self.xmax as int, ymax: self.ymax as int }
    }
}

/// Whether a coordinate lies within the limit.
pub open spec fn coord_in_range(c: int) -> bool {
    -COORD_LIMIT <= c <= COORD_LIMIT
}

/// Length of the interval from `lo` to `hi`, zero where it is empty.
pub open spec fn span(lo: int, hi: int) -> int {
    if hi > lo {
        hi - lo
    } else {
        0
    }
}

/// Length of what two intervals share.
pub open spec fn overlap(lo_a: int, hi_a: int, lo_b: int, hi_b: int) -> int {
    span(if lo_a > lo_b { lo_a } else { lo_b }, if hi_a < hi_b { hi_a } else { hi_b })
}

impl BoxView {
    pub open spec fn in_range(self) -> bool {
        &&& coord_in_range(self.xmin)
        &&& coord_in_range(self.ymin)
        &&& coord_in_range(self.xmax)
        &&& coord_in_range(self.ymax)
    }

    pub open spec fn width(self) -> int {
        span(self.xmin, self.xmax)
    }

    pub open spec fn height(self) -> int {
        span(self.ymin, self.ymax)
    }

    pub open spec fn area(self) -> int {
        self.width() * self.height()
    }

    /// Twice the box's centre, along x. The centre itself may fall between
    /// two integers.
    pub open spec fn center_x2(self) -> int {
        self.xmin + self.xmax
    }

    /// Twice the box's centre, along y.
    pub open spec fn center_y2(self) -> int {
        self.ymin + self.ymax
    }
}

/// Area that two boxes share.
pub open spec fn intersection_area(a: BoxView, b: BoxView) -> int {
    overlap(a.xmin, a.xmax, b.xmin, b.xmax) * overlap(a.ymin, a.ymax, b.ymin, b.ymax)
}

/// Area that two boxes cover together.
pub open spec fn union_area(a: BoxView, b: BoxView) -> int {
    a.area() + b.area() - intersection_area(a, b)
}

/// Whether the intersection over union of two boxes reaches
/// `threshold / UNIT`. Where the boxes cover no area the ratio counts as
/// zero, which reaches a threshold of zero only.
pub open spec fn iou_at_least(a: BoxView, b: BoxView, threshold: int) -> bool {
    if union_area(a, b) == 0 {
        threshold <= 0
    } else {
        intersection_area(a, b) * UNIT >= threshold * union_area(a, b)
    }
}

/// A product of two bounded factors is bounded by the product of the bounds.
proof fn lemma_product_bounds(x: int, y: int, bx: int, by: int)
    requires
        0 <= x <= bx,
        0 <= y <= by,
    ensures
        0 <= x * y <= bx * by,
{
    assert(0 <= x * y) by (nonlinear_arith)
        requires
            0 <= x,
            0 <= y,
    ;
    assert(x * y <= bx * by) by (nonlinear_arith)
        requires
            0 <= x <= bx,
            0 <= y <= by,
    ;
}

/// The shared area is at most either box's area, and none of them is
/// negative.
pub proof fn lemma_intersection_bounds(a: BoxView, b: BoxView)
    ensures
        0 <= intersection_area(a, b) <= a.area(),
        intersection_area(a, b) <= b.area(),
        intersection_area(a, b) <= union_area(a, b),
        a.area() <= union_area(a, b),
        b.area() <= union_area(a, b),
{
    let ox = overlap(a.xmin, a.xmax, b.xmin, b.xmax);
    let oy = overlap(a.ymin, a.ymax, b.ymin, b.ymax);
    lemma_product_bounds(ox, oy, a.width(), a.height());
    lemma_product_bounds(ox, oy, b.width(), b.height());
}

/// Overlap does not depend on the order of the two boxes.
pub proof fn lemma_iou_symmetric(a: BoxView, b: BoxView, threshold: int)
    ensures
        iou_at_least(a, b, threshold) == iou_at_least(b, a, threshold),
{
    assert(overlap(a.xmin, a.xmax, b.xmin, b.xmax) == overlap(b.xmin, b.xmax, a.xmin, a.xmax));
    assert(overlap(a.ymin, a.ymax, b.ymin, b.ymax) == overlap(b.ymin, b.ymax, a.ymin, a.ymax));
    assert(intersection_area(a, b) == intersection_area(b, a));
    assert(union_area(a, b) == union_area(b, a));
}

/// Two boxes that share no area never reach a positive threshold.
pub proof fn lemma_disjoint_boxes_stay_below(a: BoxView, b: BoxView, threshold: int)
    requires
        intersection_area(a, b) == 0,
        threshold > 0,
    ensures
        !iou_at_least(a, b, threshold),
{
    lemma_intersection_bounds(a, b);
    if union_area(a, b) != 0 {
        assert(threshold * union_area(a, b) > 0) by (nonlinear_arith)
            requires
                threshold > 0,
                union_area(a, b) > 0,
        ;
    }
}

impl BoundingBox {
    /// Every coordinate lies within the limit.
    pub open spec fn wf(self) -> bool {
        self@.in_range()
    }

    /// The box with the given corners, where all four lie within the limit.
    pub fn new(xmin: i64, ymin: i64, xmax: i64, ymax: i64) -> (made: Option<BoundingBox>)
        ensures
            made.is_some() <==> (BoxView { xmin: xmin as int, ymin: ymin as int, xmax: xmax as int, ymax: ymax as int }).in_range(),
            made.is_some() ==> made.unwrap() == (BoundingBox { xmin, ymin, xmax, ymax }),
            made.is_some() ==> made.unwrap().wf(),
    {
        if -COORD_LIMIT <= xmin && xmin <= COORD_LIMIT && -COORD_LIMIT <= ymin && ymin <= COORD_LIMIT
            && -COORD_LIMIT <= xmax && xmax <= COORD_LIMIT && -COORD_LIMIT <= ymax && ymax <= COORD_LIMIT {
            Some(BoundingBox { xmin, ymin, xmax, ymax })
        } else {
            None
        }
    }

    /// Width of the box, zero where the corners are out of order.
    pub fn width(&self) -> (w: i64)
        requires
            self.wf(),
        ensures
            w == self@.width(),
    {
        if self.xmax > self.xmin {
            self.xmax - self.xmin
        } else {
            0
        }
    }

    /// Height of the box, zero where the corners are out of order.
    pub fn height(&self) -> (h: i64)
        requires
            self.wf(),
        ensures
            h == self@.height(),
    {
        if self.ymax > self.ymin {
            self.ymax - self.ymin
        } else {
            0
        }
    }

    /// Area of the box.
    pub fn area(&self) -> (a: i128)
        requires
            self.wf(),
        ensures
            a == self@.area(),
            0 <= a <= 4 * COORD_LIMIT * COORD_LIMIT,
    {
        let w: i128 = self.width() as i128;
        let h: i128 = self.height() as i128;
        proof {
            lemma_product_bounds(w as int, h as int, 2 * COORD_LIMIT, 2 * COORD_LIMIT);
        }
        w * h
    }

    /// Area shared with `other`.
    pub fn intersection_area(&self, other: &BoundingBox) -> (a: i128)
        requires
            self.wf(),
            other.wf(),
        ensures
            a == intersection_area(self@, other@),
            0 <= a <= 4 * COORD_LIMIT * COORD_LIMIT,
    {
        let ox: i128 = overlap_len(self.xmin, self.xmax, other.xmin, other.xmax) as i128;
        let oy: i128 = overlap_len(self.ymin, self.ymax, other.ymin, other.ymax) as i128;
        proof {
            lemma_product_bounds(ox as int, oy as int, 2 * COORD_LIMIT, 2 * COORD_LIMIT);
        }
        ox * oy
    }

    /// Whether the intersection over union with `other` reaches
    /// `threshold / UNIT`.
    pub fn iou_at_least(&self, other: &BoundingBox, threshold: u32) -> (reached: bool)
        requires
            self.wf(),
            other.wf(),
        ensures
            reached == iou_at_least(self@, other@, threshold as int),
    {
        let inter: i128 = self.intersection_area(other);
        let total: i128 = self.area() + other.area() - inter;
        proof {
            lemma_intersection_bounds(self@, other@);
        }
        if total == 0 {
            threshold == 0
        } else if threshold > UNIT {
            proof {
                let t = threshold as int;
                let u = total as int;
                let i = inter as int;
                assert(i * UNIT < t * u) by (nonlinear_arith)
                    requires
                        0 <= i <= u,
                        0 < u,
                        t > UNIT,
                        UNIT > 0,
                ;
            }
            false
        } else {
            proof {
                lemma_product_bounds(inter as int, UNIT as int, 4 * COORD_LIMIT * COORD_LIMIT, UNIT as int);
                lemma_product_bounds(threshold as int, total as int, UNIT as int, 8 * COORD_LIMIT * COORD_LIMIT);
            }
            inter * (UNIT as i128) >= (threshold as i128) * total
        }
    }
}

/// Length of what the intervals `lo_a..hi_a` and `lo_b..hi_b` share.
pub fn overlap_len(lo_a: i64, hi_a: i64, lo_b: i64, hi_b: i64) -> (len: i64)
    requires
        coord_in_range(lo_a as int),
        coord_in_range(hi_a as int),
        coord_in_range(lo_b as int),
        coord_in_range(hi_b as int),
    ensures
        len == overlap(lo_a as int, hi_a as int, lo_b as int, hi_b as int),
        0 <= len <= 2 * COORD_LIMIT,
{
    let lo: i64 = if lo_a > lo_b { lo_a } else { lo_b };
    let hi: i64 = if hi_a < hi_b { hi_a } else { hi_b };
    if hi > lo {
        hi - lo
    } else {
        0
    }
}

} // verus!
