//! Box geometry: areas, intersection over union, and the overlap test
//! used by non-maximum suppression.
//!
//! IoU is reported in micros (1_000_000 is full overlap) and computed
//! exactly over integers; the overlap-threshold test compares the exact
//! rational IoU against the threshold without rounding.

use vstd::prelude::*;
use crate::api::Prediction;

verus! {

/// A box is well formed when its corners are ordered.
pub open spec fn spec_wf_box(p: &Prediction) -> bool {
    p.x_min <= p.x_max && p.y_min <= p.y_max
}

/// Area of a box in square pixels.
pub open spec fn spec_area(p: &Prediction) -> int {
    (p.x_max - p.x_min) * (p.y_max - p.y_min)
}

/// Area of the intersection of two boxes.
pub open spec fn spec_inter_area(a: &Prediction, b: &Prediction) -> int {
    let xl = if a.x_min >= b.x_min {
        a.x_min as int
    } else {
        b.x_min as int
    };
    let xr = if a.x_max <= b.x_max {
        a.x_max as int
    } else {
        b.x_max as int
    };
    let yl = if a.y_min >= b.y_min {
        a.y_min as int
    } else {
        b.y_min as int
    };
    let yr = if a.y_max <= b.y_max {
        a.y_max as int
    } else {
        b.y_max as int
    };
    let dx = if xr >= xl {
        xr - xl
    } else {
        0
    };
    let dy = if yr >= yl {
        yr - yl
    } else {
        0
    };
    dx * dy
}

/// Area of the union of two boxes.
pub open spec fn spec_union_area(a: &Prediction, b: &Prediction) -> int {
    spec_area(a) + spec_area(b) - spec_inter_area(a, b)
}

/// Intersection over union in micros, zero when the union has no area.
pub open spec fn spec_iou_micros(a: &Prediction, b: &Prediction) -> int {
    if spec_union_area(a, b) == 0 {
        0
    } else {
        spec_inter_area(a, b) * 1_000_000 / spec_union_area(a, b)
    }
}

/// The exact test `iou(a, b) >= thr_micros / 1_000_000`, false when the
/// union has no area.
pub open spec fn spec_iou_at_least(a: &Prediction, b: &Prediction, thr_micros: int) -> bool {
    spec_union_area(a, b) != 0 && spec_inter_area(a, b) * 1_000_000 >= thr_micros * spec_union_area(
        a,
        b,
    )
}

/// The intersection fits under both areas, and all areas fit under the
/// largest square of `u32` coordinates.
proof fn lemma_inter_le_areas(a: &Prediction, b: &Prediction)
    requires
        spec_wf_box(a),
        spec_wf_box(b),
    ensures
        0 <= spec_inter_area(a, b),
        spec_inter_area(a, b) <= spec_area(a),
        spec_inter_area(a, b) <= spec_area(b),
        spec_area(a) <= 0xFFFF_FFFE_0000_0001,
        spec_area(b) <= 0xFFFF_FFFE_0000_0001,
{
    assert(spec_area(a) <= 0xFFFF_FFFE_0000_0001 && spec_area(b) <= 0xFFFF_FFFE_0000_0001) by (
    nonlinear_arith)
        requires
            0 <= a.x_max - a.x_min <= 0xFFFF_FFFF,
            0 <= a.y_max - a.y_min <= 0xFFFF_FFFF,
            0 <= b.x_max - b.x_min <= 0xFFFF_FFFF,
            0 <= b.y_max - b.y_min <= 0xFFFF_FFFF,
            spec_area(a) == (a.x_max - a.x_min) * (a.y_max - a.y_min),
            spec_area(b) == (b.x_max - b.x_min) * (b.y_max - b.y_min),
    ;
    let xl = if a.x_min >= b.x_min {
        a.x_min as int
    } else {
        b.x_min as int
    };
    let xr = if a.x_max <= b.x_max {
        a.x_max as int
    } else {
        b.x_max as int
    };
    let yl = if a.y_min >= b.y_min {
        a.y_min as int
    } else {
        b.y_min as int
    };
    let yr = if a.y_max <= b.y_max {
        a.y_max as int
    } else {
        b.y_max as int
    };
    let dx = if xr >= xl {
        xr - xl
    } else {
        0
    };
    let dy = if yr >= yl {
        yr - yl
    } else {
        0
    };
    assert(dx <= a.x_max - a.x_min && dx <= b.x_max - b.x_min);
    assert(dy <= a.y_max - a.y_min && dy <= b.y_max - b.y_min);
    assert(dx * dy <= (a.x_max - a.x_min) * (a.y_max - a.y_min)) by (nonlinear_arith)
        requires
            0 <= dx <= a.x_max - a.x_min,
            0 <= dy <= a.y_max - a.y_min,
    ;
    assert(dx * dy <= (b.x_max - b.x_min) * (b.y_max - b.y_min)) by (nonlinear_arith)
        requires
            0 <= dx <= b.x_max - b.x_min,
            0 <= dy <= b.y_max - b.y_min,
    ;
    assert(dx * dy >= 0) by (nonlinear_arith)
        requires
            0 <= dx,
            0 <= dy,
    ;
}

/// IoU does not depend on the order of its arguments, and is zero when
/// the union has no area.
pub proof fn lemma_iou_symmetric(a: &Prediction, b: &Prediction)
    ensures
        spec_iou_micros(a, b) == spec_iou_micros(b, a),
        spec_union_area(a, b) == 0 ==> spec_iou_micros(a, b) == 0,
{
    assert(spec_inter_area(a, b) == spec_inter_area(b, a));
    assert(spec_union_area(a, b) == spec_union_area(b, a));
}

/// Exact intersection-over-union of two boxes, in micros.
pub fn calculate_iou(a: &Prediction, b: &Prediction) -> (r: u64)
    requires
        spec_wf_box(a),
        spec_wf_box(b),
    ensures
        r == spec_iou_micros(a, b),
        r <= 1_000_000,
{
    let xl: u64 = if a.x_min >= b.x_min {
        a.x_min as u64
    } else {
        b.x_min as u64
    };
    let xr: u64 = if a.x_max <= b.x_max {
        a.x_max as u64
    } else {
        b.x_max as u64
    };
    let yl: u64 = if a.y_min >= b.y_min {
        a.y_min as u64
    } else {
        b.y_min as u64
    };
    let yr: u64 = if a.y_max <= b.y_max {
        a.y_max as u64
    } else {
        b.y_max as u64
    };
    let dx: u64 = if xr >= xl {
        xr - xl
    } else {
        0
    };
    let dy: u64 = if yr >= yl {
        yr - yl
    } else {
        0
    };
    proof {
        lemma_inter_le_areas(a, b);
    }
    let inter: u128 = (dx as u128) * (dy as u128);
    let area_a: u128 = ((a.x_max - a.x_min) as u128) * ((a.y_max - a.y_min) as u128);
    let area_b: u128 = ((b.x_max - b.x_min) as u128) * ((b.y_max - b.y_min) as u128);
    assert(area_a == spec_area(a) && area_b == spec_area(b)) by (nonlinear_arith)
        requires
            area_a == ((a.x_max - a.x_min) as u128) * ((a.y_max - a.y_min) as u128),
            area_b == ((b.x_max - b.x_min) as u128) * ((b.y_max - b.y_min) as u128),
            a.x_min <= a.x_max,
            a.y_min <= a.y_max,
            b.x_min <= b.x_max,
            b.y_min <= b.y_max,
            a.x_max <= u32::MAX,
            a.y_max <= u32::MAX,
            b.x_max <= u32::MAX,
            b.y_max <= u32::MAX,
    ;
    let union_area: u128 = area_a + area_b - inter;
    if union_area == 0 {
        0
    } else {
        assert((inter as int) * 1_000_000 / (union_area as int) <= 1_000_000) by (nonlinear_arith)
            requires
                0 < union_area as int,
                0 <= inter as int <= union_area as int,
        ;
        let q: u128 = inter * 1_000_000 / union_area;
        q as u64
    }
}

/// Whether the exact IoU of two boxes reaches `thr_micros`.
pub fn iou_at_least(a: &Prediction, b: &Prediction, thr_micros: u64) -> (r: bool)
    requires
        spec_wf_box(a),
        spec_wf_box(b),
        thr_micros <= 1_000_000,
    ensures
        r == spec_iou_at_least(a, b, thr_micros as int),
{
    let xl: u64 = if a.x_min >= b.x_min {
        a.x_min as u64
    } else {
        b.x_min as u64
    };
    let xr: u64 = if a.x_max <= b.x_max {
        a.x_max as u64
    } else {
        b.x_max as u64
    };
    let yl: u64 = if a.y_min >= b.y_min {
        a.y_min as u64
    } else {
        b.y_min as u64
    };
    let yr: u64 = if a.y_max <= b.y_max {
        a.y_max as u64
    } else {
        b.y_max as u64
    };
    let dx: u64 = if xr >= xl {
        xr - xl
    } else {
        0
    };
    let dy: u64 = if yr >= yl {
        yr - yl
    } else {
        0
    };
    proof {
        lemma_inter_le_areas(a, b);
    }
    let inter: u128 = (dx as u128) * (dy as u128);
    let area_a: u128 = ((a.x_max - a.x_min) as u128) * ((a.y_max - a.y_min) as u128);
    let area_b: u128 = ((b.x_max - b.x_min) as u128) * ((b.y_max - b.y_min) as u128);
    assert(area_a == spec_area(a) && area_b == spec_area(b)) by (nonlinear_arith)
        requires
            area_a == ((a.x_max - a.x_min) as u128) * ((a.y_max - a.y_min) as u128),
            area_b == ((b.x_max - b.x_min) as u128) * ((b.y_max - b.y_min) as u128),
            a.x_min <= a.x_max,
            a.y_min <= a.y_max,
            b.x_min <= b.x_max,
            b.y_min <= b.y_max,
            a.x_max <= u32::MAX,
            a.y_max <= u32::MAX,
            b.x_max <= u32::MAX,
            b.y_max <= u32::MAX,
    ;
    let union_area: u128 = area_a + area_b - inter;
    if union_area == 0 {
        return false;
    }
    assert((thr_micros as int) * (union_area as int) <= 1_000_000 * 2 * 0xFFFF_FFFE_0000_0001) by (
    nonlinear_arith)
        requires
            0 <= thr_micros <= 1_000_000,
            0 <= union_area as int <= 2 * 0xFFFF_FFFE_0000_0001,
    ;
    inter * 1_000_000 >= (thr_micros as u128) * union_area
}

/// The threshold test agrees with the rounded IoU: reaching `thr_micros`
/// exactly is the same as the micros value reaching it.
pub proof fn lemma_iou_at_least_micros(a: &Prediction, b: &Prediction, thr_micros: int)
    requires
        spec_wf_box(a),
        spec_wf_box(b),
        0 <= thr_micros,
    ensures
        spec_iou_at_least(a, b, thr_micros) <==> (spec_union_area(a, b) != 0 && spec_iou_micros(
            a,
            b,
        ) >= thr_micros),
{
    lemma_inter_le_areas(a, b);
    let inter = spec_inter_area(a, b);
    let union_area = spec_union_area(a, b);
    if union_area != 0 {
        assert(union_area > 0);
        assert(inter * 1_000_000 >= thr_micros * union_area <==> inter * 1_000_000 / union_area
            >= thr_micros) by (nonlinear_arith)
            requires
                union_area > 0,
                inter >= 0,
                thr_micros >= 0,
        ;
    }
}

} // verus!
