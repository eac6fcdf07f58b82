//! Points, rectangles and the stroke-to-fill outline builder.
//!
//! A pen-down movement turns into a closed quadrilateral: the segment offset
//! symmetrically perpendicular to its direction by half the effective stroke
//! width, where the effective width is never thinner than a hairline.

use vstd::prelude::*;
use crate::fx::{COORD_LIMIT, lemma_div_bounds};

verus! {

/// Width of the thinnest stroke ever emitted (0.0333 world units): a
/// requested width below this is widened so geometry stays visible.
pub const HAIRLINE_STROKE_WIDTH: i64 = 333;

/// A point in fixed-point world coordinates.
#[derive(Clone, Copy, PartialEq, Eq, Structural, Debug)]
pub struct PointFx {
    pub x: i64,
    pub y: i64,
}

/// An axis-aligned rectangle in fixed-point world coordinates, kept as the
/// two corner coordinate pairs.
#[derive(Clone, Copy, PartialEq, Eq, Structural, Debug)]
pub struct RectFx {
    pub min_x: i64,
    pub min_y: i64,
    pub max_x: i64,
    pub max_y: i64,
}

pub open spec fn min64(a: i64, b: i64) -> i64 {
    if a < b {
        a
    } else {
        b
    }
}

pub open spec fn max64(a: i64, b: i64) -> i64 {
    if a > b {
        a
    } else {
        b
    }
}

/// The degenerate rectangle every scene and turtle state starts from.
pub open spec fn zero_rect() -> RectFx {
    RectFx { min_x: 0, min_y: 0, max_x: 0, max_y: 0 }
}

/// The union of a rectangle and a single point.
pub open spec fn union_point_spec(r: RectFx, p: PointFx) -> RectFx {
    RectFx {
        min_x: min64(r.min_x, p.x),
        min_y: min64(r.min_y, p.y),
        max_x: max64(r.max_x, p.x),
        max_y: max64(r.max_y, p.y),
    }
}

/// The union of two rectangles.
pub open spec fn union_rect_spec(a: RectFx, b: RectFx) -> RectFx {
    RectFx {
        min_x: min64(a.min_x, b.min_x),
        min_y: min64(a.min_y, b.min_y),
        max_x: max64(a.max_x, b.max_x),
        max_y: max64(a.max_y, b.max_y),
    }
}

/// `outer` covers `inner`.
pub open spec fn rect_contains(outer: RectFx, inner: RectFx) -> bool {
    outer.min_x <= inner.min_x && outer.min_y <= inner.min_y && outer.max_x >= inner.max_x
        && outer.max_y >= inner.max_y
}

/// The bounding rectangle of a point sequence folded onto `init`.
pub open spec fn points_bounds(init: RectFx, pts: Seq<PointFx>) -> RectFx
    decreases pts.len(),
{
    if pts.len() == 0 {
        init
    } else {
        union_point_spec(points_bounds(init, pts.drop_last()), pts.last())
    }
}

impl RectFx {
    /// The degenerate zero-size rectangle.
    pub fn zero() -> (r: RectFx)
        ensures
            r == zero_rect(),
    {
        RectFx { min_x: 0, min_y: 0, max_x: 0, max_y: 0 }
    }

    /// Extend this rectangle to cover a point.
    pub fn union_point(&self, p: PointFx) -> (r: RectFx)
        ensures
            r == union_point_spec(*self, p),
    {
        RectFx {
            min_x: if p.x < self.min_x {
                p.x
            } else {
                self.min_x
            },
            min_y: if p.y < self.min_y {
                p.y
            } else {
                self.min_y
            },
            max_x: if p.x > self.max_x {
                p.x
            } else {
                self.max_x
            },
            max_y: if p.y > self.max_y {
                p.y
            } else {
                self.max_y
            },
        }
    }

    /// Extend this rectangle to cover another.
    pub fn union_rect(&self, o: &RectFx) -> (r: RectFx)
        ensures
            r == union_rect_spec(*self, *o),
    {
        RectFx {
            min_x: if o.min_x < self.min_x {
                o.min_x
            } else {
                self.min_x
            },
            min_y: if o.min_y < self.min_y {
                o.min_y
            } else {
                self.min_y
            },
            max_x: if o.max_x > self.max_x {
                o.max_x
            } else {
                self.max_x
            },
            max_y: if o.max_y > self.max_y {
                o.max_y
            } else {
                self.max_y
            },
        }
    }
}

pub proof fn lemma_rect_contains_trans(a: RectFx, b: RectFx, c: RectFx)
    requires
        rect_contains(a, b),
        rect_contains(b, c),
    ensures
        rect_contains(a, c),
{
}

/// Folding points onto a rectangle only grows it.
pub proof fn lemma_points_bounds_grows(init: RectFx, pts: Seq<PointFx>)
    ensures
        rect_contains(points_bounds(init, pts), init),
    decreases pts.len(),
{
    if pts.len() > 0 {
        lemma_points_bounds_grows(init, pts.drop_last());
    }
}

/// The floor of the square root of a nonnegative integer.
pub open spec fn sqrt_floor(n: int) -> int {
    choose|r: int| 0 <= r && #[trigger] (r * r) <= n && ((r + 1) * (r + 1)) > n
}

/// Any value meeting the square-root bracketing is the unique floor root.
pub proof fn lemma_sqrt_floor_unique(n: int, r: int)
    requires
        0 <= r,
        r * r <= n,
        ((r + 1) * (r + 1)) > n,
    ensures
        sqrt_floor(n) == r,
{
    let w = choose|w: int| 0 <= w && #[trigger] (w * w) <= n && ((w + 1) * (w + 1)) > n;
    assert(0 <= r && r * r <= n && ((r + 1) * (r + 1)) > n);
    assert(exists|w: int| 0 <= w && #[trigger] (w * w) <= n && ((w + 1) * (w + 1)) > n);
    assert(w == r) by (nonlinear_arith)
        requires
            0 <= r,
            r * r <= n,
            ((r + 1) * (r + 1)) > n,
            0 <= w,
            w * w <= n,
            ((w + 1) * (w + 1)) > n,
    ;
}

/// Half the effective stroke width for a requested width: the requested
/// width is first widened to at least a hairline.
pub open spec fn half_stroke(w: i64) -> int {
    (max64(w, HAIRLINE_STROKE_WIDTH) as int) / 2
}

/// One perpendicular-offset component: `d * h / len`, truncated toward
/// zero.
pub open spec fn off_div(d: int, h: int, len: int) -> int {
    if d >= 0 {
        (d * h) / len
    } else {
        -(((-d) * h) / len)
    }
}

/// The integer length of the segment from `a` to `b`.
pub open spec fn seg_len(a: PointFx, b: PointFx) -> int {
    sqrt_floor(
        (b.x - a.x) * (b.x - a.x) + (b.y - a.y) * (b.y - a.y),
    )
}

/// The perpendicular offset `(-dy, dx) * h / len` applied to a stroked
/// segment; zero for a degenerate segment.
pub open spec fn stroke_offset(a: PointFx, b: PointFx, w: i64) -> (int, int) {
    let dx = b.x - a.x;
    let dy = b.y - a.y;
    let len = seg_len(a, b);
    if len == 0 {
        (0, 0)
    } else {
        (-off_div(dy, half_stroke(w), len), off_div(dx, half_stroke(w), len))
    }
}

/// The closed quadrilateral outline of a stroked segment: both endpoints
/// shifted by the perpendicular offset on one side, then on the other.
pub open spec fn stroke_quad_spec(a: PointFx, b: PointFx, w: i64) -> Seq<PointFx> {
    let (ox, oy) = stroke_offset(a, b, w);
    seq![
        PointFx { x: (a.x + ox) as i64, y: (a.y + oy) as i64 },
        PointFx { x: (b.x + ox) as i64, y: (b.y + oy) as i64 },
        PointFx { x: (b.x - ox) as i64, y: (b.y - oy) as i64 },
        PointFx { x: (a.x - ox) as i64, y: (a.y - oy) as i64 },
    ]
}

/// One perpendicular-offset component, computed on magnitudes.
fn off_div_exec(d: i64, h: i64, len: u64) -> (r: i64)
    requires
        len > 0,
        0 <= h <= COORD_LIMIT,
        -(COORD_LIMIT as int) * 2 <= d as int <= (COORD_LIMIT as int) * 2,
        (if d >= 0 { d as int } else { -(d as int) }) <= len as int,
    ensures
        r as int == off_div(d as int, h as int, len as int),
        -h <= r <= h,
{
    let dm: u64 = if d < 0 {
        (-d) as u64
    } else {
        d as u64
    };
    proof {
        assert((dm as int) * (h as int) <= u128::MAX as int) by (nonlinear_arith)
            requires
                0 <= dm as int <= u64::MAX as int,
                0 <= h as int <= COORD_LIMIT as int,
        ;
    }
    let prod: u128 = (dm as u128) * (h as u128);
    let q: u128 = prod / (len as u128);
    proof {
        assert(prod as int == (dm as int) * (h as int)) by (nonlinear_arith)
            requires
                prod as int == ((dm as u128) as int) * ((h as u128) as int),
                (dm as u128) as int == dm as int,
                (h as u128) as int == h as int,
        ;
        assert(prod as int <= (len as int) * (h as int)) by (nonlinear_arith)
            requires
                prod as int == (dm as int) * (h as int),
                0 <= dm as int <= len as int,
                h as int >= 0,
        ;
        lemma_div_bounds(prod as int, len as int, h as int);
    }
    if d < 0 {
        -(q as i64)
    } else {
        q as i64
    }
}

/// Build the closed quadrilateral outline of a stroked segment.
pub fn stroke_quad(a: PointFx, b: PointFx, w: i64) -> (quad: Vec<PointFx>)
    requires
        -COORD_LIMIT <= a.x <= COORD_LIMIT,
        -COORD_LIMIT <= a.y <= COORD_LIMIT,
        -COORD_LIMIT <= b.x <= COORD_LIMIT,
        -COORD_LIMIT <= b.y <= COORD_LIMIT,
        -COORD_LIMIT <= w <= COORD_LIMIT,
    ensures
        quad@ == stroke_quad_spec(a, b, w),
        quad@.len() == 4,
{
    let dx: i64 = b.x - a.x;
    let dy: i64 = b.y - a.y;
    let dxm: u64 = if dx < 0 {
        (-dx) as u64
    } else {
        dx as u64
    };
    let dym: u64 = if dy < 0 {
        (-dy) as u64
    } else {
        dy as u64
    };
    proof {
        assert((dxm as int) * (dxm as int) == (dx as int) * (dx as int) && (dym as int) * (
        dym as int) == (dy as int) * (dy as int)) by (nonlinear_arith)
            requires
                dxm as int == if dx < 0 { -(dx as int) } else { dx as int },
                dym as int == if dy < 0 { -(dy as int) } else { dy as int },
        ;
        assert((dxm as int) * (dxm as int) + (dym as int) * (dym as int) <= (4 * COORD_LIMIT as int)
            * COORD_LIMIT as int * 2) by (nonlinear_arith)
            requires
                0 <= dxm as int <= 2 * COORD_LIMIT as int,
                0 <= dym as int <= 2 * COORD_LIMIT as int,
        ;
    }
    let n: u128 = (dxm as u128) * (dxm as u128) + (dym as u128) * (dym as u128);
    let len: u64 = crate::fx::isqrt_u128(n);
    let mut quad: Vec<PointFx> = Vec::new();
    proof {
        lemma_sqrt_floor_unique(n as int, len as int);
    }
    if len == 0 {
        quad.push(a);
        quad.push(b);
        quad.push(b);
        quad.push(a);
        proof {
            assert(quad@ =~= stroke_quad_spec(a, b, w));
        }
        quad
    } else {
        let eff: i64 = if w > HAIRLINE_STROKE_WIDTH {
            w
        } else {
            HAIRLINE_STROKE_WIDTH
        };
        let hw: i64 = ((eff as u64) / 2) as i64;
        proof {
            assert(hw as int == half_stroke(w));
            assert((dx as int) * (dx as int) <= n as int) by (nonlinear_arith)
                requires
                    n as int == (dx as int) * (dx as int) + (dy as int) * (dy as int),
            ;
            assert((dy as int) * (dy as int) <= n as int) by (nonlinear_arith)
                requires
                    n as int == (dx as int) * (dx as int) + (dy as int) * (dy as int),
            ;
            assert((if dx >= 0 { dx as int } else { -(dx as int) }) <= len as int)
                by (nonlinear_arith)
                requires
                    (dx as int) * (dx as int) <= n as int,
                    ((len as int + 1) * (len as int + 1)) > n as int,
                    len as int >= 0,
            ;
            assert((if dy >= 0 { dy as int } else { -(dy as int) }) <= len as int)
                by (nonlinear_arith)
                requires
                    (dy as int) * (dy as int) <= n as int,
                    ((len as int + 1) * (len as int + 1)) > n as int,
                    len as int >= 0,
            ;
        }
        let ox: i64 = -off_div_exec(dy, hw, len);
        let oy: i64 = off_div_exec(dx, hw, len);
        quad.push(PointFx { x: a.x + ox, y: a.y + oy });
        quad.push(PointFx { x: b.x + ox, y: b.y + oy });
        quad.push(PointFx { x: b.x - ox, y: b.y - oy });
        quad.push(PointFx { x: a.x - ox, y: a.y - oy });
        proof {
            assert(quad@ =~= stroke_quad_spec(a, b, w));
        }
        quad
    }
}

} // verus!
