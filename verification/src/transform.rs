//! The per-placement transform: a similarity (uniform scale, rotation,
//! translation) in fixed point, with an independent Y-flip that applies in
//! model space, before the similarity.

use vstd::prelude::*;
use crate::geom::COORD_LIMIT;
use crate::geom::Point;
use crate::geom::UNIT;
use crate::laser::ConditionId;

verus! {

/// Largest magnitude the linear coefficients may have: a scale of 1000 at
/// full rotation, in fixed point.
pub const LINEAR_LIMIT: i64 = 1_000_000_000;

/// Largest magnitude a transformed coordinate can reach under well-formed
/// inputs.
pub const TRANS_LIMIT: i64 = 3_000_000_000_000;

/// Quotient of a fixed-point product by one unit, rounded towards zero.
pub open spec fn fp_div_unit(n: int) -> int {
    if n < 0 {
        -((-n) / (UNIT as int))
    } else {
        n / (UNIT as int)
    }
}

/// A similarity transform in fixed point: the point (x, y) maps to
/// ((a·x − b·y)/unit + tx, (b·x + a·y)/unit + ty). The coefficients `a`
/// and `b` carry rotation and uniform scale together.
#[derive(Debug, Clone, Copy, PartialEq, Eq, Structural)]
pub struct Transform2 {
    pub a: i64,
    pub b: i64,
    pub tx: i64,
    pub ty: i64,
}

/// Where a similarity sends a point, in exact fixed-point arithmetic.
pub open spec fn spec_apply(t: Transform2, p: Point) -> Point {
    Point {
        x: (fp_div_unit(t.a * p.x - t.b * p.y) + t.tx) as i64,
        y: (fp_div_unit(t.b * p.x + t.a * p.y) + t.ty) as i64,
    }
}

/// Quotient of a product by one unit, rounded towards zero.
fn div_unit(n: i128) -> (r: i128)
    requires
        -4_000_000_000_000_000_000 <= n <= 4_000_000_000_000_000_000,
    ensures
        r as int == fp_div_unit(n as int),
{
    if n < 0 {
        let m: u128 = (-n) as u128;
        let q: u128 = m / (UNIT as u128);
        -(q as i128)
    } else {
        let m: u128 = n as u128;
        let q: u128 = m / (UNIT as u128);
        q as i128
    }
}

impl Transform2 {
    /// Coefficients and translation small enough that applying the
    /// transform to any in-bounds point stays exact.
    pub open spec fn wf(self) -> bool {
        &&& -LINEAR_LIMIT <= self.a <= LINEAR_LIMIT
        &&& -LINEAR_LIMIT <= self.b <= LINEAR_LIMIT
        &&& -COORD_LIMIT <= self.tx <= COORD_LIMIT
        &&& -COORD_LIMIT <= self.ty <= COORD_LIMIT
    }

    /// The identity transform.
    pub fn identity() -> (r: Transform2)
        ensures
            r == (Transform2 { a: UNIT, b: 0i64, tx: 0i64, ty: 0i64 }),
            r.wf(),
    {
        Transform2 { a: UNIT, b: 0, tx: 0, ty: 0 }
    }

    /// Apply the similarity to a point.
    pub fn apply(&self, p: Point) -> (r: Point)
        requires
            self.wf(),
            p.in_bounds(),
        ensures
            r == spec_apply(*self, p),
            -TRANS_LIMIT <= r.x <= TRANS_LIMIT,
            -TRANS_LIMIT <= r.y <= TRANS_LIMIT,
    {
        proof {
            assert(self.a as int * p.x as int <= 1_000_000_000_000_000_000 && self.a as int
                * p.x as int >= -1_000_000_000_000_000_000) by (nonlinear_arith)
                requires
                    -1_000_000_000 <= self.a as int <= 1_000_000_000,
                    -1_000_000_000 <= p.x as int <= 1_000_000_000,
            ;
            assert(self.b as int * p.y as int <= 1_000_000_000_000_000_000 && self.b as int
                * p.y as int >= -1_000_000_000_000_000_000) by (nonlinear_arith)
                requires
                    -1_000_000_000 <= self.b as int <= 1_000_000_000,
                    -1_000_000_000 <= p.y as int <= 1_000_000_000,
            ;
            assert(self.b as int * p.x as int <= 1_000_000_000_000_000_000 && self.b as int
                * p.x as int >= -1_000_000_000_000_000_000) by (nonlinear_arith)
                requires
                    -1_000_000_000 <= self.b as int <= 1_000_000_000,
                    -1_000_000_000 <= p.x as int <= 1_000_000_000,
            ;
            assert(self.a as int * p.y as int <= 1_000_000_000_000_000_000 && self.a as int
                * p.y as int >= -1_000_000_000_000_000_000) by (nonlinear_arith)
                requires
                    -1_000_000_000 <= self.a as int <= 1_000_000_000,
                    -1_000_000_000 <= p.y as int <= 1_000_000_000,
            ;
        }
        let xn: i128 = self.a as i128 * p.x as i128 - self.b as i128 * p.y as i128;
        let yn: i128 = self.b as i128 * p.x as i128 + self.a as i128 * p.y as i128;
        let xq = div_unit(xn);
        let yq = div_unit(yn);
        proof {
            assert(fp_div_unit(xn as int) <= 2_000_000_000_000 && fp_div_unit(xn as int)
                >= -2_000_000_000_000) by {
                if xn as int >= 0 {
                    assert((xn as int) / (UNIT as int) <= 2_000_000_000_000_000_000int / (
                    UNIT as int)) by (nonlinear_arith)
                        requires
                            0 <= xn as int <= 2_000_000_000_000_000_000,
                    ;
                } else {
                    assert((-(xn as int)) / (UNIT as int) <= 2_000_000_000_000_000_000int / (
                    UNIT as int)) by (nonlinear_arith)
                        requires
                            0 <= -(xn as int) <= 2_000_000_000_000_000_000,
                    ;
                }
            }
            assert(fp_div_unit(yn as int) <= 2_000_000_000_000 && fp_div_unit(yn as int)
                >= -2_000_000_000_000) by {
                if yn as int >= 0 {
                    assert((yn as int) / (UNIT as int) <= 2_000_000_000_000_000_000int / (
                    UNIT as int)) by (nonlinear_arith)
                        requires
                            0 <= yn as int <= 2_000_000_000_000_000_000,
                    ;
                } else {
                    assert((-(yn as int)) / (UNIT as int) <= 2_000_000_000_000_000_000int / (
                    UNIT as int)) by (nonlinear_arith)
                        requires
                            0 <= -(yn as int) <= 2_000_000_000_000_000_000,
                    ;
                }
            }
        }
        let x = xq as i64 + self.tx;
        let y = yq as i64 + self.ty;
        Point { x, y }
    }

    /// Shift the translation.
    pub fn translate_by(&mut self, dx: i64, dy: i64)
        requires
            i64::MIN <= old(self).tx + dx <= i64::MAX,
            i64::MIN <= old(self).ty + dy <= i64::MAX,
        ensures
            final(self).a == old(self).a,
            final(self).b == old(self).b,
            final(self).tx == old(self).tx + dx,
            final(self).ty == old(self).ty + dy,
    {
        self.tx = self.tx + dx;
        self.ty = self.ty + dy;
    }
}

/// A placed entity's mutable state: its transform, whether it is flipped
/// in Y, and which cut condition it uses.
#[derive(Debug, Clone, Copy, PartialEq, Eq, Structural)]
pub struct EntityState {
    pub transform: Transform2,
    pub flip: bool,
    pub laser_condition: ConditionId,
}

/// Where an entity's state sends a model point: the Y-flip applies first,
/// in model space, then the similarity. The order matters whenever the
/// rotation is not zero, and is fixed here.
pub open spec fn spec_entity_transform(e: EntityState, p: Point) -> Point {
    let q = if e.flip {
        Point { x: p.x, y: (-p.y) as i64 }
    } else {
        p
    };
    spec_apply(e.transform, q)
}

impl EntityState {
    /// Well-formed: the similarity is.
    pub open spec fn wf(self) -> bool {
        self.transform.wf()
    }

    /// Transform a model-space point into sheet space: flip first, then
    /// the similarity.
    pub fn transform(&self, point: Point) -> (r: Point)
        requires
            self.wf(),
            point.in_bounds(),
        ensures
            r == spec_entity_transform(*self, point),
            -TRANS_LIMIT <= r.x <= TRANS_LIMIT,
            -TRANS_LIMIT <= r.y <= TRANS_LIMIT,
    {
        let mut p = point;
        if self.flip {
            p.y = -p.y;
        }
        self.transform.apply(p)
    }
}

} // verus!
