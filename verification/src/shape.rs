//! Shapes: polygon regions with holes, built from stitched loops, with a
//! bounding box and an even-odd point-containment test, all in exact
//! fixed-point integer arithmetic.

use vstd::prelude::*;
use crate::geom::COORD_LIMIT;
use crate::geom::Point;

verus! {

/// Does the edge from `a` to `b` cross the horizontal ray that runs from
/// `p` towards positive x? The edge counts only when its two ends straddle
/// the ray's height (one end strictly above, the half-open rule), and the
/// crossing point lies strictly right of `p`.
pub open spec fn edge_crosses(p: Point, a: Point, b: Point) -> bool {
    let straddle: bool = (a.y > p.y) != (b.y > p.y);
    let dy: int = b.y as int - a.y as int;
    let num: int = (a.x - p.x) * (b.y - a.y) + (b.x - a.x) * (p.y - a.y);
    straddle && (if dy > 0 {
        num > 0
    } else {
        num < 0
    })
}

/// The point after `ring[i]` along the ring, wrapping to the start.
pub open spec fn ring_next(ring: Seq<Point>, i: int) -> Point {
    if i + 1 < ring.len() {
        ring[i + 1]
    } else {
        ring[0]
    }
}

/// How many of the first `n` ring edges cross the ray from `p`.
pub open spec fn ring_crossings_upto(ring: Seq<Point>, p: Point, n: int) -> nat
    decreases n,
{
    if n <= 0 {
        0
    } else {
        ring_crossings_upto(ring, p, n - 1) + (if edge_crosses(p, ring[n - 1], ring_next(ring, n - 1)) {
            1nat
        } else {
            0nat
        })
    }
}

/// How many ring edges cross the ray from `p`.
pub open spec fn ring_crossings(ring: Seq<Point>, p: Point) -> nat {
    ring_crossings_upto(ring, p, ring.len() as int)
}

/// Is `p` inside the ring by the even-odd rule?
pub open spec fn in_ring(ring: Seq<Point>, p: Point) -> bool {
    ring_crossings(ring, p) % 2 == 1
}

/// Are all points of the ring inside the coordinate bound?
pub open spec fn ring_in_bounds(ring: Seq<Point>) -> bool {
    forall|i: int| 0 <= i < ring.len() ==> (#[trigger] ring[i]).in_bounds()
}

/// Is `p` inside the ring, by the even-odd rule, in exact arithmetic?
pub fn point_in_ring(ring: &Vec<Point>, p: Point) -> (r: bool)
    requires
        ring_in_bounds(ring@),
        p.in_bounds(),
    ensures
        r == in_ring(ring@, p),
{
    let n = ring.len();
    let mut odd = false;
    let mut i: usize = 0;
    while i < n
        invariant
            n == ring@.len(),
            0 <= i <= n,
            ring_in_bounds(ring@),
            p.in_bounds(),
            odd == (ring_crossings_upto(ring@, p, i as int) % 2 == 1),
        decreases n - i,
    {
        let a = ring[i];
        let b = if i + 1 < n {
            ring[i + 1]
        } else {
            ring[0]
        };
        assert(b == ring_next(ring@, i as int));
        let straddle = (a.y > p.y) != (b.y > p.y);
        if straddle {
            let dx1: i128 = a.x as i128 - p.x as i128;
            let dy1: i128 = b.y as i128 - a.y as i128;
            let dx2: i128 = b.x as i128 - a.x as i128;
            let dy2: i128 = p.y as i128 - a.y as i128;
            proof {
                assert(dx1 * dy1 <= 4_000_000_000_000_000_000 && dx1 * dy1
                    >= -4_000_000_000_000_000_000) by (nonlinear_arith)
                    requires
                        -2_000_000_000 <= dx1 <= 2_000_000_000,
                        -2_000_000_000 <= dy1 <= 2_000_000_000,
                ;
                assert(dx2 * dy2 <= 4_000_000_000_000_000_000 && dx2 * dy2
                    >= -4_000_000_000_000_000_000) by (nonlinear_arith)
                    requires
                        -2_000_000_000 <= dx2 <= 2_000_000_000,
                        -2_000_000_000 <= dy2 <= 2_000_000_000,
                ;
            }
            let num: i128 = dx1 * dy1 + dx2 * dy2;
            let crosses = if dy1 > 0 {
                num > 0
            } else {
                num < 0
            };
            assert(crosses == edge_crosses(p, a, b));
            if crosses {
                odd = !odd;
            }
        } else {
            assert(!edge_crosses(p, a, b));
        }
        i = i + 1;
    }
    odd
}

/// How many of the first `n` ring edges straddle the ray's height.
pub open spec fn straddles_upto(ring: Seq<Point>, p: Point, n: int) -> nat
    decreases n,
{
    if n <= 0 {
        0
    } else {
        straddles_upto(ring, p, n - 1) + (if ((ring[n - 1].y > p.y) != (ring_next(ring, n - 1).y
            > p.y)) {
            1nat
        } else {
            0nat
        })
    }
}

/// Walking the first `n` edges of a ring, the height-straddle count is odd
/// exactly when the walk's two ends sit on different sides of the ray's
/// height.
proof fn lemma_straddle_path_parity(ring: Seq<Point>, p: Point, n: int)
    requires
        0 <= n < ring.len(),
    ensures
        (straddles_upto(ring, p, n) % 2 == 1) == ((ring[0].y > p.y) != (ring[n].y > p.y)),
    decreases n,
{
    if n > 0 {
        lemma_straddle_path_parity(ring, p, n - 1);
        assert(ring_next(ring, n - 1) == ring[n]);
    }
}

/// Around a whole ring the height-straddle count is even: the walk returns
/// to its starting side.
proof fn lemma_straddle_cycle_even(ring: Seq<Point>, p: Point)
    requires
        ring.len() >= 1,
    ensures
        straddles_upto(ring, p, ring.len() as int) % 2 == 0,
{
    let n = ring.len() as int;
    lemma_straddle_path_parity(ring, p, n - 1);
    assert(ring_next(ring, n - 1) == ring[0]);
}

/// If none of the first `n` edges crosses, the crossing count is zero.
proof fn lemma_crossings_zero(ring: Seq<Point>, p: Point, n: int)
    requires
        forall|i: int| 0 <= i < n ==> !edge_crosses(p, #[trigger] ring[i], ring_next(ring, i)),
    ensures
        ring_crossings_upto(ring, p, n) == 0,
    decreases n,
{
    if n > 0 {
        lemma_crossings_zero(ring, p, n - 1);
    }
}

/// If every straddling edge among the first `n` crosses, the crossing
/// count equals the straddle count.
proof fn lemma_crossings_eq_straddles(ring: Seq<Point>, p: Point, n: int)
    requires
        forall|i: int|
            0 <= i < n ==> (edge_crosses(p, #[trigger] ring[i], ring_next(ring, i)) == ((ring[i].y
                > p.y) != (ring_next(ring, i).y > p.y))),
    ensures
        ring_crossings_upto(ring, p, n) == straddles_upto(ring, p, n),
    decreases n,
{
    if n > 0 {
        lemma_crossings_eq_straddles(ring, p, n - 1);
    }
}

/// An edge whose ends both lie in the box, seen from a point strictly right
/// of the box at ray height, never crosses.
proof fn lemma_edge_right_no_cross(p: Point, a: Point, b: Point, hi_x: int)
    requires
        a.x <= hi_x,
        b.x <= hi_x,
        p.x > hi_x,
    ensures
        !edge_crosses(p, a, b),
{
    if (a.y > p.y) != (b.y > p.y) {
        let dy: int = b.y as int - a.y as int;
        let t: int = p.y as int - a.y as int;
        let num: int = (a.x - p.x) * (b.y - a.y) + (b.x - a.x) * (p.y - a.y);
        assert(num == (a.x - p.x) * (dy - t) + (b.x - p.x) * t) by (nonlinear_arith)
            requires
                num == (a.x - p.x) * (b.y - a.y) + (b.x - a.x) * (p.y - a.y),
                dy == b.y as int - a.y as int,
                t == p.y as int - a.y as int,
        ;
        if dy > 0 {
            assert(0 <= t < dy);
            assert((a.x - p.x) * (dy - t) < 0) by (nonlinear_arith)
                requires
                    a.x - p.x < 0,
                    dy - t > 0,
            ;
            assert((b.x - p.x) * t <= 0) by (nonlinear_arith)
                requires
                    b.x - p.x < 0,
                    t >= 0,
            ;
        } else {
            assert(dy < 0);
            assert(dy <= t < 0 || t == 0);
            assert(dy - t <= 0);
            assert(t <= 0);
            assert((a.x - p.x) * (dy - t) >= 0) by (nonlinear_arith)
                requires
                    a.x - p.x < 0,
                    dy - t <= 0,
            ;
            assert((b.x - p.x) * t >= 0) by (nonlinear_arith)
                requires
                    b.x - p.x < 0,
                    t <= 0,
            ;
            if t == 0 {
                assert(num == (a.x - p.x) * dy) by (nonlinear_arith)
                    requires
                        t == 0,
                        num == (a.x - p.x) * (dy - t) + (b.x - p.x) * t,
                ;
                assert(num > 0) by (nonlinear_arith)
                    requires
                        num == (a.x - p.x) * dy,
                        a.x - p.x < 0,
                        dy < 0,
                ;
            } else {
                assert((b.x - p.x) * t > 0) by (nonlinear_arith)
                    requires
                        b.x - p.x < 0,
                        t < 0,
                ;
                assert(num > 0);
            }
        }
    }
}

/// An edge whose ends both lie in the box, seen from a point strictly left
/// of the box, crosses exactly when it straddles the ray height.
proof fn lemma_edge_left_cross_iff_straddle(p: Point, a: Point, b: Point, lo_x: int)
    requires
        a.x >= lo_x,
        b.x >= lo_x,
        p.x < lo_x,
    ensures
        edge_crosses(p, a, b) == ((a.y > p.y) != (b.y > p.y)),
{
    if (a.y > p.y) != (b.y > p.y) {
        let dy: int = b.y as int - a.y as int;
        let t: int = p.y as int - a.y as int;
        let num: int = (a.x - p.x) * (b.y - a.y) + (b.x - a.x) * (p.y - a.y);
        assert(num == (a.x - p.x) * (dy - t) + (b.x - p.x) * t) by (nonlinear_arith)
            requires
                num == (a.x - p.x) * (b.y - a.y) + (b.x - a.x) * (p.y - a.y),
                dy == b.y as int - a.y as int,
                t == p.y as int - a.y as int,
        ;
        if dy > 0 {
            assert(0 <= t < dy);
            assert((a.x - p.x) * (dy - t) > 0) by (nonlinear_arith)
                requires
                    a.x - p.x > 0,
                    dy - t > 0,
            ;
            assert((b.x - p.x) * t >= 0) by (nonlinear_arith)
                requires
                    b.x - p.x > 0,
                    t >= 0,
            ;
        } else {
            assert(dy < 0);
            assert(dy <= t);
            assert(t <= 0);
            assert((a.x - p.x) * (dy - t) <= 0) by (nonlinear_arith)
                requires
                    a.x - p.x > 0,
                    dy - t <= 0,
            ;
            assert((b.x - p.x) * t <= 0) by (nonlinear_arith)
                requires
                    b.x - p.x > 0,
                    t <= 0,
            ;
            if t == 0 {
                assert(num == (a.x - p.x) * dy) by (nonlinear_arith)
                    requires
                        t == 0,
                        num == (a.x - p.x) * (dy - t) + (b.x - p.x) * t,
                ;
                assert(num < 0) by (nonlinear_arith)
                    requires
                        num == (a.x - p.x) * dy,
                        a.x - p.x > 0,
                        dy < 0,
                ;
            } else {
                assert((b.x - p.x) * t < 0) by (nonlinear_arith)
                    requires
                        b.x - p.x > 0,
                        t < 0,
                ;
                assert(num < 0);
            }
        }
    }
}

/// Is every ring point inside the closed box from `lo` to `hi`?
pub open spec fn ring_in_box(ring: Seq<Point>, lo: Point, hi: Point) -> bool {
    forall|i: int|
        0 <= i < ring.len() ==> lo.x <= (#[trigger] ring[i]).x <= hi.x && lo.y <= ring[i].y
            <= hi.y
}

/// A point outside the box that holds all of a ring's points gathers an
/// even number of ray crossings from that ring: above or below the box no
/// edge straddles the ray's height, right of the box no straddling edge
/// reaches the ray, and left of the box every straddling edge crosses it —
/// and a closed walk straddles an even number of times.
pub proof fn lemma_ring_outside_box_even(ring: Seq<Point>, p: Point, lo: Point, hi: Point)
    requires
        ring_in_box(ring, lo, hi),
        !(lo.x <= p.x <= hi.x && lo.y <= p.y <= hi.y),
    ensures
        ring_crossings(ring, p) % 2 == 0,
{
    let n = ring.len() as int;
    if n == 0 {
        assert(ring_crossings_upto(ring, p, 0) == 0);
    } else if p.y > hi.y || p.y < lo.y {
        assert forall|i: int|
            0 <= i < n implies !edge_crosses(p, #[trigger] ring[i], ring_next(ring, i)) by {
            let a = ring[i];
            let b = ring_next(ring, i);
            assert(lo.y <= b.y <= hi.y);
        }
        lemma_crossings_zero(ring, p, n);
    } else if p.x > hi.x {
        assert forall|i: int|
            0 <= i < n implies !edge_crosses(p, #[trigger] ring[i], ring_next(ring, i)) by {
            let a = ring[i];
            let b = ring_next(ring, i);
            assert(b.x <= hi.x);
            lemma_edge_right_no_cross(p, a, b, hi.x as int);
        }
        lemma_crossings_zero(ring, p, n);
    } else {
        assert(p.x < lo.x);
        assert forall|i: int|
            0 <= i < n implies (edge_crosses(p, #[trigger] ring[i], ring_next(ring, i)) == ((
        ring[i].y > p.y) != (ring_next(ring, i).y > p.y))) by {
            let a = ring[i];
            let b = ring_next(ring, i);
            assert(b.x >= lo.x);
            lemma_edge_left_cross_iff_straddle(p, a, b, lo.x as int);
        }
        lemma_crossings_eq_straddles(ring, p, n);
        lemma_straddle_cycle_even(ring, p);
    }
}

/// One polygon region: an outer boundary ring and zero or more interior
/// hole rings.
#[derive(Debug, Clone)]
pub struct PolygonRegion {
    pub exterior: Vec<Point>,
    pub interiors: Vec<Vec<Point>>,
}

/// The mathematical image of a region.
#[verifier::ext_equal]
pub struct RegionView {
    pub exterior: Seq<Point>,
    pub interiors: Seq<Seq<Point>>,
}

impl View for PolygonRegion {
    type V = RegionView;

    open spec fn view(&self) -> RegionView {
        RegionView {
            exterior: self.exterior@,
            interiors: self.interiors@.map_values(|r: Vec<Point>| r@),
        }
    }
}

/// The ray crossings gathered from the first `n` hole rings.
pub open spec fn interiors_crossings_upto(interiors: Seq<Seq<Point>>, p: Point, n: int) -> nat
    decreases n,
{
    if n <= 0 {
        0
    } else {
        interiors_crossings_upto(interiors, p, n - 1) + ring_crossings(interiors[n - 1], p)
    }
}

/// The ray crossings a whole region gathers: its boundary plus all holes.
pub open spec fn region_crossings(r: RegionView, p: Point) -> nat {
    ring_crossings(r.exterior, p) + interiors_crossings_upto(r.interiors, p, r.interiors.len() as int)
}

/// The ray crossings gathered from the first `n` regions.
pub open spec fn parts_crossings_upto(parts: Seq<RegionView>, p: Point, n: int) -> nat
    decreases n,
{
    if n <= 0 {
        0
    } else {
        parts_crossings_upto(parts, p, n - 1) + region_crossings(parts[n - 1], p)
    }
}

/// The ray crossings a whole shape gathers.
pub open spec fn shape_crossings(parts: Seq<RegionView>, p: Point) -> nat {
    parts_crossings_upto(parts, p, parts.len() as int)
}

/// A shape with one or more polygon regions, each with zero or more holes,
/// plus the bounding box of all its points. Immutable after construction.
#[derive(Debug, Clone)]
pub struct Shape {
    pub parts: Vec<PolygonRegion>,
    pub min: Point,
    pub max: Point,
}

/// The mathematical image of a shape.
#[verifier::ext_equal]
pub struct ShapeView {
    pub parts: Seq<RegionView>,
    pub min: Point,
    pub max: Point,
}

impl View for Shape {
    type V = ShapeView;

    open spec fn view(&self) -> ShapeView {
        ShapeView {
            parts: self.parts@.map_values(|r: PolygonRegion| r@),
            min: self.min,
            max: self.max,
        }
    }
}

/// Is `p` inside the shape? The union of the regions minus their holes,
/// by the even-odd rule: a point is contained when the ray from it crosses
/// the shape's rings an odd number of times in total.
pub open spec fn shape_contains(s: ShapeView, p: Point) -> bool {
    shape_crossings(s.parts, p) % 2 == 1
}

/// Is every ring of the region inside the closed box from `lo` to `hi`,
/// and non-empty?
pub open spec fn region_in_box(r: RegionView, lo: Point, hi: Point) -> bool {
    &&& ring_in_box(r.exterior, lo, hi)
    &&& r.exterior.len() >= 1
    &&& forall|i: int|
        0 <= i < r.interiors.len() ==> ring_in_box(#[trigger] r.interiors[i], lo, hi)
            && r.interiors[i].len() >= 1
}

/// Well-formed: the box corners are inside the coordinate bound and every
/// ring of every region lies inside the box and is non-empty.
pub open spec fn shape_wf(s: ShapeView) -> bool {
    &&& s.min.in_bounds()
    &&& s.max.in_bounds()
    &&& forall|i: int| 0 <= i < s.parts.len() ==> region_in_box(#[trigger] s.parts[i], s.min, s.max)
}

/// Is `p` inside the shape's bounding box?
pub open spec fn in_bbox(s: ShapeView, p: Point) -> bool {
    s.min.x <= p.x <= s.max.x && s.min.y <= p.y <= s.max.y
}

/// A point outside the box holding all of a region's rings gathers an even
/// number of crossings from its hole rings.
proof fn lemma_interiors_outside_box_even(
    interiors: Seq<Seq<Point>>,
    p: Point,
    lo: Point,
    hi: Point,
    n: int,
)
    requires
        forall|i: int| 0 <= i < n ==> ring_in_box(#[trigger] interiors[i], lo, hi),
        !(lo.x <= p.x <= hi.x && lo.y <= p.y <= hi.y),
    ensures
        interiors_crossings_upto(interiors, p, n) % 2 == 0,
    decreases n,
{
    if n > 0 {
        lemma_interiors_outside_box_even(interiors, p, lo, hi, n - 1);
        lemma_ring_outside_box_even(interiors[n - 1], p, lo, hi);
    }
}

/// A point outside the box holding all of the first `n` regions gathers an
/// even number of crossings from them.
proof fn lemma_parts_outside_box_even(
    parts: Seq<RegionView>,
    p: Point,
    lo: Point,
    hi: Point,
    n: int,
)
    requires
        forall|i: int| 0 <= i < n ==> region_in_box(#[trigger] parts[i], lo, hi),
        !(lo.x <= p.x <= hi.x && lo.y <= p.y <= hi.y),
    ensures
        parts_crossings_upto(parts, p, n) % 2 == 0,
    decreases n,
{
    if n > 0 {
        lemma_parts_outside_box_even(parts, p, lo, hi, n - 1);
        lemma_ring_outside_box_even(parts[n - 1].exterior, p, lo, hi);
        lemma_interiors_outside_box_even(
            parts[n - 1].interiors,
            p,
            lo,
            hi,
            parts[n - 1].interiors.len() as int,
        );
    }
}

/// A point outside a well-formed shape's bounding box is never contained.
pub proof fn lemma_outside_bbox_not_contained(s: ShapeView, p: Point)
    requires
        shape_wf(s),
        !in_bbox(s, p),
    ensures
        !shape_contains(s, p),
{
    lemma_parts_outside_box_even(s.parts, p, s.min, s.max, s.parts.len() as int);
}

impl Shape {
    /// Well-formed (see `shape_wf`).
    pub open spec fn wf(&self) -> bool {
        shape_wf(self@)
    }

    /// Is the point inside the shape — in one of its regions but not in a
    /// hole — by the even-odd rule? The bounding box rejects far-away
    /// points first.
    pub fn contains_point(&self, p: Point) -> (r: bool)
        requires
            self.wf(),
        ensures
            r == shape_contains(self@, p),
    {
        if p.x < self.min.x || p.x > self.max.x || p.y < self.min.y || p.y > self.max.y {
            proof {
                lemma_outside_bbox_not_contained(self@, p);
            }
            return false;
        }
        let mut odd = false;
        let mut i: usize = 0;
        let n = self.parts.len();
        while i < n
            invariant
                n == self@.parts.len(),
                0 <= i <= n,
                self.wf(),
                p.in_bounds(),
                in_bbox(self@, p),
                odd == (parts_crossings_upto(self@.parts, p, i as int) % 2 == 1),
            decreases n - i,
        {
            let part = &self.parts[i];
            assert(part@ == self@.parts[i as int]);
            let ext_odd = point_in_ring(&part.exterior, p);
            let mut hole_odd = false;
            let mut j: usize = 0;
            let m = part.interiors.len();
            while j < m
                invariant
                    m == part@.interiors.len(),
                    0 <= j <= m,
                    part@ == self@.parts[i as int],
                    0 <= i < self@.parts.len(),
                    self.wf(),
                    p.in_bounds(),
                    hole_odd == (interiors_crossings_upto(part@.interiors, p, j as int) % 2 == 1),
                decreases m - j,
            {
                assert(part@.interiors[j as int] == part.interiors@[j as int]@);
                assert(ring_in_box(part@.interiors[j as int], self@.min, self@.max));
                let hin = point_in_ring(&part.interiors[j], p);
                hole_odd = hole_odd != hin;
                j = j + 1;
            }
            let region_odd = ext_odd != hole_odd;
            assert(region_odd == (region_crossings(self@.parts[i as int], p) % 2 == 1));
            odd = odd != region_odd;
            i = i + 1;
        }
        odd
    }
}

/// How many of the first `n` hole rings contain `p`.
pub open spec fn holes_containing_upto(interiors: Seq<Seq<Point>>, p: Point, n: int) -> nat
    decreases n,
{
    if n <= 0 {
        0
    } else {
        holes_containing_upto(interiors, p, n - 1) + (if in_ring(interiors[n - 1], p) {
            1nat
        } else {
            0nat
        })
    }
}

/// The crossings from the first `n` hole rings are odd exactly when an odd
/// number of those rings contain the point.
proof fn lemma_interiors_parity(interiors: Seq<Seq<Point>>, p: Point, n: int)
    ensures
        (interiors_crossings_upto(interiors, p, n) % 2) == (holes_containing_upto(interiors, p, n)
            % 2),
    decreases n,
{
    if n > 0 {
        lemma_interiors_parity(interiors, p, n - 1);
    }
}

/// If exactly one of the first `n` hole rings contains the point, the
/// count says so.
proof fn lemma_holes_count_one(interiors: Seq<Seq<Point>>, p: Point, h: int, n: int)
    requires
        0 <= h < interiors.len(),
        in_ring(interiors[h], p),
        forall|j: int|
            0 <= j < interiors.len() && j != h ==> !in_ring(#[trigger] interiors[j], p),
        0 <= n <= interiors.len(),
    ensures
        holes_containing_upto(interiors, p, n) == (if n > h {
            1nat
        } else {
            0nat
        }),
    decreases n,
{
    if n > 0 {
        lemma_holes_count_one(interiors, p, h, n - 1);
    }
}

/// If none of the first `n` hole rings contains the point, the count is
/// zero.
proof fn lemma_holes_count_zero(interiors: Seq<Seq<Point>>, p: Point, n: int)
    requires
        forall|j: int| 0 <= j < n ==> !in_ring(#[trigger] interiors[j], p),
    ensures
        holes_containing_upto(interiors, p, n) == 0,
    decreases n,
{
    if n > 0 {
        lemma_holes_count_zero(interiors, p, n - 1);
    }
}

/// In a one-region shape, a point that is inside the outer boundary and
/// inside exactly one hole is not contained in the shape.
pub proof fn lemma_point_in_hole_not_contained(s: ShapeView, p: Point, h: int)
    requires
        s.parts.len() == 1,
        in_ring(s.parts[0].exterior, p),
        0 <= h < s.parts[0].interiors.len(),
        in_ring(s.parts[0].interiors[h], p),
        forall|j: int|
            0 <= j < s.parts[0].interiors.len() && j != h ==> !in_ring(
                #[trigger] s.parts[0].interiors[j],
                p,
            ),
    ensures
        !shape_contains(s, p),
{
    let ints = s.parts[0].interiors;
    let n = ints.len() as int;
    lemma_interiors_parity(ints, p, n);
    lemma_holes_count_one(ints, p, h, n);
    assert(parts_crossings_upto(s.parts, p, 0) == 0);
    assert(parts_crossings_upto(s.parts, p, 1) == region_crossings(s.parts[0], p));
}

/// In a one-region shape, a point that is inside the outer boundary and in
/// no hole — between the holes and the boundary — is contained in the
/// shape.
pub proof fn lemma_point_between_hole_and_boundary_contained(s: ShapeView, p: Point)
    requires
        s.parts.len() == 1,
        in_ring(s.parts[0].exterior, p),
        forall|j: int|
            0 <= j < s.parts[0].interiors.len() ==> !in_ring(#[trigger] s.parts[0].interiors[j], p),
    ensures
        shape_contains(s, p),
{
    let ints = s.parts[0].interiors;
    let n = ints.len() as int;
    lemma_interiors_parity(ints, p, n);
    lemma_holes_count_zero(ints, p, n);
    assert(parts_crossings_upto(s.parts, p, 0) == 0);
    assert(parts_crossings_upto(s.parts, p, 1) == region_crossings(s.parts[0], p));
}


/// In a shape whose single region is an axis-aligned rectangle without
/// holes, every interior point — the centroid among them — is contained:
/// of the four edges only the right one crosses the ray, once.
pub proof fn lemma_rect_interior_contained(
    s: ShapeView,
    p: Point,
    x0: i64,
    y0: i64,
    x1: i64,
    y1: i64,
)
    requires
        s.parts.len() == 1,
        s.parts[0].interiors.len() == 0,
        s.parts[0].exterior == seq![
            Point { x: x0, y: y0 },
            Point { x: x1, y: y0 },
            Point { x: x1, y: y1 },
            Point { x: x0, y: y1 },
        ],
        x0 < p.x < x1,
        y0 < p.y < y1,
    ensures
        shape_contains(s, p),
{
    let ring = s.parts[0].exterior;
    let a = Point { x: x0, y: y0 };
    let b = Point { x: x1, y: y0 };
    let c = Point { x: x1, y: y1 };
    let d = Point { x: x0, y: y1 };
    assert(!edge_crosses(p, a, b));
    assert(edge_crosses(p, b, c)) by {
        assert((b.y > p.y) != (c.y > p.y));
        assert((b.x - p.x) * (c.y - b.y) + (c.x - b.x) * (p.y - b.y) > 0) by (nonlinear_arith)
            requires
                b.x - p.x > 0,
                c.y - b.y > 0,
                c.x == b.x,
        ;
    }
    assert(!edge_crosses(p, c, d));
    assert(!edge_crosses(p, d, a)) by {
        assert((d.x - p.x) * (a.y - d.y) + (a.x - d.x) * (p.y - d.y) > 0) by (nonlinear_arith)
            requires
                d.x - p.x < 0,
                a.y - d.y < 0,
                a.x == d.x,
        ;
    }
    assert(ring_next(ring, 0) == b);
    assert(ring_next(ring, 1) == c);
    assert(ring_next(ring, 2) == d);
    assert(ring_next(ring, 3) == a);
    assert(ring_crossings_upto(ring, p, 0) == 0);
    assert(ring_crossings_upto(ring, p, 1) == 0);
    assert(ring_crossings_upto(ring, p, 2) == 1);
    assert(ring_crossings_upto(ring, p, 3) == 1);
    assert(ring_crossings(ring, p) == 1);
    assert(interiors_crossings_upto(s.parts[0].interiors, p, 0) == 0);
    assert(region_crossings(s.parts[0], p) == 1);
    assert(parts_crossings_upto(s.parts, p, 0) == 0);
    assert(parts_crossings_upto(s.parts, p, 1) == 1);
}

} // verus!
