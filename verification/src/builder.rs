//! Shape construction: loops are ordered by unsigned area, the
//! minimum-area loop opens the first top-level region, and every further
//! loop becomes a hole of the first region that contains it, or a new
//! top-level region of its own.

use vstd::prelude::*;
use crate::geom::COORD_LIMIT;
use crate::geom::Point;
use crate::shape::PolygonRegion;
use crate::shape::RegionView;
use crate::shape::Shape;
use crate::shape::in_ring;
use crate::shape::point_in_ring;
use crate::shape::region_in_box;
use crate::shape::ring_in_bounds;
use crate::shape::ring_in_box;
use crate::shape::shape_wf;
use crate::stitch::Polyline;
use crate::stitch::PolyView;

verus! {

/// The magnitude of an integer.
pub open spec fn abs_int(x: int) -> nat {
    if x < 0 {
        (-x) as nat
    } else {
        x as nat
    }
}

/// The signed shoelace sum over the first `n` cyclic edges of a ring.
pub open spec fn ring_double_area_upto(ring: Seq<Point>, n: int) -> int
    decreases n,
{
    if n <= 0 {
        0
    } else {
        ring_double_area_upto(ring, n - 1) + (ring[n - 1].x * crate::shape::ring_next(
            ring,
            n - 1,
        ).y - crate::shape::ring_next(ring, n - 1).x * ring[n - 1].y)
    }
}

/// Twice the unsigned area of a ring, exactly.
pub open spec fn ring_area2(ring: Seq<Point>) -> nat {
    abs_int(ring_double_area_upto(ring, ring.len() as int))
}

/// Twice the unsigned area of a ring, computed exactly.
pub fn ring_double_area(ring: &Vec<Point>) -> (r: u128)
    requires
        ring_in_bounds(ring@),
    ensures
        r as nat == ring_area2(ring@),
{
    let n = ring.len();
    let mut acc: i128 = 0;
    let mut i: usize = 0;
    while i < n
        invariant
            n == ring@.len(),
            0 <= i <= n,
            ring_in_bounds(ring@),
            acc == ring_double_area_upto(ring@, i as int),
            -2_000_000_000_000_000_000 * (i as int) <= acc <= 2_000_000_000_000_000_000 * (
            i as int),
        decreases n - i,
    {
        let a = ring[i];
        let b = if i + 1 < n {
            ring[i + 1]
        } else {
            ring[0]
        };
        assert(b == crate::shape::ring_next(ring@, i as int));
        proof {
            assert(a.x as int * b.y as int <= 1_000_000_000_000_000_000 && a.x as int * b.y as int
                >= -1_000_000_000_000_000_000) by (nonlinear_arith)
                requires
                    -1_000_000_000 <= a.x as int <= 1_000_000_000,
                    -1_000_000_000 <= b.y as int <= 1_000_000_000,
            ;
            assert(b.x as int * a.y as int <= 1_000_000_000_000_000_000 && b.x as int * a.y as int
                >= -1_000_000_000_000_000_000) by (nonlinear_arith)
                requires
                    -1_000_000_000 <= b.x as int <= 1_000_000_000,
                    -1_000_000_000 <= a.y as int <= 1_000_000_000,
            ;
        }
        let term: i128 = a.x as i128 * b.y as i128 - b.x as i128 * a.y as i128;
        acc = acc + term;
        i = i + 1;
    }
    if acc < 0 {
        (-acc) as u128
    } else {
        acc as u128
    }
}

/// Insert a ring into an area-ascending sequence, after any ring of equal
/// area, keeping the order stable.
pub open spec fn insert_by_area(s: Seq<Seq<Point>>, x: Seq<Point>) -> Seq<Seq<Point>>
    decreases s.len(),
{
    if s.len() == 0 {
        seq![x]
    } else if ring_area2(x) < ring_area2(s.last()) {
        insert_by_area(s.drop_last(), x).push(s.last())
    } else {
        s.push(x)
    }
}

/// The rings sorted by unsigned area, ascending and stable.
pub open spec fn sort_rings_by_area(rings: Seq<Seq<Point>>) -> Seq<Seq<Point>>
    decreases rings.len(),
{
    if rings.len() == 0 {
        Seq::<Seq<Point>>::empty()
    } else {
        insert_by_area(sort_rings_by_area(rings.drop_last()), rings.last())
    }
}

/// The index of the last ring holding the minimum area: later rings win
/// ties, as a minimum scan that prefers the later of two equals would find.
pub open spec fn last_min_index(s: Seq<Seq<Point>>) -> int
    decreases s.len(),
{
    if s.len() <= 1 {
        0
    } else {
        let r = last_min_index(s.drop_last());
        if ring_area2(s.last()) <= ring_area2(s[r]) {
            s.len() - 1
        } else {
            r
        }
    }
}

/// The chosen index is always in range.
proof fn lemma_last_min_index_in_range(s: Seq<Seq<Point>>)
    requires
        s.len() >= 1,
    ensures
        0 <= last_min_index(s) < s.len(),
    decreases s.len(),
{
    if s.len() > 1 {
        lemma_last_min_index_in_range(s.drop_last());
    }
}

/// Does the outer ring contain every vertex of the candidate ring, by the
/// even-odd rule?
pub open spec fn ring_inside(outer: Seq<Point>, cand: Seq<Point>) -> bool {
    forall|k: int| 0 <= k < cand.len() ==> in_ring(outer, #[trigger] cand[k])
}

/// Does the outer ring contain every vertex of the candidate ring?
pub fn ring_contains_ring(outer: &Vec<Point>, cand: &Vec<Point>) -> (r: bool)
    requires
        ring_in_bounds(outer@),
        ring_in_bounds(cand@),
    ensures
        r == ring_inside(outer@, cand@),
{
    let mut k: usize = 0;
    let n = cand.len();
    while k < n
        invariant
            n == cand@.len(),
            0 <= k <= n,
            ring_in_bounds(outer@),
            ring_in_bounds(cand@),
            forall|j: int| 0 <= j < k ==> in_ring(outer@, #[trigger] cand@[j]),
        decreases n - k,
    {
        if !point_in_ring(outer, cand[k]) {
            return false;
        }
        k = k + 1;
    }
    true
}

/// The first top-level region, from `i` on, whose boundary contains the
/// ring.
pub open spec fn find_container_from(tops: Seq<RegionView>, ring: Seq<Point>, i: int) -> Option<
    int>
    decreases tops.len() - i,
{
    if i < 0 || i >= tops.len() {
        None
    } else if ring_inside(tops[i].exterior, ring) {
        Some(i)
    } else {
        find_container_from(tops, ring, i + 1)
    }
}

/// Place one ring: the first containing region absorbs it as a hole, and a
/// ring no region contains opens a new top-level region.
pub open spec fn place_ring(tops: Seq<RegionView>, ring: Seq<Point>) -> Seq<RegionView> {
    match find_container_from(tops, ring, 0) {
        Some(i) => tops.update(
            i,
            RegionView { exterior: tops[i].exterior, interiors: tops[i].interiors.push(ring) },
        ),
        None => tops.push(RegionView { exterior: ring, interiors: Seq::<Seq<Point>>::empty() }),
    }
}

/// Place the first `n` rings, in order.
pub open spec fn place_prefix(tops0: Seq<RegionView>, rings: Seq<Seq<Point>>, n: int) -> Seq<
    RegionView>
    decreases n,
{
    if n <= 0 {
        tops0
    } else {
        place_ring(place_prefix(tops0, rings, n - 1), rings[n - 1])
    }
}

/// The regions a sorted ring sequence builds: the last minimum-area ring
/// opens the first region and every other ring is placed in order.
pub open spec fn build_parts(sorted: Seq<Seq<Point>>) -> Seq<RegionView> {
    if sorted.len() == 0 {
        Seq::<RegionView>::empty()
    } else {
        let m = last_min_index(sorted);
        let rest = sorted.remove(m);
        place_prefix(
            seq![RegionView { exterior: sorted[m], interiors: Seq::<Seq<Point>>::empty() }],
            rest,
            rest.len() as int,
        )
    }
}

/// The regions a raw ring list builds, the loops ordered by area first.
pub open spec fn shape_from_rings(rings: Seq<Seq<Point>>) -> Seq<RegionView> {
    build_parts(sort_rings_by_area(rings))
}

/// Every ring of every region satisfies the predicate.
pub open spec fn regions_rings_pred(tops: Seq<RegionView>, pred: spec_fn(Seq<Point>) -> bool) -> bool {
    forall|i: int|
        0 <= i < tops.len() ==> pred((#[trigger] tops[i]).exterior) && (forall|j: int|
            0 <= j < tops[i].interiors.len() ==> pred(#[trigger] tops[i].interiors[j]))
}

/// Inserting by area keeps a ring predicate across all entries.
proof fn lemma_insert_by_area_pred(
    s: Seq<Seq<Point>>,
    x: Seq<Point>,
    pred: spec_fn(Seq<Point>) -> bool,
)
    requires
        forall|i: int| 0 <= i < s.len() ==> pred(#[trigger] s[i]),
        pred(x),
    ensures
        insert_by_area(s, x).len() == s.len() + 1,
        forall|i: int|
            0 <= i < insert_by_area(s, x).len() ==> pred(#[trigger] insert_by_area(s, x)[i]),
    decreases s.len(),
{
    if s.len() == 0 {
    } else if ring_area2(x) < ring_area2(s.last()) {
        assert(forall|i: int| 0 <= i < s.drop_last().len() ==> pred(#[trigger] s.drop_last()[i]));
        lemma_insert_by_area_pred(s.drop_last(), x, pred);
    }
}

/// Sorting keeps a ring predicate across all entries, and the length.
proof fn lemma_sort_pred(rings: Seq<Seq<Point>>, pred: spec_fn(Seq<Point>) -> bool)
    requires
        forall|i: int| 0 <= i < rings.len() ==> pred(#[trigger] rings[i]),
    ensures
        sort_rings_by_area(rings).len() == rings.len(),
        forall|i: int|
            0 <= i < rings.len() ==> pred(#[trigger] sort_rings_by_area(rings)[i]),
    decreases rings.len(),
{
    if rings.len() > 0 {
        assert(forall|i: int|
            0 <= i < rings.drop_last().len() ==> pred(#[trigger] rings.drop_last()[i]));
        lemma_sort_pred(rings.drop_last(), pred);
        lemma_insert_by_area_pred(sort_rings_by_area(rings.drop_last()), rings.last(), pred);
    }
}

/// Placing rings keeps a ring predicate across every region boundary and
/// hole.
proof fn lemma_place_prefix_pred(
    tops0: Seq<RegionView>,
    rings: Seq<Seq<Point>>,
    n: int,
    pred: spec_fn(Seq<Point>) -> bool,
)
    requires
        regions_rings_pred(tops0, pred),
        forall|i: int| 0 <= i < n ==> pred(#[trigger] rings[i]),
        n <= rings.len(),
    ensures
        regions_rings_pred(place_prefix(tops0, rings, n), pred),
    decreases n,
{
    if n > 0 {
        lemma_place_prefix_pred(tops0, rings, n - 1, pred);
        let tops = place_prefix(tops0, rings, n - 1);
        let ring = rings[n - 1];
        match find_container_from(tops, ring, 0) {
            Some(i) => {
                lemma_find_container_in_range(tops, ring, 0);
                let updated = tops.update(
                    i,
                    RegionView {
                        exterior: tops[i].exterior,
                        interiors: tops[i].interiors.push(ring),
                    },
                );
                assert forall|a: int| 0 <= a < updated.len() implies pred(
                    (#[trigger] updated[a]).exterior,
                ) && (forall|j: int|
                    0 <= j < updated[a].interiors.len() ==> pred(
                        #[trigger] updated[a].interiors[j],
                    )) by {
                    if a != i {
                        assert(updated[a] == tops[a]);
                    } else {
                        assert(pred(tops[i].exterior));
                        assert forall|j: int| 0 <= j < updated[a].interiors.len() implies pred(
                            #[trigger] updated[a].interiors[j],
                        ) by {
                            if j < tops[i].interiors.len() {
                                assert(updated[a].interiors[j] == tops[i].interiors[j]);
                            } else {
                                assert(updated[a].interiors[j] == ring);
                            }
                        }
                    }
                }
            }
            None => {
                let pushed = tops.push(
                    RegionView { exterior: ring, interiors: Seq::<Seq<Point>>::empty() },
                );
                assert forall|a: int| 0 <= a < pushed.len() implies pred(
                    (#[trigger] pushed[a]).exterior,
                ) && (forall|j: int|
                    0 <= j < pushed[a].interiors.len() ==> pred(
                        #[trigger] pushed[a].interiors[j],
                    )) by {
                    if a < tops.len() {
                        assert(pushed[a] == tops[a]);
                    }
                }
            }
        }
    }
}

/// A found container index is always in range.
proof fn lemma_find_container_in_range(tops: Seq<RegionView>, ring: Seq<Point>, i: int)
    ensures
        match find_container_from(tops, ring, i) {
            Some(r) => i <= r < tops.len() && ring_inside(tops[r].exterior, ring),
            None => true,
        },
    decreases tops.len() - i,
{
    if 0 <= i < tops.len() {
        if !ring_inside(tops[i].exterior, ring) {
            lemma_find_container_in_range(tops, ring, i + 1);
        }
    }
}


/// A ring paired with twice its unsigned area, kept while sorting.
struct RingArea {
    ring: Vec<Point>,
    area2: u128,
}

/// The rings of a ring/area sequence.
spec fn ra_views(s: Seq<RingArea>) -> Seq<Seq<Point>> {
    s.map_values(|ra: RingArea| ra.ring@)
}

/// Every cached area is the ring's true area.
spec fn ra_wf(s: Seq<RingArea>) -> bool {
    forall|i: int| 0 <= i < s.len() ==> (#[trigger] s[i]).area2 as nat == ring_area2(s[i].ring@)
}

/// Where the area scan stops, the sorted insert splits the sequence there.
proof fn lemma_insert_by_area_split(s: Seq<Seq<Point>>, x: Seq<Point>, j: int)
    requires
        0 <= j <= s.len(),
        forall|k: int| j <= k < s.len() ==> ring_area2(#[trigger] s[k]) > ring_area2(x),
        j > 0 ==> ring_area2(s[j - 1]) <= ring_area2(x),
    ensures
        insert_by_area(s, x) =~= s.take(j) + seq![x] + s.skip(j),
    decreases s.len(),
{
    if s.len() == 0 {
    } else if j == s.len() {
        assert(!(ring_area2(x) < ring_area2(s.last())));
        assert(insert_by_area(s, x) == s.push(x));
        assert(s.push(x) =~= s.take(j) + seq![x] + s.skip(j));
    } else {
        assert(ring_area2(s.last()) > ring_area2(x));
        lemma_insert_by_area_split(s.drop_last(), x, j);
        assert(insert_by_area(s, x) == insert_by_area(s.drop_last(), x).push(s.last()));
        assert((s.drop_last().take(j) + seq![x] + s.drop_last().skip(j)).push(s.last()) =~= s.take(
            j,
        ) + seq![x] + s.skip(j));
    }
}

/// Insert a ring into the area-ascending vector, after any ring of equal
/// area.
fn insert_ring_sorted(out: &mut Vec<RingArea>, x: RingArea)
    requires
        ra_wf(old(out)@),
        x.area2 as nat == ring_area2(x.ring@),
    ensures
        ra_wf(final(out)@),
        ra_views(final(out)@) == insert_by_area(ra_views(old(out)@), x.ring@),
{
    let ghost pre = ra_views(out@);
    let mut j: usize = out.len();
    while j > 0 && out[j - 1].area2 > x.area2
        invariant
            0 <= j <= out@.len(),
            out@ == old(out)@,
            ra_wf(out@),
            x.area2 as nat == ring_area2(x.ring@),
            forall|k: int|
                j <= k < out@.len() ==> ring_area2(#[trigger] ra_views(out@)[k]) > ring_area2(
                    x.ring@,
                ),
        decreases j,
    {
        j = j - 1;
    }
    proof {
        if j > 0 {
            assert(out@[j - 1].area2 <= x.area2);
            assert(ring_area2(pre[j - 1]) <= ring_area2(x.ring@));
        }
        lemma_insert_by_area_split(pre, x.ring@, j as int);
    }
    let ghost xg = x;
    out.insert(j, x);
    proof {
        assert(ra_views(out@) =~= pre.take(j as int) + seq![xg.ring@] + pre.skip(j as int));
        assert forall|i: int| 0 <= i < out@.len() implies (#[trigger] out@[i]).area2 as nat
            == ring_area2(out@[i].ring@) by {
            if i < j {
                assert(out@[i] == old(out)@[i]);
            } else if i == j {
                assert(out@[i] == xg);
            } else {
                assert(out@[i] == old(out)@[i - 1]);
            }
        }
    }
}

/// A fresh copy of a point vector.
pub fn clone_ring(v: &Vec<Point>) -> (r: Vec<Point>)
    ensures
        r@ == v@,
{
    let mut out: Vec<Point> = Vec::new();
    let mut i: usize = 0;
    while i < v.len()
        invariant
            0 <= i <= v@.len(),
            out@ == v@.take(i as int),
        decreases v@.len() - i,
    {
        out.push(v[i]);
        proof {
            assert(out@ =~= v@.take(i + 1 as int));
        }
        i = i + 1;
    }
    proof {
        assert(v@.take(v@.len() as int) =~= v@);
    }
    out
}

/// The regions of a region vector.
spec fn tops_views(s: Seq<PolygonRegion>) -> Seq<RegionView> {
    s.map_values(|r: PolygonRegion| r@)
}

/// The first region whose boundary contains the ring, scanning in order.
fn find_container(tops: &Vec<PolygonRegion>, ring: &Vec<Point>) -> (r: Option<usize>)
    requires
        regions_rings_pred(tops_views(tops@), |r: Seq<Point>| ring_in_bounds(r)),
        ring_in_bounds(ring@),
    ensures
        (match r {
            Some(t) => t < tops@.len() && find_container_from(tops_views(tops@), ring@, 0)
                == Some(t as int),
            None => find_container_from(tops_views(tops@), ring@, 0) is None,
        }),
{
    let ghost tv = tops_views(tops@);
    let mut t: usize = 0;
    while t < tops.len()
        invariant
            0 <= t <= tops@.len(),
            tv == tops_views(tops@),
            regions_rings_pred(tv, |r: Seq<Point>| ring_in_bounds(r)),
            ring_in_bounds(ring@),
            find_container_from(tv, ring@, 0) == find_container_from(tv, ring@, t as int),
        decreases tops@.len() - t,
    {
        assert(tops@[t as int]@ == tv[t as int]);
        assert(ring_in_bounds(tv[t as int].exterior));
        if ring_contains_ring(&tops[t].exterior, ring) {
            proof {
                assert(find_container_from(tv, ring@, t as int) == Some(t as int));
            }
            return Some(t);
        }
        proof {
            assert(find_container_from(tv, ring@, t as int) == find_container_from(
                tv,
                ring@,
                t + 1 as int,
            ));
        }
        t = t + 1;
    }
    None
}

/// Widen a bounding box to take in every point of a ring. The box only
/// grows, and each bound it moves lands exactly on a ring point.
fn scan_ring_bbox(ring: &Vec<Point>, minp: &mut Point, maxp: &mut Point)
    requires
        ring_in_bounds(ring@),
        old(minp).in_bounds(),
        old(maxp).in_bounds(),
    ensures
        final(minp).in_bounds(),
        final(maxp).in_bounds(),
        final(minp).x <= old(minp).x,
        final(minp).y <= old(minp).y,
        final(maxp).x >= old(maxp).x,
        final(maxp).y >= old(maxp).y,
        ring_in_box(ring@, *final(minp), *final(maxp)),
        (exists|k: int| 0 <= k < ring@.len() && (#[trigger] ring@[k]).x == final(minp).x)
            || final(minp).x == old(minp).x,
        (exists|k: int| 0 <= k < ring@.len() && (#[trigger] ring@[k]).y == final(minp).y)
            || final(minp).y == old(minp).y,
        (exists|k: int| 0 <= k < ring@.len() && (#[trigger] ring@[k]).x == final(maxp).x)
            || final(maxp).x == old(maxp).x,
        (exists|k: int| 0 <= k < ring@.len() && (#[trigger] ring@[k]).y == final(maxp).y)
            || final(maxp).y == old(maxp).y,
        ring@.len() > 0 ==> final(minp).x <= final(maxp).x && final(minp).y <= final(maxp).y,
{
    let n = ring.len();
    let mut k: usize = 0;
    while k < n
        invariant
            n == ring@.len(),
            0 <= k <= n,
            ring_in_bounds(ring@),
            minp.in_bounds(),
            maxp.in_bounds(),
            minp.x <= old(minp).x,
            minp.y <= old(minp).y,
            maxp.x >= old(maxp).x,
            maxp.y >= old(maxp).y,
            forall|j: int|
                0 <= j < k ==> minp.x <= (#[trigger] ring@[j]).x <= maxp.x && minp.y <= ring@[j].y
                    <= maxp.y,
            (exists|j: int| 0 <= j < k && (#[trigger] ring@[j]).x == minp.x) || minp.x == old(
                minp,
            ).x,
            (exists|j: int| 0 <= j < k && (#[trigger] ring@[j]).y == minp.y) || minp.y == old(
                minp,
            ).y,
            (exists|j: int| 0 <= j < k && (#[trigger] ring@[j]).x == maxp.x) || maxp.x == old(
                maxp,
            ).x,
            (exists|j: int| 0 <= j < k && (#[trigger] ring@[j]).y == maxp.y) || maxp.y == old(
                maxp,
            ).y,
            k > 0 ==> minp.x <= maxp.x && minp.y <= maxp.y,
        decreases n - k,
    {
        let pt = ring[k];
        if pt.x <= minp.x {
            minp.x = pt.x;
        }
        if pt.y <= minp.y {
            minp.y = pt.y;
        }
        if pt.x >= maxp.x {
            maxp.x = pt.x;
        }
        if pt.y >= maxp.y {
            maxp.y = pt.y;
        }
        k = k + 1;
    }
}


/// A usable loop ring: all points inside the coordinate bound, and at
/// least one point.
pub open spec fn ring_ok(r: Seq<Point>) -> bool {
    ring_in_bounds(r) && r.len() >= 1
}

/// The `ring_ok` predicate as a value, shared by every preservation proof.
pub open spec fn ring_ok_pred() -> spec_fn(Seq<Point>) -> bool {
    |r: Seq<Point>| ring_ok(r)
}

/// The point rings of a polyline list.
pub open spec fn lines_rings(ls: Seq<Polyline>) -> Seq<Seq<Point>> {
    ls.map_values(|l: Polyline| l@.points)
}

/// Does the region store this exact point, on its boundary ring or on one
/// of its hole rings?
pub open spec fn region_has_point(r: RegionView, pt: Point) -> bool {
    r.exterior.contains(pt) || exists|j: int|
        0 <= j < r.interiors.len() && (#[trigger] r.interiors[j]).contains(pt)
}

/// Does some region of the shape store this exact point?
pub open spec fn shape_has_point(parts: Seq<RegionView>, pt: Point) -> bool {
    exists|i: int| 0 <= i < parts.len() && region_has_point(#[trigger] parts[i], pt)
}

/// Does some stored point have this x coordinate?
pub open spec fn shape_x_at(parts: Seq<RegionView>, v: int) -> bool {
    exists|pt: Point| shape_has_point(parts, pt) && pt.x == v
}

/// Does some stored point have this y coordinate?
pub open spec fn shape_y_at(parts: Seq<RegionView>, v: int) -> bool {
    exists|pt: Point| shape_has_point(parts, pt) && pt.y == v
}

/// Every point of a region's own ring is a point of the shape.
proof fn lemma_ring_points_of_shape(tv: Seq<RegionView>, pi: int, ring: Seq<Point>)
    requires
        0 <= pi < tv.len(),
        ring == tv[pi].exterior || exists|j: int|
            0 <= j < tv[pi].interiors.len() && #[trigger] tv[pi].interiors[j] == ring,
    ensures
        forall|k: int| 0 <= k < ring.len() ==> shape_has_point(tv, #[trigger] ring[k]),
{
    assert forall|k: int| 0 <= k < ring.len() implies shape_has_point(tv, #[trigger] ring[k]) by {
        assert(ring.contains(ring[k]));
        assert(region_has_point(tv[pi], ring[k]));
    }
}

impl Shape {
    /// Build a shape from stitched loops. Every loop is treated as closed.
    /// The loops are ordered by unsigned area, ascending; the last
    /// minimum-area loop opens the first top-level region; each further
    /// loop, in area order, becomes a hole of the first region whose
    /// boundary ring contains all of its vertices, or a new top-level
    /// region. The bounding box of all points is computed alongside; an
    /// empty input leaves the inverted sentinel box.
    pub fn from_lines(lines: Vec<Polyline>) -> (r: Shape)
        requires
            forall|i: int| 0 <= i < lines@.len() ==> ring_ok((#[trigger] lines@[i])@.points),
        ensures
            r@.parts == shape_from_rings(lines_rings(lines@)),
            r.wf(),
            r@.parts.len() == 0 ==> r.min == (Point { x: COORD_LIMIT, y: COORD_LIMIT }) && r.max
                == (Point { x: (-COORD_LIMIT) as i64, y: (-COORD_LIMIT) as i64 }),
            r@.parts.len() > 0 ==> shape_x_at(r@.parts, r.min.x as int) && shape_y_at(
                r@.parts,
                r.min.y as int,
            ) && shape_x_at(r@.parts, r.max.x as int) && shape_y_at(r@.parts, r.max.y as int),
    {
        let ghost rings = lines_rings(lines@);
        proof {
            assert forall|i: int| 0 <= i < rings.len() implies ring_ok_pred()(
                #[trigger] rings[i],
            ) by {
                assert(rings[i] == lines@[i]@.points);
            }
        }
        // Order the loops by unsigned area, ascending and stable.
        let mut sorted: Vec<RingArea> = Vec::new();
        let mut i: usize = 0;
        while i < lines.len()
            invariant
                0 <= i <= lines@.len(),
                rings == lines_rings(lines@),
                forall|k: int| 0 <= k < rings.len() ==> ring_ok(#[trigger] rings[k]),
                ra_wf(sorted@),
                ra_views(sorted@) == sort_rings_by_area(rings.take(i as int)),
            decreases lines@.len() - i,
        {
            assert(rings[i as int] == lines@[i as int]@.points);
            let pts = clone_ring(lines[i].points());
            let a2 = ring_double_area(&pts);
            insert_ring_sorted(&mut sorted, RingArea { ring: pts, area2: a2 });
            proof {
                assert(rings.take(i + 1 as int).drop_last() =~= rings.take(i as int));
                assert(rings.take(i + 1 as int).last() == rings[i as int]);
                assert(sort_rings_by_area(rings.take(i + 1 as int)) == insert_by_area(
                    sort_rings_by_area(rings.take(i as int)),
                    rings[i as int],
                ));
            }
            i = i + 1;
        }
        proof {
            assert(rings.take(rings.len() as int) =~= rings);
        }
        let ghost sviews = ra_views(sorted@);
        proof {
            lemma_sort_pred(rings, ring_ok_pred());
            assert(sviews.len() == rings.len());
            assert forall|k: int| 0 <= k < sviews.len() implies ring_ok(#[trigger] sviews[k]) by {
                assert(ring_ok_pred()(sviews[k]));
            }
        }
        if sorted.len() == 0 {
            let r = Shape {
                parts: Vec::new(),
                min: Point { x: COORD_LIMIT, y: COORD_LIMIT },
                max: Point { x: -COORD_LIMIT, y: -COORD_LIMIT },
            };
            proof {
                assert(r@.parts =~= Seq::<RegionView>::empty());
                assert(r@.parts == shape_from_rings(rings));
            }
            return r;
        }
        // Find the last loop of minimum area.
        let mut best: usize = 0;
        let mut i: usize = 1;
        proof {
            assert(sviews.take(1).len() == 1);
            assert(last_min_index(sviews.take(1)) == 0);
        }
        while i < sorted.len()
            invariant
                1 <= i <= sorted@.len(),
                sviews == ra_views(sorted@),
                ra_wf(sorted@),
                sorted@.len() == sviews.len(),
                0 <= best < i,
                best as int == last_min_index(sviews.take(i as int)),
            decreases sorted@.len() - i,
        {
            proof {
                assert(sviews.take(i + 1 as int).drop_last() =~= sviews.take(i as int));
                assert(sviews.take(i + 1 as int).last() == sviews[i as int]);
                assert(sviews.take(i + 1 as int)[best as int] == sviews[best as int]);
                assert(sorted@[i as int].area2 as nat == ring_area2(sviews[i as int]));
                assert(sorted@[best as int].area2 as nat == ring_area2(sviews[best as int]));
            }
            if sorted[i].area2 <= sorted[best].area2 {
                best = i;
            }
            proof {
                assert(best as int == last_min_index(sviews.take(i + 1 as int)));
            }
            i = i + 1;
        }
        proof {
            assert(sviews.take(sviews.len() as int) =~= sviews);
            lemma_last_min_index_in_range(sviews);
        }
        // The minimum-area loop opens the first top-level region.
        let first_ra = sorted.remove(best);
        let ghost rest = sviews.remove(best as int);
        proof {
            assert(first_ra.ring@ == sviews[best as int]);
            assert(ra_views(sorted@) =~= rest);
            assert forall|k: int| 0 <= k < sorted@.len() implies (#[trigger] sorted@[k]).area2
                as nat == ring_area2(sorted@[k].ring@) by {}
            assert forall|k: int| 0 <= k < rest.len() implies ring_ok(#[trigger] rest[k]) by {
                if k < best as int {
                    assert(rest[k] == sviews[k]);
                } else {
                    assert(rest[k] == sviews[k + 1]);
                }
            }
        }
        let mut tops: Vec<PolygonRegion> = Vec::new();
        tops.push(PolygonRegion { exterior: first_ra.ring, interiors: Vec::new() });
        let ghost init_tops = tops_views(tops@);
        proof {
            assert(init_tops =~~= seq![
                RegionView {
                    exterior: sviews[best as int],
                    interiors: Seq::<Seq<Point>>::empty(),
                },
            ]);
            assert(ring_ok(sviews[best as int]));
            assert(regions_rings_pred(init_tops, ring_ok_pred()));
        }
        // Place every other loop, in area order.
        let mut i: usize = 0;
        while i < sorted.len()
            invariant
                0 <= i <= rest.len(),
                sorted@.len() == rest.len(),
                ra_views(sorted@) == rest,
                ra_wf(sorted@),
                forall|k: int| 0 <= k < rest.len() ==> ring_ok(#[trigger] rest[k]),
                regions_rings_pred(init_tops, ring_ok_pred()),
                tops_views(tops@) == place_prefix(init_tops, rest, i as int),
            decreases rest.len() - i,
        {
            let ghost tv = tops_views(tops@);
            proof {
                lemma_place_prefix_pred(init_tops, rest, i as int, ring_ok_pred());
                assert forall|a: int| 0 <= a < tv.len() implies ring_in_bounds(
                    (#[trigger] tv[a]).exterior,
                ) && (forall|j: int|
                    0 <= j < tv[a].interiors.len() ==> ring_in_bounds(
                        #[trigger] tv[a].interiors[j],
                    )) by {
                    assert(ring_ok_pred()(tv[a].exterior));
                    assert forall|j: int| 0 <= j < tv[a].interiors.len() implies ring_in_bounds(
                        #[trigger] tv[a].interiors[j],
                    ) by {
                        assert(ring_ok_pred()(tv[a].interiors[j]));
                    }
                }
                assert(rest[i as int] == sorted@[i as int].ring@);
                assert(ring_ok(rest[i as int]));
            }
            let cand_ring = clone_ring(&sorted[i].ring);
            let found = find_container(&tops, &cand_ring);
            match found {
                Some(t) => {
                    let mut reg = tops.remove(t);
                    let ghost regv = reg@;
                    reg.interiors.push(cand_ring);
                    proof {
                        assert(reg@.interiors =~= regv.interiors.push(rest[i as int]));
                        assert(reg@ =~= (RegionView {
                            exterior: regv.exterior,
                            interiors: regv.interiors.push(rest[i as int]),
                        }));
                    }
                    tops.insert(t, reg);
                    proof {
                        assert(tops_views(tops@) =~~= tv.update(
                            t as int,
                            RegionView {
                                exterior: tv[t as int].exterior,
                                interiors: tv[t as int].interiors.push(rest[i as int]),
                            },
                        ));
                        assert(tops_views(tops@) == place_ring(tv, rest[i as int]));
                        assert(tops_views(tops@) == place_prefix(init_tops, rest, i + 1 as int));
                    }
                }
                None => {
                    tops.push(PolygonRegion { exterior: cand_ring, interiors: Vec::new() });
                    proof {
                        assert(tops_views(tops@) =~~= tv.push(
                            RegionView {
                                exterior: rest[i as int],
                                interiors: Seq::<Seq<Point>>::empty(),
                            },
                        ));
                        assert(tops_views(tops@) == place_ring(tv, rest[i as int]));
                        assert(tops_views(tops@) == place_prefix(init_tops, rest, i + 1 as int));
                    }
                }
            }
            i = i + 1;
        }
        let ghost fin_tv = tops_views(tops@);
        proof {
            assert(fin_tv == build_parts(sviews));
            assert(fin_tv == shape_from_rings(rings));
            lemma_place_prefix_pred(init_tops, rest, rest.len() as int, ring_ok_pred());
        }
        // Sweep the finished regions for the bounding box.
        let mut minp = Point { x: COORD_LIMIT, y: COORD_LIMIT };
        let mut maxp = Point { x: -COORD_LIMIT, y: -COORD_LIMIT };
        let mut pi: usize = 0;
        while pi < tops.len()
            invariant
                0 <= pi <= tops@.len(),
                fin_tv == tops_views(tops@),
                tops@.len() == fin_tv.len(),
                regions_rings_pred(fin_tv, ring_ok_pred()),
                minp.in_bounds(),
                maxp.in_bounds(),
                forall|k: int|
                    0 <= k < pi ==> region_in_box(#[trigger] fin_tv[k], minp, maxp),
                pi > 0 ==> shape_x_at(fin_tv, minp.x as int) && shape_y_at(fin_tv, minp.y as int)
                    && shape_x_at(fin_tv, maxp.x as int) && shape_y_at(fin_tv, maxp.y as int),
                pi == 0 ==> minp == (Point { x: COORD_LIMIT, y: COORD_LIMIT }) && maxp == (Point {
                    x: (-COORD_LIMIT) as i64,
                    y: (-COORD_LIMIT) as i64,
                }),
            decreases tops@.len() - pi,
        {
            let ghost old_min = minp;
            let ghost old_max = maxp;
            let ghost extv = fin_tv[pi as int].exterior;
            proof {
                assert(tops@[pi as int]@ == fin_tv[pi as int]);
                assert(ring_ok_pred()(extv));
            }
            scan_ring_bbox(&tops[pi].exterior, &mut minp, &mut maxp);
            proof {
                lemma_ring_points_of_shape(fin_tv, pi as int, extv);
                assert(shape_x_at(fin_tv, minp.x as int)) by {
                    if exists|k: int| 0 <= k < extv.len() && (#[trigger] extv[k]).x == minp.x {
                        let k = choose|k: int|
                            0 <= k < extv.len() && (#[trigger] extv[k]).x == minp.x;
                        assert(shape_has_point(fin_tv, extv[k]));
                    } else {
                        if pi == 0 {
                            assert(extv[0].x >= minp.x && extv[0].x <= COORD_LIMIT);
                            assert(extv[0].x == minp.x);
                            assert(shape_has_point(fin_tv, extv[0]));
                        }
                    }
                }
                assert(shape_y_at(fin_tv, minp.y as int)) by {
                    if exists|k: int| 0 <= k < extv.len() && (#[trigger] extv[k]).y == minp.y {
                        let k = choose|k: int|
                            0 <= k < extv.len() && (#[trigger] extv[k]).y == minp.y;
                        assert(shape_has_point(fin_tv, extv[k]));
                    } else {
                        if pi == 0 {
                            assert(extv[0].y == minp.y);
                            assert(shape_has_point(fin_tv, extv[0]));
                        }
                    }
                }
                assert(shape_x_at(fin_tv, maxp.x as int)) by {
                    if exists|k: int| 0 <= k < extv.len() && (#[trigger] extv[k]).x == maxp.x {
                        let k = choose|k: int|
                            0 <= k < extv.len() && (#[trigger] extv[k]).x == maxp.x;
                        assert(shape_has_point(fin_tv, extv[k]));
                    } else {
                        if pi == 0 {
                            assert(extv[0].x <= maxp.x && extv[0].x >= -COORD_LIMIT);
                            assert(extv[0].x == maxp.x);
                            assert(shape_has_point(fin_tv, extv[0]));
                        }
                    }
                }
                assert(shape_y_at(fin_tv, maxp.y as int)) by {
                    if exists|k: int| 0 <= k < extv.len() && (#[trigger] extv[k]).y == maxp.y {
                        let k = choose|k: int|
                            0 <= k < extv.len() && (#[trigger] extv[k]).y == maxp.y;
                        assert(shape_has_point(fin_tv, extv[k]));
                    } else {
                        if pi == 0 {
                            assert(extv[0].y == maxp.y);
                            assert(shape_has_point(fin_tv, extv[0]));
                        }
                    }
                }
            }
            let m = tops[pi].interiors.len();
            let mut rj: usize = 0;
            while rj < m
                invariant
                    0 <= rj <= m,
                    0 <= pi < tops@.len(),
                    m == fin_tv[pi as int].interiors.len(),
                    fin_tv == tops_views(tops@),
                    tops@.len() == fin_tv.len(),
                    regions_rings_pred(fin_tv, ring_ok_pred()),
                    minp.in_bounds(),
                    maxp.in_bounds(),
                    forall|k: int|
                        0 <= k < pi ==> region_in_box(#[trigger] fin_tv[k], minp, maxp),
                    ring_in_box(fin_tv[pi as int].exterior, minp, maxp),
                    forall|k: int|
                        0 <= k < rj ==> ring_in_box(
                            #[trigger] fin_tv[pi as int].interiors[k],
                            minp,
                            maxp,
                        ),
                    shape_x_at(fin_tv, minp.x as int),
                    shape_y_at(fin_tv, minp.y as int),
                    shape_x_at(fin_tv, maxp.x as int),
                    shape_y_at(fin_tv, maxp.y as int),
                decreases m - rj,
            {
                let ghost holev = fin_tv[pi as int].interiors[rj as int];
                proof {
                    assert(tops@[pi as int]@ == fin_tv[pi as int]);
                    assert(tops@[pi as int].interiors@[rj as int]@ == holev);
                    assert(ring_ok_pred()(holev));
                }
                scan_ring_bbox(&tops[pi].interiors[rj], &mut minp, &mut maxp);
                proof {
                    assert(exists|j: int|
                        0 <= j < fin_tv[pi as int].interiors.len() && #[trigger] fin_tv[
                            pi as int
                        ].interiors[j] == holev);
                    lemma_ring_points_of_shape(fin_tv, pi as int, holev);
                    assert(shape_x_at(fin_tv, minp.x as int)) by {
                        if exists|k: int|
                            0 <= k < holev.len() && (#[trigger] holev[k]).x == minp.x {
                            let k = choose|k: int|
                                0 <= k < holev.len() && (#[trigger] holev[k]).x == minp.x;
                            assert(shape_has_point(fin_tv, holev[k]));
                        }
                    }
                    assert(shape_y_at(fin_tv, minp.y as int)) by {
                        if exists|k: int|
                            0 <= k < holev.len() && (#[trigger] holev[k]).y == minp.y {
                            let k = choose|k: int|
                                0 <= k < holev.len() && (#[trigger] holev[k]).y == minp.y;
                            assert(shape_has_point(fin_tv, holev[k]));
                        }
                    }
                    assert(shape_x_at(fin_tv, maxp.x as int)) by {
                        if exists|k: int|
                            0 <= k < holev.len() && (#[trigger] holev[k]).x == maxp.x {
                            let k = choose|k: int|
                                0 <= k < holev.len() && (#[trigger] holev[k]).x == maxp.x;
                            assert(shape_has_point(fin_tv, holev[k]));
                        }
                    }
                    assert(shape_y_at(fin_tv, maxp.y as int)) by {
                        if exists|k: int|
                            0 <= k < holev.len() && (#[trigger] holev[k]).y == maxp.y {
                            let k = choose|k: int|
                                0 <= k < holev.len() && (#[trigger] holev[k]).y == maxp.y;
                            assert(shape_has_point(fin_tv, holev[k]));
                        }
                    }
                }
                rj = rj + 1;
            }
            proof {
                assert(region_in_box(fin_tv[pi as int], minp, maxp)) by {
                    assert(ring_ok_pred()(fin_tv[pi as int].exterior));
                    assert forall|k: int|
                        0 <= k < fin_tv[pi as int].interiors.len() implies ring_in_box(
                        #[trigger] fin_tv[pi as int].interiors[k],
                        minp,
                        maxp,
                    ) && fin_tv[pi as int].interiors[k].len() >= 1 by {
                        assert(ring_ok_pred()(fin_tv[pi as int].interiors[k]));
                    }
                }
            }
            pi = pi + 1;
        }
        let r = Shape { parts: tops, min: minp, max: maxp };
        proof {
            assert(r@.parts == fin_tv);
        }
        r
    }

    /// The bounding box as a four-corner rectangle region, wound from the
    /// minimum corner.
    pub fn aabb(&self) -> (r: PolygonRegion)
        ensures
            r@.exterior == seq![
                self.min,
                Point { x: self.max.x, y: self.min.y },
                self.max,
                Point { x: self.min.x, y: self.max.y },
            ],
            r@.interiors.len() == 0,
    {
        let mut corners: Vec<Point> = Vec::new();
        corners.push(self.min);
        corners.push(Point { x: self.max.x, y: self.min.y });
        corners.push(self.max);
        corners.push(Point { x: self.min.x, y: self.max.y });
        let r = PolygonRegion { exterior: corners, interiors: Vec::new() };
        proof {
            assert(r@.exterior =~= seq![
                self.min,
                Point { x: self.max.x, y: self.min.y },
                self.max,
                Point { x: self.min.x, y: self.max.y },
            ]);
            assert(r@.interiors =~= Seq::<Seq<Point>>::empty());
        }
        r
    }
}

} // verus!
