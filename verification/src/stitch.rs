//! Segment stitching: grouping a stream of directed segments into open or
//! closed polylines.
//!
//! A single point buffer is kept. Each incoming segment either extends the
//! buffer (when its start equals the buffer's last point, compared exactly)
//! or finishes the buffer into a polyline and seeds a new one. A finished
//! buffer whose first and last points are equal becomes a closed polyline
//! with the duplicated last point dropped; otherwise it stays open.

use vstd::prelude::*;
use crate::geom::Point;
use crate::geom::Segment;

verus! {

/// The mathematical image of a polyline: its stored points, and whether the
/// chain is closed (an implicit edge runs from the last point back to the
/// first; a closed chain never repeats its start point at the end).
#[verifier::ext_equal]
pub struct PolyView {
    pub closed: bool,
    pub points: Seq<Point>,
}

/// An ordered chain of points, tagged closed or open. Immutable once built
/// by stitching.
#[derive(Debug, Clone, PartialEq)]
pub enum Polyline {
    Closed(Vec<Point>),
    Open(Vec<Point>),
}

impl View for Polyline {
    type V = PolyView;

    open spec fn view(&self) -> PolyView {
        match self {
            Polyline::Closed(v) => PolyView { closed: true, points: v@ },
            Polyline::Open(v) => PolyView { closed: false, points: v@ },
        }
    }
}

impl Polyline {
    /// The stored points of the chain.
    pub fn points(&self) -> (r: &Vec<Point>)
        ensures
            r@ == self@.points,
    {
        match self {
            Polyline::Closed(v) => v,
            Polyline::Open(v) => v,
        }
    }

    /// Whether the chain is closed.
    pub fn is_closed(&self) -> (r: bool)
        ensures
            r == self@.closed,
    {
        match self {
            Polyline::Closed(_) => true,
            Polyline::Open(_) => false,
        }
    }
}

/// What finishing a point buffer yields: closed with the duplicate last
/// point dropped when the ends meet exactly, open otherwise.
pub open spec fn finished_poly(buf: Seq<Point>) -> PolyView {
    if buf.len() >= 2 && buf.first() == buf.last() {
        PolyView { closed: true, points: buf.drop_last() }
    } else {
        PolyView { closed: false, points: buf }
    }
}

/// The stitcher state after reading a sequence of segments: the finished
/// polylines so far, and the current point buffer.
pub open spec fn stitch_state(segs: Seq<Segment>) -> (Seq<PolyView>, Seq<Point>)
    decreases segs.len(),
{
    if segs.len() == 0 {
        (Seq::<PolyView>::empty(), Seq::<Point>::empty())
    } else {
        let prev = stitch_state(segs.drop_last());
        let seg = segs.last();
        if prev.1.len() == 0 {
            (prev.0, seq![seg.p1, seg.p2])
        } else if prev.1.last() == seg.p1 {
            (prev.0, prev.1.push(seg.p2))
        } else {
            (prev.0.push(finished_poly(prev.1)), seq![seg.p1, seg.p2])
        }
    }
}

/// The polylines that stitching a whole segment list yields: the finished
/// ones, plus the final buffer flushed if it is non-empty.
pub open spec fn stitch_spec(segs: Seq<Segment>) -> Seq<PolyView> {
    let st = stitch_state(segs);
    if st.1.len() == 0 {
        st.0
    } else {
        st.0.push(finished_poly(st.1))
    }
}

/// The start points of a segment sequence, in order.
pub open spec fn seg_starts(segs: Seq<Segment>) -> Seq<Point> {
    segs.map_values(|s: Segment| s.p1)
}

/// The point buffer that grows a single polyline while segments stream in.
#[derive(Debug)]
pub struct LineBuilder {
    pub points: Vec<Point>,
}

impl LineBuilder {
    /// The buffered points.
    pub open spec fn buffer(&self) -> Seq<Point> {
        self.points@
    }

    /// Is the buffer empty?
    pub fn is_empty(&self) -> (r: bool)
        ensures
            r == (self.buffer().len() == 0),
    {
        self.points.len() == 0
    }

    /// Try to take one more segment. An empty buffer is seeded with both
    /// endpoints; a buffer whose last point equals the segment's start grows
    /// by the segment's end; otherwise the segment is handed back untouched,
    /// telling the caller to finish this line and start a new one.
    pub fn try_add(&mut self, seg: Segment) -> (r: Result<(), Segment>)
        ensures
            old(self).buffer().len() == 0 ==> r == Ok::<(), Segment>(())
                && final(self).buffer() == seq![seg.p1, seg.p2],
            old(self).buffer().len() > 0 && old(self).buffer().last() == seg.p1
                ==> r == Ok::<(), Segment>(())
                    && final(self).buffer() == old(self).buffer().push(seg.p2),
            old(self).buffer().len() > 0 && old(self).buffer().last() != seg.p1
                ==> r == Err::<(), Segment>(seg)
                    && final(self).buffer() == old(self).buffer(),
    {
        if self.points.len() == 0 {
            self.points.push(seg.p1);
            self.points.push(seg.p2);
            assert(self.buffer() =~= seq![seg.p1, seg.p2]);
            Ok(())
        } else {
            let last = self.points[self.points.len() - 1];
            if last == seg.p1 {
                self.points.push(seg.p2);
                Ok(())
            } else {
                Err(seg)
            }
        }
    }

    /// Finish the buffer into a polyline, closed exactly when its first and
    /// last points are equal, with the duplicated last point dropped.
    pub fn finish(self) -> (r: Polyline)
        ensures
            r@ == finished_poly(self.buffer()),
    {
        let mut points = self.points;
        if points.len() >= 2 {
            let first = points[0];
            let last = points[points.len() - 1];
            if first == last {
                points.pop();
                return Polyline::Closed(points);
            }
        }
        Polyline::Open(points)
    }
}

impl Default for LineBuilder {
    /// An empty buffer.
    fn default() -> (r: LineBuilder)
        ensures
            r.buffer().len() == 0,
    {
        LineBuilder { points: Vec::new() }
    }
}

/// Stitch a whole segment list, in its given order, into polylines.
pub fn stitch_segments(segs: &Vec<Segment>) -> (r: Vec<Polyline>)
    ensures
        r@.map_values(|p: Polyline| p@) == stitch_spec(segs@),
{
    let mut out: Vec<Polyline> = Vec::new();
    let mut builder = LineBuilder::default();
    let mut i: usize = 0;
    while i < segs.len()
        invariant
            0 <= i <= segs@.len(),
            out@.map_values(|p: Polyline| p@) =~= stitch_state(segs@.take(i as int)).0,
            builder.buffer() =~= stitch_state(segs@.take(i as int)).1,
        decreases segs@.len() - i,
    {
        let seg = segs[i];
        proof {
            assert(segs@.take(i + 1 as int).drop_last() =~= segs@.take(i as int));
            assert(segs@.take(i + 1 as int).last() == segs@[i as int]);
        }
        let ghost pre_out = out@.map_values(|p: Polyline| p@);
        match builder.try_add(seg) {
            Ok(()) => {}
            Err(rest) => {
                let full = builder;
                builder = LineBuilder::default();
                out.push(full.finish());
                let added = builder.try_add(rest);
                assert(added == Ok::<(), Segment>(()));
                assert(out@.map_values(|p: Polyline| p@) =~= pre_out.push(
                    finished_poly(stitch_state(segs@.take(i as int)).1),
                ));
            }
        }
        i = i + 1;
    }
    proof {
        assert(segs@.take(segs@.len() as int) =~= segs@);
    }
    if !builder.is_empty() {
        let ghost pre_out = out@.map_values(|p: Polyline| p@);
        out.push(builder.finish());
        assert(out@.map_values(|p: Polyline| p@) =~= pre_out.push(
            finished_poly(stitch_state(segs@).1),
        ));
    }
    out
}

/// After reading a connected chain (each segment's end is the next one's
/// start), the stitcher holds no finished polyline and its buffer holds the
/// segment starts followed by the last segment's end.
proof fn lemma_stitch_chain(segs: Seq<Segment>, n: int)
    requires
        1 <= n <= segs.len(),
        forall|i: int|
            0 <= i < segs.len() - 1 ==> (#[trigger] segs[i]).p2 == segs[i + 1].p1,
    ensures
        stitch_state(segs.take(n)).0 =~= Seq::<PolyView>::empty(),
        stitch_state(segs.take(n)).1 =~= seg_starts(segs.take(n)).push(segs[n - 1].p2),
    decreases n,
{
    if n == 1 {
        assert(segs.take(1).drop_last() =~= Seq::<Segment>::empty());
        assert(stitch_state(Seq::<Segment>::empty())
            == (Seq::<PolyView>::empty(), Seq::<Point>::empty()));
        assert(stitch_state(segs.take(1)).1 =~= seq![segs[0].p1, segs[0].p2]);
        assert(seg_starts(segs.take(1)).push(segs[0].p2) =~= seq![segs[0].p1, segs[0].p2]);
    } else {
        lemma_stitch_chain(segs, n - 1);
        assert(segs.take(n).drop_last() =~= segs.take(n - 1));
        let prev = stitch_state(segs.take(n - 1));
        assert(prev.1.last() == segs[n - 2].p2);
        assert(segs[n - 2].p2 == segs[n - 1].p1);
        assert(segs.take(n).last() == segs[n - 1]);
        assert(stitch_state(segs.take(n)).1 =~= prev.1.push(segs[n - 1].p2));
        assert(seg_starts(segs.take(n)) =~= seg_starts(segs.take(n - 1)).push(segs[n - 1].p1));
        assert(stitch_state(segs.take(n)).1 =~= seg_starts(segs.take(n)).push(segs[n - 1].p2));
    }
}

/// A segment list that walks exactly one closed loop (each segment's end is
/// the next one's start and the last end returns to the first start)
/// stitches to a single closed polyline whose points are exactly the
/// segment start points: the duplicated start/end point is collapsed, so
/// there are as many stored points as distinct loop corners.
pub proof fn lemma_stitch_closed_loop(segs: Seq<Segment>)
    requires
        segs.len() >= 1,
        forall|i: int|
            0 <= i < segs.len() - 1 ==> (#[trigger] segs[i]).p2 == segs[i + 1].p1,
        segs.last().p2 == segs.first().p1,
    ensures
        stitch_spec(segs) =~= seq![PolyView { closed: true, points: seg_starts(segs) }],
        stitch_spec(segs)[0].points.len() == segs.len(),
{
    let n = segs.len() as int;
    lemma_stitch_chain(segs, n);
    assert(segs.take(n) =~= segs);
    let buf = stitch_state(segs).1;
    assert(buf =~= seg_starts(segs).push(segs[n - 1].p2));
    assert(buf.len() == n + 1);
    assert(buf.first() == segs[0].p1);
    assert(buf.last() == segs[n - 1].p2);
    assert(buf.first() == buf.last());
    assert(finished_poly(buf).points =~= seg_starts(segs));
}

/// A segment list that walks a single open chain (each segment's end is the
/// next one's start, and the last end does not return to the first start)
/// stitches to a single open polyline with one more point than there are
/// segments.
pub proof fn lemma_stitch_open_chain(segs: Seq<Segment>)
    requires
        segs.len() >= 1,
        forall|i: int|
            0 <= i < segs.len() - 1 ==> (#[trigger] segs[i]).p2 == segs[i + 1].p1,
        segs.last().p2 != segs.first().p1,
    ensures
        stitch_spec(segs) =~= seq![
            PolyView { closed: false, points: seg_starts(segs).push(segs.last().p2) },
        ],
        stitch_spec(segs)[0].points.len() == segs.len() + 1,
{
    let n = segs.len() as int;
    lemma_stitch_chain(segs, n);
    assert(segs.take(n) =~= segs);
    let buf = stitch_state(segs).1;
    assert(buf =~= seg_starts(segs).push(segs[n - 1].p2));
    assert(buf.first() == segs[0].p1);
    assert(buf.last() == segs[n - 1].p2);
    assert(buf.first() != buf.last());
}

/// A sequence rotated left by `k` places.
pub open spec fn rotated<A>(s: Seq<A>, k: int) -> Seq<A> {
    s.subrange(k, s.len() as int) + s.subrange(0, k)
}

/// Rotating a sequence keeps its set of elements.
proof fn lemma_rotated_to_set<A>(s: Seq<A>, k: int)
    requires
        0 <= k <= s.len(),
    ensures
        rotated(s, k).to_set() =~= s.to_set(),
{
    let r = rotated(s, k);
    assert forall|x: A| r.to_set().contains(x) implies s.to_set().contains(x) by {
        let i = choose|i: int| 0 <= i < r.len() && r[i] == x;
        if i < s.len() - k {
            assert(s[i + k] == x);
        } else {
            assert(s[i - (s.len() - k)] == x);
        }
    }
    assert forall|x: A| s.to_set().contains(x) implies r.to_set().contains(x) by {
        let i = choose|i: int| 0 <= i < s.len() && s[i] == x;
        if i >= k {
            assert(r[i - k] == x);
        } else {
            assert(r[i + (s.len() - k)] == x);
        }
    }
}

/// Feeding the segments of one closed loop in a rotated traversal order may
/// start the stored chain elsewhere, but it still stitches to a single
/// closed polyline over exactly the same set of points.
pub proof fn lemma_stitch_closed_loop_rotated(segs: Seq<Segment>, k: int)
    requires
        segs.len() >= 1,
        0 <= k <= segs.len(),
        forall|i: int|
            0 <= i < segs.len() - 1 ==> (#[trigger] segs[i]).p2 == segs[i + 1].p1,
        segs.last().p2 == segs.first().p1,
    ensures
        stitch_spec(rotated(segs, k)).len() == 1,
        stitch_spec(rotated(segs, k))[0].closed,
        stitch_spec(segs).len() == 1,
        stitch_spec(segs)[0].closed,
        stitch_spec(rotated(segs, k))[0].points.to_set() =~= stitch_spec(segs)[0].points.to_set(),
{
    let r = rotated(segs, k);
    let n = segs.len() as int;
    assert(r.len() == n);
    assert forall|i: int| 0 <= i < r.len() - 1 implies (#[trigger] r[i]).p2 == r[i + 1].p1 by {
        if i < n - k - 1 {
            assert(r[i] == segs[i + k]);
            assert(r[i + 1] == segs[i + k + 1]);
        } else if i == n - k - 1 {
            assert(r[i] == segs[n - 1]);
            assert(r[i + 1] == segs[0]);
        } else {
            assert(r[i] == segs[i - (n - k)]);
            assert(r[i + 1] == segs[i + 1 - (n - k)]);
        }
    }
    if k == 0 || k == n {
        assert(r =~= segs);
    } else {
        assert(r.last() == segs[k - 1]);
        assert(r.first() == segs[k]);
    }
    lemma_stitch_closed_loop(segs);
    lemma_stitch_closed_loop(r);
    assert(seg_starts(r) =~= rotated(seg_starts(segs), k));
    lemma_rotated_to_set(seg_starts(segs), k);
}


/// Both endpoints of every segment are inside the coordinate bound.
pub open spec fn segs_in_bounds(segs: Seq<Segment>) -> bool {
    forall|i: int|
        0 <= i < segs.len() ==> (#[trigger] segs[i]).p1.in_bounds() && segs[i].p2.in_bounds()
}

/// A polyline with at least one stored point, all inside the coordinate
/// bound.
pub open spec fn poly_points_ok(pv: PolyView) -> bool {
    pv.points.len() >= 1 && (forall|j: int|
        0 <= j < pv.points.len() ==> (#[trigger] pv.points[j]).in_bounds())
}

/// Stitching bounded segments leaves only bounded, non-empty chains: the
/// buffer is empty or holds at least two bounded points, and every
/// finished polyline keeps at least one bounded point.
proof fn lemma_stitch_state_ok(segs: Seq<Segment>)
    requires
        segs_in_bounds(segs),
    ensures
        stitch_state(segs).1.len() == 0 || stitch_state(segs).1.len() >= 2,
        forall|j: int|
            0 <= j < stitch_state(segs).1.len() ==> (#[trigger] stitch_state(segs).1[j]).in_bounds(),
        forall|i: int|
            0 <= i < stitch_state(segs).0.len() ==> poly_points_ok(#[trigger] stitch_state(segs).0[i]),
    decreases segs.len(),
{
    if segs.len() > 0 {
        assert(segs_in_bounds(segs.drop_last())) by {
            assert forall|i: int|
                0 <= i < segs.drop_last().len() implies (#[trigger] segs.drop_last()[i]).p1.in_bounds()
                && segs.drop_last()[i].p2.in_bounds() by {
                assert(segs.drop_last()[i] == segs[i]);
            }
        }
        lemma_stitch_state_ok(segs.drop_last());
        let prev = stitch_state(segs.drop_last());
        let seg = segs.last();
        if prev.1.len() != 0 && prev.1.last() != seg.p1 {
            assert(poly_points_ok(finished_poly(prev.1)));
        }
    }
}

/// Every polyline that stitching bounded segments yields holds at least
/// one point, and only bounded points.
pub proof fn lemma_stitch_spec_ok(segs: Seq<Segment>)
    requires
        segs_in_bounds(segs),
    ensures
        forall|i: int|
            0 <= i < stitch_spec(segs).len() ==> poly_points_ok(#[trigger] stitch_spec(segs)[i]),
{
    lemma_stitch_state_ok(segs);
    let st = stitch_state(segs);
    if st.1.len() != 0 {
        assert(poly_points_ok(finished_poly(st.1)));
    }
}


/// The same segment walked the other way.
pub open spec fn seg_reversed(s: Segment) -> Segment {
    Segment { p1: s.p2, p2: s.p1 }
}

/// The same loop traversed in the opposite direction: every segment
/// reversed, in reverse order.
pub open spec fn reversed_traversal(segs: Seq<Segment>) -> Seq<Segment> {
    Seq::new(segs.len(), |i: int| seg_reversed(segs[segs.len() - 1 - i]))
}

/// Feeding the segments of one closed loop in the opposite traversal
/// direction still stitches to a single closed polyline over exactly the
/// same set of points.
#[verifier::rlimit(60)]
pub proof fn lemma_stitch_closed_loop_reversed(segs: Seq<Segment>)
    requires
        segs.len() >= 1,
        forall|i: int|
            0 <= i < segs.len() - 1 ==> (#[trigger] segs[i]).p2 == segs[i + 1].p1,
        segs.last().p2 == segs.first().p1,
    ensures
        stitch_spec(reversed_traversal(segs)).len() == 1,
        stitch_spec(reversed_traversal(segs))[0].closed,
        stitch_spec(segs).len() == 1,
        stitch_spec(segs)[0].closed,
        stitch_spec(reversed_traversal(segs))[0].points.to_set() =~= stitch_spec(
            segs,
        )[0].points.to_set(),
{
    let n = segs.len() as int;
    let r = reversed_traversal(segs);
    assert(r.len() == n);
    assert forall|i: int| 0 <= i < r.len() - 1 implies (#[trigger] r[i]).p2 == r[i + 1].p1 by {
        assert(r[i] == seg_reversed(segs[n - 1 - i]));
        assert(r[i + 1] == seg_reversed(segs[n - 2 - i]));
        assert(segs[n - 2 - i].p2 == segs[n - 1 - i].p1);
    }
    assert(r.last() == seg_reversed(segs[0]));
    assert(r.first() == seg_reversed(segs[n - 1]));
    assert(r.last().p2 == r.first().p1);
    lemma_stitch_closed_loop(segs);
    lemma_stitch_closed_loop(r);
    let sa = seg_starts(segs);
    let sb = seg_starts(r);
    assert forall|x: Point| sb.to_set().contains(x) implies sa.to_set().contains(x) by {
        let i = choose|i: int| 0 <= i < sb.len() && sb[i] == x;
        assert(sb[i] == segs[n - 1 - i].p2);
        if n - 1 - i < n - 1 {
            assert(segs[n - 1 - i].p2 == segs[n - i].p1);
            assert(sa[n - i] == x);
        } else {
            assert(segs[n - 1].p2 == segs[0].p1);
            assert(sa[0] == x);
        }
    }
    assert forall|x: Point| sa.to_set().contains(x) implies sb.to_set().contains(x) by {
        let j = choose|j: int| 0 <= j < sa.len() && sa[j] == x;
        if j > 0 {
            assert(segs[j - 1].p2 == segs[j].p1);
            assert(sb[n - j] == segs[j - 1].p2);
            assert(sb[n - j] == x);
        } else {
            assert(segs[n - 1].p2 == segs[0].p1);
            assert(sb[0] == segs[n - 1].p2);
            assert(sb[0] == x);
        }
    }
}

} // verus!
