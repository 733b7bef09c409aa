//! Models: an immutable named shape built from a drawing's line records,
//! and the toolpath generator that walks its loops under a cut condition.

use vstd::prelude::*;
use vstd::string::StringExecFns;
use crate::decimal::dec_str;
use crate::decimal::push_dec;
use crate::gcode::BlockView;
use crate::gcode::GcodeBuilder;
use crate::gcode::InsView;
use crate::geom::Point;
use crate::geom::Point3;
use crate::geom::Segment;
use crate::geom::UNIT;
use crate::builder::lines_rings;
use crate::builder::ring_ok;
use crate::builder::shape_from_rings;
use crate::laser::Condition;
use crate::laser::SequenceItem;
use crate::laser::spec_passes;
use crate::laser::spec_percent_num_str;
use crate::laser::push_percent_num;
use crate::shape::PolygonRegion;
use crate::shape::RegionView;
use crate::shape::Shape;
use crate::shape::ShapeView;
use crate::shape::shape_contains;
use crate::shape::shape_wf;
use crate::stitch::Polyline;
use crate::stitch::PolyView;
use crate::stitch::poly_points_ok;
use crate::stitch::segs_in_bounds;
use crate::stitch::stitch_segments;
use crate::stitch::stitch_spec;
use crate::stitch::lemma_stitch_spec_ok;
use crate::transform::EntityState;
use crate::transform::spec_entity_transform;

verus! {

/// What can go wrong while reading a drawing's entities.
#[derive(Debug, Clone, Copy, PartialEq, Eq, Structural)]
pub enum ModelLoadError {
    /// The drawing's first line entity is not in one of the XY, XZ, or YZ
    /// planes.
    ModelNotInPlane,
}

/// Which axis is "up" in the drawing, fixing which two coordinates become
/// the 2D plane.
#[derive(Debug, Clone, Copy, PartialEq, Eq, Structural)]
pub enum PlaneMode {
    ZUp,
    XUp,
    YUp,
}

/// One record out of a drawing: a 3D line with its extrusion direction, or
/// some other entity that is only counted, never interpreted.
#[derive(Debug, Clone, Copy, PartialEq, Eq, Structural)]
pub enum DrawingEntity {
    Line { p1: Point3, p2: Point3, extrusion: Point3 },
    Other,
}

/// The index of the first line entity, from `i` on; entities that are
/// not lines are passed over.
pub open spec fn first_line_from(entities: Seq<DrawingEntity>, i: int) -> Option<int>
    decreases entities.len() - i,
{
    if i < 0 || i >= entities.len() {
        None
    } else if entities[i] is Line {
        Some(i)
    } else {
        first_line_from(entities, i + 1)
    }
}

/// The unit X axis.
pub open spec fn unit_x() -> Point3 {
    Point3 { x: UNIT, y: 0i64, z: 0i64 }
}

/// The unit Y axis.
pub open spec fn unit_y() -> Point3 {
    Point3 { x: 0i64, y: UNIT, z: 0i64 }
}

/// The unit Z axis.
pub open spec fn unit_z() -> Point3 {
    Point3 { x: 0i64, y: 0i64, z: UNIT }
}

/// The extrusion direction of the first line entity, when there is one.
pub open spec fn spec_first_extrusion(entities: Seq<DrawingEntity>) -> Option<Point3> {
    match first_line_from(entities, 0) {
        Some(i) => match entities[i] {
            DrawingEntity::Line { extrusion, .. } => Some(extrusion),
            DrawingEntity::Other => None,
        },
        None => None,
    }
}

/// The plane fixed by the first line entity's extrusion direction: the
/// unit X, Y or Z axis picks X-up, Y-up or Z-up, once, for the whole
/// drawing. A drawing without a line entity stays at Z-up.
pub open spec fn spec_mode(entities: Seq<DrawingEntity>) -> PlaneMode {
    match spec_first_extrusion(entities) {
        Some(e) => if e == unit_x() {
            PlaneMode::XUp
        } else if e == unit_y() {
            PlaneMode::YUp
        } else {
            PlaneMode::ZUp
        },
        None => PlaneMode::ZUp,
    }
}

/// Loading fails exactly when the first line entity's extrusion direction
/// is none of the three unit axes, exactly.
pub open spec fn spec_plane_error(entities: Seq<DrawingEntity>) -> bool {
    match spec_first_extrusion(entities) {
        Some(e) => e != unit_x() && e != unit_y() && e != unit_z(),
        None => false,
    }
}

/// Project a 3D point to the plane: Z-up keeps (x, y), X-up keeps (y, z),
/// Y-up keeps (x, z).
pub open spec fn spec_project(mode: PlaneMode, p: Point3) -> Point {
    match mode {
        PlaneMode::ZUp => Point { x: p.x, y: p.y },
        PlaneMode::XUp => Point { x: p.y, y: p.z },
        PlaneMode::YUp => Point { x: p.x, y: p.z },
    }
}

/// The projected segments of the line entities, in order; other entities
/// leave no segment.
pub open spec fn spec_segments(entities: Seq<DrawingEntity>, mode: PlaneMode) -> Seq<Segment>
    decreases entities.len(),
{
    if entities.len() == 0 {
        Seq::<Segment>::empty()
    } else {
        spec_segments(entities.drop_last(), mode) + (match entities.last() {
            DrawingEntity::Line { p1, p2, .. } => seq![
                Segment { p1: spec_project(mode, p1), p2: spec_project(mode, p2) },
            ],
            DrawingEntity::Other => Seq::<Segment>::empty(),
        })
    }
}

/// Is any entity not a line?
pub open spec fn spec_has_other(entities: Seq<DrawingEntity>) -> bool {
    exists|i: int| 0 <= i < entities.len() && (#[trigger] entities[i]) is Other
}

/// The loops a drawing's entities stitch into, under the detected plane.
pub open spec fn model_rings(entities: Seq<DrawingEntity>) -> Seq<Seq<Point>> {
    stitch_spec(spec_segments(entities, spec_mode(entities))).map_values(
        |pv: PolyView| pv.points,
    )
}

/// The mathematical image of a model: its shape, and its name.
#[verifier::ext_equal]
pub struct ModelView {
    pub shape: ShapeView,
    pub name: Seq<char>,
}

/// A named, immutable shape. Once created nothing changes; transforms are
/// stored on the placements, outside the model.
#[derive(Debug, Clone)]
pub struct Model {
    pub shape: Shape,
    pub name: String,
}

impl View for Model {
    type V = ModelView;

    open spec fn view(&self) -> ModelView {
        ModelView { shape: self.shape@, name: self.name@ }
    }
}

impl Model {
    /// Well-formed: the shape is.
    pub open spec fn wf(&self) -> bool {
        shape_wf(self@.shape)
    }

    /// Build a model from stitched loops: the shape is constructed from
    /// the loops, the name kept as given.
    pub fn new(lines: Vec<Polyline>, name: String) -> (r: Model)
        requires
            forall|i: int| 0 <= i < lines@.len() ==> ring_ok((#[trigger] lines@[i])@.points),
        ensures
            r@.name == name@,
            r@.shape.parts == shape_from_rings(lines_rings(lines@)),
            r.wf(),
    {
        let shape = Shape::from_lines(lines);
        Model { shape, name }
    }

    /// Is the point inside this model's shape? The point is expected in
    /// model space, any transforms undone by the caller.
    pub fn point_within(&self, point: Point) -> (r: bool)
        requires
            self.wf(),
        ensures
            r == shape_contains(self@.shape, point),
    {
        self.shape.contains_point(point)
    }
}

/// The comment block carrying the given text.
pub open spec fn spec_comment_block(c: Seq<char>) -> BlockView {
    BlockView { codes: Seq::<InsView>::empty(), comment: Some(c) }
}

/// The rapid-positioning block to a transformed point.
pub open spec fn spec_rapid_block(q: Point) -> BlockView {
    BlockView {
        codes: seq![InsView::G(0), InsView::X(q.x), InsView::Y(q.y)],
        comment: None,
    }
}

/// The plain cutting-motion block to a transformed point.
pub open spec fn spec_cut_block(q: Point) -> BlockView {
    BlockView {
        codes: seq![InsView::G(1), InsView::X(q.x), InsView::Y(q.y)],
        comment: None,
    }
}

/// The blocks that start cutting a loop under a pass specification: one
/// cutting block carrying power, feed and the laser-on mode for the
/// controller-managed variants; the literal power, feed and laser-on texts
/// for `Custom`.
pub open spec fn spec_start_blocks(item: SequenceItem) -> Seq<BlockView> {
    match item {
        SequenceItem::GrblConst { power, feed, .. } => seq![
            BlockView {
                codes: seq![
                    InsView::G(1),
                    InsView::S(power),
                    InsView::F(feed),
                    InsView::M(3),
                ],
                comment: None,
            },
        ],
        SequenceItem::GrblDyn { power, feed, .. } => seq![
            BlockView {
                codes: seq![
                    InsView::G(1),
                    InsView::S(power),
                    InsView::F(feed),
                    InsView::M(4),
                ],
                comment: None,
            },
        ],
        SequenceItem::Custom { ref power, ref feed, ref laser_on, .. } => seq![
            BlockView { codes: seq![InsView::Custom(power@)], comment: None },
            BlockView { codes: seq![InsView::Custom(feed@)], comment: None },
            BlockView { codes: seq![InsView::Custom(laser_on@)], comment: None },
        ],
    }
}

/// The blocks that end cutting a loop: power zero and laser off for the
/// controller-managed variants, the literal laser-off text for `Custom`.
pub open spec fn spec_end_blocks(item: SequenceItem) -> Seq<BlockView> {
    match item {
        SequenceItem::GrblConst { .. } => seq![
            BlockView {
                codes: seq![
                    InsView::G(1),
                    InsView::S(0),
                    InsView::M(5),
                ],
                comment: None,
            },
        ],
        SequenceItem::GrblDyn { .. } => seq![
            BlockView {
                codes: seq![
                    InsView::G(1),
                    InsView::S(0),
                    InsView::M(5),
                ],
                comment: None,
            },
        ],
        SequenceItem::Custom { ref laser_off, .. } => seq![
            BlockView { codes: seq![InsView::Custom(laser_off@)], comment: None },
        ],
    }
}

/// The cutting blocks for every loop point after the first, transformed.
pub open spec fn spec_cut_points(e: EntityState, ring: Seq<Point>, n: int) -> Seq<BlockView>
    decreases n,
{
    if n <= 1 {
        Seq::<BlockView>::empty()
    } else {
        spec_cut_points(e, ring, n - 1) + seq![
            spec_cut_block(spec_entity_transform(e, ring[n - 1])),
        ]
    }
}

/// The comment announcing one loop.
pub open spec fn start_line_comment(li: nat) -> Seq<char> {
    "--- Start line "@ + dec_str(li)
}

/// Everything one loop emits under a pass specification: its comment, a
/// rapid move to its first transformed point, the start blocks, one
/// cutting block per remaining transformed point, and the end blocks. The
/// loop is walked as the stored closed ring, points only.
pub open spec fn spec_ring_blocks(
    item: SequenceItem,
    e: EntityState,
    ring: Seq<Point>,
    li: nat,
) -> Seq<BlockView> {
    seq![
        spec_comment_block(start_line_comment(li)),
        spec_rapid_block(spec_entity_transform(e, ring[0])),
    ] + spec_start_blocks(item) + spec_cut_points(e, ring, ring.len() as int) + spec_end_blocks(
        item,
    )
}

/// What the first `n` loops emit, in order, numbered from zero.
pub open spec fn spec_rings_blocks(
    item: SequenceItem,
    e: EntityState,
    rings: Seq<Seq<Point>>,
    n: int,
) -> Seq<BlockView>
    decreases n,
{
    if n <= 0 {
        Seq::<BlockView>::empty()
    } else {
        spec_rings_blocks(item, e, rings, n - 1) + spec_ring_blocks(
            item,
            e,
            rings[n - 1],
            (n - 1) as nat,
        )
    }
}

/// A shape's loops in generation order: each region's boundary ring, then
/// that region's holes.
pub open spec fn region_rings(r: RegionView) -> Seq<Seq<Point>> {
    seq![r.exterior] + r.interiors
}

/// All loops of all regions, in region order.
pub open spec fn shape_rings(parts: Seq<RegionView>) -> Seq<Seq<Point>>
    decreases parts.len(),
{
    if parts.len() == 0 {
        Seq::<Seq<Point>>::empty()
    } else {
        shape_rings(parts.drop_last()) + region_rings(parts.last())
    }
}

/// The comment announcing one pass.
pub open spec fn pass_comment(p: nat) -> Seq<char> {
    "-- Begin pass "@ + dec_str(p)
}

/// "passes" for more than one pass, "pass" otherwise.
pub open spec fn passes_word(passes: u16) -> Seq<char> {
    if passes > 1 {
        "passes"@
    } else {
        "pass"@
    }
}

/// The comment announcing one sequence step, numbered from one: the
/// controller-managed variants name feed and power as a percentage, the
/// `Custom` variant only its pass count.
pub open spec fn item_header_comment(item: SequenceItem, idx: nat) -> Seq<char> {
    match item {
        SequenceItem::GrblConst { passes, power, feed } => "- Begin GRBL sequence "@ + dec_str(
            idx + 1,
        ) + " with "@ + dec_str(passes as nat) + seq![' '] + passes_word(passes) + " at "@
            + dec_str(feed as nat) + "mm/min and "@ + spec_percent_num_str(power) + "% power"@,
        SequenceItem::GrblDyn { passes, power, feed } => "- Begin GRBL sequence "@ + dec_str(
            idx + 1,
        ) + " with "@ + dec_str(passes as nat) + seq![' '] + passes_word(passes) + " at "@
            + dec_str(feed as nat) + "mm/min and "@ + spec_percent_num_str(power) + "% power"@,
        SequenceItem::Custom { passes, .. } => "- Begin Custom sequence "@ + dec_str(idx + 1)
            + " with "@ + dec_str(passes as nat) + seq![' '] + passes_word(passes),
    }
}

/// What one sequence step emits over the loops, repeated once per pass,
/// each repetition announced by its pass comment, numbered from one.
pub open spec fn spec_passes_blocks(
    item: SequenceItem,
    e: EntityState,
    rings: Seq<Seq<Point>>,
    p: int,
) -> Seq<BlockView>
    decreases p,
{
    if p <= 0 {
        Seq::<BlockView>::empty()
    } else {
        spec_passes_blocks(item, e, rings, p - 1) + seq![spec_comment_block(pass_comment(p as nat))]
            + spec_rings_blocks(item, e, rings, rings.len() as int)
    }
}

/// What one sequence step emits in full: its header comment, then its
/// passes.
pub open spec fn spec_item_blocks(
    item: SequenceItem,
    e: EntityState,
    rings: Seq<Seq<Point>>,
    idx: nat,
) -> Seq<BlockView> {
    seq![spec_comment_block(item_header_comment(item, idx))] + spec_passes_blocks(
        item,
        e,
        rings,
        spec_passes(item) as int,
    )
}

/// What the first `n` sequence steps emit, in list order.
pub open spec fn spec_items_blocks(
    items: Seq<SequenceItem>,
    e: EntityState,
    rings: Seq<Seq<Point>>,
    n: int,
) -> Seq<BlockView>
    decreases n,
{
    if n <= 0 {
        Seq::<BlockView>::empty()
    } else {
        spec_items_blocks(items, e, rings, n - 1) + spec_item_blocks(
            items[n - 1],
            e,
            rings,
            (n - 1) as nat,
        )
    }
}

/// The comment opening a model's program.
pub open spec fn model_start_comment(name: Seq<char>, cond_name: Seq<char>, n: nat) -> Seq<char> {
    "Start model `"@ + name + "` with laser condition `"@ + cond_name + "` and "@ + dec_str(n)
        + " sequence items"@
}

/// The comment closing a model's program.
pub open spec fn model_end_comment(name: Seq<char>) -> Seq<char> {
    "End model `"@ + name + "`"@
}

/// Everything generating a model under a cut condition emits: the start
/// comment, each sequence step in order, and the end comment.
pub open spec fn spec_model_blocks(m: ModelView, e: EntityState, cond: Condition) -> Seq<
    BlockView> {
    seq![
        spec_comment_block(
            model_start_comment(m.name, cond.name@, cond.sequence@.len() as nat),
        ),
    ] + spec_items_blocks(
        cond.sequence@,
        e,
        shape_rings(m.shape.parts),
        cond.sequence@.len() as int,
    ) + seq![spec_comment_block(model_end_comment(m.name))]
}


/// The text announcing one loop.
fn line_comment_string(li: u64) -> (r: String)
    ensures
        r@ == start_line_comment(li as nat),
{
    let mut s = String::from_str("--- Start line ");
    push_dec(&mut s, li);
    s
}

/// The text announcing one pass.
fn pass_comment_string(p: u64) -> (r: String)
    ensures
        r@ == pass_comment(p as nat),
{
    let mut s = String::from_str("-- Begin pass ");
    push_dec(&mut s, p);
    s
}

/// The text announcing one sequence step.
fn item_header_string(item: &SequenceItem, idx: u64) -> (r: String)
    requires
        idx < u64::MAX,
    ensures
        r@ == item_header_comment(*item, idx as nat),
{
    proof {
        reveal_strlit(" ");
    }
    match item {
        SequenceItem::GrblConst { passes, power, feed } => {
            let mut s = String::from_str("- Begin GRBL sequence ");
            push_dec(&mut s, idx + 1);
            s.append(" with ");
            push_dec(&mut s, *passes as u64);
            assert(" "@ =~= seq![' ']);
            s.append(" ");
            if *passes > 1 {
                s.append("passes");
            } else {
                s.append("pass");
            }
            s.append(" at ");
            push_dec(&mut s, *feed as u64);
            s.append("mm/min and ");
            push_percent_num(&mut s, *power);
            s.append("% power");
            assert(s@ =~= item_header_comment(*item, idx as nat));
            s
        }
        SequenceItem::GrblDyn { passes, power, feed } => {
            let mut s = String::from_str("- Begin GRBL sequence ");
            push_dec(&mut s, idx + 1);
            s.append(" with ");
            push_dec(&mut s, *passes as u64);
            assert(" "@ =~= seq![' ']);
            s.append(" ");
            if *passes > 1 {
                s.append("passes");
            } else {
                s.append("pass");
            }
            s.append(" at ");
            push_dec(&mut s, *feed as u64);
            s.append("mm/min and ");
            push_percent_num(&mut s, *power);
            s.append("% power");
            assert(s@ =~= item_header_comment(*item, idx as nat));
            s
        }
        SequenceItem::Custom { passes, .. } => {
            let mut s = String::from_str("- Begin Custom sequence ");
            push_dec(&mut s, idx + 1);
            s.append(" with ");
            push_dec(&mut s, *passes as u64);
            assert(" "@ =~= seq![' ']);
            s.append(" ");
            if *passes > 1 {
                s.append("passes");
            } else {
                s.append("pass");
            }
            assert(s@ =~= item_header_comment(*item, idx as nat));
            s
        }
    }
}

/// The text opening a model's program.
fn model_start_string(name: &str, cond_name: &str, n: u64) -> (r: String)
    ensures
        r@ == model_start_comment(name@, cond_name@, n as nat),
{
    let mut s = String::from_str("Start model `");
    s.append(name);
    s.append("` with laser condition `");
    s.append(cond_name);
    s.append("` and ");
    push_dec(&mut s, n);
    s.append(" sequence items");
    s
}

/// The text closing a model's program.
fn model_end_string(name: &str) -> (r: String)
    ensures
        r@ == model_end_comment(name@),
{
    let mut s = String::from_str("End model `");
    s.append(name);
    s.append("`");
    s
}

/// Copy all loops of a shape into one flat list, in generation order.
fn collect_rings(shape: &Shape) -> (r: Vec<Vec<Point>>)
    requires
        shape_wf(shape@),
    ensures
        r@.map_values(|v: Vec<Point>| v@) == shape_rings(shape@.parts),
        forall|i: int| 0 <= i < r@.len() ==> ring_ok((#[trigger] r@[i])@),
{
    let parts = &shape.parts;
    let mut out: Vec<Vec<Point>> = Vec::new();
    let mut pi: usize = 0;
    while pi < parts.len()
        invariant
            0 <= pi <= parts@.len(),
            shape_wf(shape@),
            parts == shape.parts,
            shape@.parts.len() == parts@.len(),
            out@.map_values(|v: Vec<Point>| v@) =~= shape_rings(shape@.parts.take(pi as int)),
            forall|i: int| 0 <= i < out@.len() ==> ring_ok((#[trigger] out@[i])@),
        decreases parts@.len() - pi,
    {
        let ghost pre = out@.map_values(|v: Vec<Point>| v@);
        let ghost reg = shape@.parts[pi as int];
        proof {
            assert(parts@[pi as int]@ == reg);
            assert(crate::shape::region_in_box(reg, shape@.min, shape@.max));
            assert(crate::shape::ring_in_bounds(reg.exterior)) by {
                assert forall|j: int|
                    0 <= j < reg.exterior.len() implies (#[trigger] reg.exterior[j]).in_bounds() by {
                    assert(crate::shape::ring_in_box(reg.exterior, shape@.min, shape@.max));
                }
            }
        }
        let ext = crate::builder::clone_ring(&parts[pi].exterior);
        out.push(ext);
        proof {
            assert(out@.map_values(|v: Vec<Point>| v@) =~= pre.push(reg.exterior));
        }
        let m = parts[pi].interiors.len();
        let mut rj: usize = 0;
        while rj < m
            invariant
                0 <= rj <= m,
                0 <= pi < parts@.len(),
                shape_wf(shape@),
                parts == shape.parts,
                shape@.parts.len() == parts@.len(),
                reg == shape@.parts[pi as int],
                m == reg.interiors.len(),
                out@.map_values(|v: Vec<Point>| v@) =~= pre.push(reg.exterior) + reg.interiors.take(
                    rj as int,
                ),
                forall|i: int| 0 <= i < out@.len() ==> ring_ok((#[trigger] out@[i])@),
            decreases m - rj,
        {
            let ghost hole = reg.interiors[rj as int];
            proof {
                assert(parts@[pi as int]@ == reg);
                assert(parts@[pi as int].interiors@[rj as int]@ == hole);
                assert(crate::shape::ring_in_box(hole, shape@.min, shape@.max));
                assert(crate::shape::ring_in_bounds(hole)) by {
                    assert forall|j: int|
                        0 <= j < hole.len() implies (#[trigger] hole[j]).in_bounds() by {}
                }
            }
            let h = crate::builder::clone_ring(&parts[pi].interiors[rj]);
            proof {
                assert(h@ == hole);
            }
            out.push(h);
            proof {
                assert(out@.map_values(|v: Vec<Point>| v@) =~= (pre.push(reg.exterior)
                    + reg.interiors.take(rj as int)).push(hole));
                assert(reg.interiors.take(rj + 1 as int) =~= reg.interiors.take(rj as int).push(
                    hole,
                ));
                assert(out@.map_values(|v: Vec<Point>| v@) =~= pre.push(reg.exterior)
                    + reg.interiors.take(rj + 1 as int));
            }
            rj = rj + 1;
        }
        proof {
            assert(reg.interiors.take(m as int) =~= reg.interiors);
            assert(shape@.parts.take(pi + 1 as int).drop_last() =~= shape@.parts.take(pi as int));
            assert(shape@.parts.take(pi + 1 as int).last() == reg);
            assert(out@.map_values(|v: Vec<Point>| v@) =~= shape_rings(
                shape@.parts.take(pi + 1 as int),
            ));
        }
        pi = pi + 1;
    }
    proof {
        assert(shape@.parts.take(shape@.parts.len() as int) =~= shape@.parts);
    }
    out
}

impl Model {
    /// Walk every loop of the shape once under one pass specification:
    /// move rapidly to the loop's first transformed point, start the
    /// laser, cut through the remaining transformed points, and stop the
    /// laser.
    #[verifier::rlimit(100)]
    fn generate_gcode_lines(
        &self,
        builder: &mut GcodeBuilder,
        mt: &EntityState,
        item: &SequenceItem,
    )
        requires
            self.wf(),
            mt.wf(),
            old(builder)@.current.codes.len() == 0,
            old(builder)@.current.comment is None,
        ensures
            final(builder)@.blocks == old(builder)@.blocks + spec_rings_blocks(
                *item,
                *mt,
                shape_rings(self@.shape.parts),
                shape_rings(self@.shape.parts).len() as int,
            ),
            final(builder)@.current == old(builder)@.current,
    {
        let rings = collect_rings(&self.shape);
        let ghost rv = rings@.map_values(|v: Vec<Point>| v@);
        let ghost base = old(builder)@.blocks;
        proof {
            assert(builder@.blocks =~~= base + spec_rings_blocks(*item, *mt, rv, 0int));
        }
        let mut li: usize = 0;
        while li < rings.len()
            invariant
                0 <= li <= rings@.len(),
                rv == rings@.map_values(|v: Vec<Point>| v@),
                rv == shape_rings(self@.shape.parts),
                rings@.len() == rv.len(),
                forall|i: int| 0 <= i < rings@.len() ==> ring_ok((#[trigger] rings@[i])@),
                mt.wf(),
                builder@.blocks == base + spec_rings_blocks(*item, *mt, rv, li as int),
                builder@.current == old(builder)@.current,
                old(builder)@.current.codes.len() == 0,
                old(builder)@.current.comment is None,
            decreases rings@.len() - li,
        {
            let ghost pre = builder@.blocks;
            let ghost ringv = rv[li as int];
            proof {
                assert(rings@[li as int]@ == ringv);
                assert(ring_ok(ringv));
            }
            let c = line_comment_string(li as u64);
            builder.comment_block(c.as_str());
            let q0 = mt.transform(rings[li][0]);
            builder.rapid_motion();
            builder.x(q0.x);
            builder.y(q0.y);
            builder.eob();
            proof {
                assert(builder@.blocks =~~= pre + seq![
                    spec_comment_block(start_line_comment(li as nat)),
                    spec_rapid_block(spec_entity_transform(*mt, ringv[0])),
                ]);
            }
            let ghost pre_start = builder@.blocks;
            match item {
                SequenceItem::GrblConst { power, feed, .. } => {
                    builder.cutting_motion();
                    builder.laser_power(*power);
                    builder.feed(*feed);
                    builder.laser_on_const();
                    builder.eob();
                }
                SequenceItem::GrblDyn { power, feed, .. } => {
                    builder.cutting_motion();
                    builder.laser_power(*power);
                    builder.feed(*feed);
                    builder.laser_on_dyn();
                    builder.eob();
                }
                SequenceItem::Custom { power, feed, laser_on, .. } => {
                    builder.custom(power.clone());
                    builder.eob();
                    builder.custom(feed.clone());
                    builder.eob();
                    builder.custom(laser_on.clone());
                    builder.eob();
                }
            }
            proof {
                assert(builder@.blocks =~~= pre_start + spec_start_blocks(*item));
            }
            let ghost pre_cuts = builder@.blocks;
            proof {
                assert(builder@.blocks =~~= pre_cuts + spec_cut_points(*mt, ringv, 1int));
            }
            let n = rings[li].len();
            let mut k: usize = 1;
            while k < n
                invariant
                    1 <= k <= n || (n == 0 && k == 1),
                    0 <= li < rings@.len(),
                    n == ringv.len(),
                    rv == rings@.map_values(|v: Vec<Point>| v@),
                    rings@.len() == rv.len(),
                    ringv == rv[li as int],
                    rings@[li as int]@ == ringv,
                    ring_ok(ringv),
                    mt.wf(),
                    builder@.blocks == pre_cuts + spec_cut_points(*mt, ringv, k as int),
                    builder@.current == old(builder)@.current,
                    old(builder)@.current.codes.len() == 0,
                    old(builder)@.current.comment is None,
                decreases n - k,
            {
                let q = mt.transform(rings[li][k]);
                builder.cutting_motion();
                builder.x(q.x);
                builder.y(q.y);
                builder.eob();
                proof {
                    assert(builder@.blocks =~~= pre_cuts + spec_cut_points(
                        *mt,
                        ringv,
                        k + 1 as int,
                    ));
                }
                k = k + 1;
            }
            proof {
                if n == 0 {
                    assert(spec_cut_points(*mt, ringv, 0int) =~= Seq::<BlockView>::empty());
                }
                assert(builder@.blocks =~~= pre_cuts + spec_cut_points(
                    *mt,
                    ringv,
                    ringv.len() as int,
                ));
            }
            let ghost pre_end = builder@.blocks;
            match item {
                SequenceItem::GrblConst { .. } => {
                    builder.cutting_motion();
                    builder.laser_power(0);
                    builder.laser_off();
                    builder.eob();
                }
                SequenceItem::GrblDyn { .. } => {
                    builder.cutting_motion();
                    builder.laser_power(0);
                    builder.laser_off();
                    builder.eob();
                }
                SequenceItem::Custom { laser_off, .. } => {
                    builder.custom(laser_off.clone());
                    builder.eob();
                }
            }
            proof {
                assert(builder@.blocks =~~= pre_end + spec_end_blocks(*item));
                assert(builder@.blocks =~~= pre + spec_ring_blocks(
                    *item,
                    *mt,
                    ringv,
                    li as nat,
                ));
                assert(builder@.blocks =~~= base + spec_rings_blocks(
                    *item,
                    *mt,
                    rv,
                    li + 1 as int,
                ));
            }
            li = li + 1;
        }
        proof {
            assert(builder@.blocks =~~= base + spec_rings_blocks(
                *item,
                *mt,
                rv,
                rv.len() as int,
            ));
        }
    }

    /// Every loop of the shape with the entity's transform applied, in
    /// generation order: what a display layer draws for one placement.
    pub fn transformed_rings(&self, mt: &EntityState) -> (r: Vec<Vec<Point>>)
        requires
            self.wf(),
            mt.wf(),
        ensures
            r@.len() == shape_rings(self@.shape.parts).len(),
            forall|i: int|
                0 <= i < r@.len() ==> (#[trigger] r@[i])@ == shape_rings(
                    self@.shape.parts,
                )[i].map_values(|p: Point| spec_entity_transform(*mt, p)),
    {
        let rings = collect_rings(&self.shape);
        let ghost rv = rings@.map_values(|v: Vec<Point>| v@);
        let mut out: Vec<Vec<Point>> = Vec::new();
        let mut i: usize = 0;
        while i < rings.len()
            invariant
                0 <= i <= rings@.len(),
                rv == rings@.map_values(|v: Vec<Point>| v@),
                rv == shape_rings(self@.shape.parts),
                rings@.len() == rv.len(),
                forall|k: int| 0 <= k < rings@.len() ==> ring_ok((#[trigger] rings@[k])@),
                mt.wf(),
                out@.len() == i,
                forall|k: int|
                    0 <= k < i ==> (#[trigger] out@[k])@ == rv[k].map_values(
                        |p: Point| spec_entity_transform(*mt, p),
                    ),
            decreases rings@.len() - i,
        {
            let ghost ringv = rv[i as int];
            proof {
                assert(rings@[i as int]@ == ringv);
                assert(ring_ok(ringv));
            }
            let ring = &rings[i];
            let mut moved: Vec<Point> = Vec::new();
            let mut k: usize = 0;
            while k < ring.len()
                invariant
                    0 <= k <= ring@.len(),
                    ring@ == ringv,
                    ring_ok(ringv),
                    mt.wf(),
                    moved@ == ringv.take(k as int).map_values(
                        |p: Point| spec_entity_transform(*mt, p),
                    ),
                decreases ring@.len() - k,
            {
                let q = mt.transform(ring[k]);
                moved.push(q);
                proof {
                    assert(moved@ =~= ringv.take(k + 1 as int).map_values(
                        |p: Point| spec_entity_transform(*mt, p),
                    ));
                }
                k = k + 1;
            }
            proof {
                assert(ringv.take(ringv.len() as int) =~= ringv);
            }
            out.push(moved);
            i = i + 1;
        }
        out
    }

    /// Generate the program for this model under an entity's state and a
    /// cut condition: a start comment, then every sequence step in order —
    /// each announced by its header comment and repeated once per pass over
    /// all loops — and an end comment.
    #[verifier::rlimit(100)]
    pub fn generate_gcode(
        &self,
        mt: &EntityState,
        builder: &mut GcodeBuilder,
        laser_condition: &Condition,
    )
        requires
            self.wf(),
            mt.wf(),
            old(builder)@.current.codes.len() == 0,
            old(builder)@.current.comment is None,
        ensures
            final(builder)@.blocks == old(builder)@.blocks + spec_model_blocks(
                self@,
                *mt,
                *laser_condition,
            ),
            final(builder)@.current == old(builder)@.current,
    {
        let ghost base = old(builder)@.blocks;
        let ghost rv = shape_rings(self@.shape.parts);
        let ghost items = laser_condition.sequence@;
        let start = model_start_string(
            self.name.as_str(),
            laser_condition.name.as_str(),
            laser_condition.sequence.len() as u64,
        );
        builder.comment_block(start.as_str());
        let ghost after_start = builder@.blocks;
        proof {
            assert(after_start =~~= base + seq![
                spec_comment_block(
                    model_start_comment(
                        self@.name,
                        laser_condition.name@,
                        laser_condition.sequence@.len() as nat,
                    ),
                ),
            ]);
            assert(builder@.blocks =~~= after_start + spec_items_blocks(
                laser_condition.sequence@,
                *mt,
                rv,
                0int,
            ));
        }
        let mut i: usize = 0;
        while i < laser_condition.sequence.len()
            invariant
                0 <= i <= items.len(),
                items == laser_condition.sequence@,
                laser_condition.sequence@.len() == items.len(),
                self.wf(),
                mt.wf(),
                rv == shape_rings(self@.shape.parts),
                after_start == base + seq![
                    spec_comment_block(
                        model_start_comment(
                            self@.name,
                            laser_condition.name@,
                            items.len() as nat,
                        ),
                    ),
                ],
                builder@.blocks == after_start + spec_items_blocks(items, *mt, rv, i as int),
                builder@.current == old(builder)@.current,
                old(builder)@.current.codes.len() == 0,
                old(builder)@.current.comment is None,
            decreases items.len() - i,
        {
            let ghost pre_item = builder@.blocks;
            let item = &laser_condition.sequence[i];
            let header = item_header_string(item, i as u64);
            builder.comment_block(header.as_str());
            let ghost after_header = builder@.blocks;
            proof {
                assert(builder@.blocks =~~= after_header + spec_passes_blocks(
                    *item,
                    *mt,
                    rv,
                    0int,
                ));
            }
            let passes = item.passes();
            let mut p: u16 = 0;
            while p < passes
                invariant
                    0 <= p <= passes,
                    passes == spec_passes(*item),
                    item == &laser_condition.sequence@[i as int],
                    0 <= i < items.len(),
                    items == laser_condition.sequence@,
                    self.wf(),
                    mt.wf(),
                    rv == shape_rings(self@.shape.parts),
                    builder@.blocks == after_header + spec_passes_blocks(
                        *item,
                        *mt,
                        rv,
                        p as int,
                    ),
                    builder@.current == old(builder)@.current,
                    old(builder)@.current.codes.len() == 0,
                    old(builder)@.current.comment is None,
                decreases passes - p,
            {
                let ghost pre_pass = builder@.blocks;
                let pc = pass_comment_string(p as u64 + 1);
                builder.comment_block(pc.as_str());
                self.generate_gcode_lines(builder, mt, item);
                proof {
                    assert(builder@.blocks =~~= pre_pass + seq![
                        spec_comment_block(pass_comment((p + 1) as nat)),
                    ] + spec_rings_blocks(*item, *mt, rv, rv.len() as int));
                    assert(builder@.blocks =~~= after_header + spec_passes_blocks(
                        *item,
                        *mt,
                        rv,
                        p + 1 as int,
                    ));
                }
                p = p + 1;
            }
            proof {
                assert(builder@.blocks =~~= pre_item + spec_item_blocks(
                    items[i as int],
                    *mt,
                    rv,
                    i as nat,
                ));
                assert(builder@.blocks =~~= after_start + spec_items_blocks(
                    items,
                    *mt,
                    rv,
                    i + 1 as int,
                ));
            }
            i = i + 1;
        }
        let endc = model_end_string(self.name.as_str());
        builder.comment_block(endc.as_str());
        proof {
            assert(builder@.blocks =~~= base + spec_model_blocks(self@, *mt, *laser_condition));
        }
    }
}


/// Project a 3D point to the plane fixed by the mode.
fn project(mode: PlaneMode, p: Point3) -> (r: Point)
    ensures
        r == spec_project(mode, p),
{
    match mode {
        PlaneMode::ZUp => Point { x: p.x, y: p.y },
        PlaneMode::XUp => Point { x: p.y, y: p.z },
        PlaneMode::YUp => Point { x: p.x, y: p.z },
    }
}

/// Fix the plane from the first line entity's extrusion direction. Only
/// an extrusion that is exactly the unit X, Y or Z axis is accepted; any
/// other direction fails the load. A drawing without lines stays at Z-up.
fn detect_mode(entities: &Vec<DrawingEntity>) -> (r: Result<PlaneMode, ModelLoadError>)
    ensures
        spec_plane_error(entities@) ==> r == Err::<PlaneMode, ModelLoadError>(
            ModelLoadError::ModelNotInPlane,
        ),
        !spec_plane_error(entities@) ==> r == Ok::<PlaneMode, ModelLoadError>(
            spec_mode(entities@),
        ),
{
    let mut i: usize = 0;
    while i < entities.len()
        invariant
            0 <= i <= entities@.len(),
            first_line_from(entities@, 0) == first_line_from(entities@, i as int),
        decreases entities@.len() - i,
    {
        match &entities[i] {
            DrawingEntity::Line { extrusion, .. } => {
                proof {
                    assert(first_line_from(entities@, i as int) == Some(i as int));
                }
                let e = *extrusion;
                if e == (Point3 { x: UNIT, y: 0, z: 0 }) {
                    return Ok(PlaneMode::XUp);
                }
                if e == (Point3 { x: 0, y: UNIT, z: 0 }) {
                    return Ok(PlaneMode::YUp);
                }
                if e == (Point3 { x: 0, y: 0, z: UNIT }) {
                    return Ok(PlaneMode::ZUp);
                }
                return Err(ModelLoadError::ModelNotInPlane);
            }
            DrawingEntity::Other => {
                proof {
                    assert(first_line_from(entities@, i as int) == first_line_from(
                        entities@,
                        i + 1 as int,
                    ));
                }
            }
        }
        i = i + 1;
    }
    proof {
        assert(first_line_from(entities@, entities@.len() as int) is None);
    }
    Ok(PlaneMode::ZUp)
}

/// Build a model from a drawing's entities: fix the plane from the first
/// line entity, project every line, stitch the segments in order, and
/// build the shape. A non-line entity is skipped and only raises the
/// returned warning flag; a first line entity whose extrusion direction
/// is not exactly a unit axis fails the whole load.
pub fn build_model(entities: &Vec<DrawingEntity>, name: String) -> (r: Result<
    (Model, bool),
    ModelLoadError,
>)
    requires
        forall|i: int|
            0 <= i < entities@.len() ==> match #[trigger] entities@[i] {
                DrawingEntity::Line { p1, p2, .. } => p1.in_bounds() && p2.in_bounds(),
                DrawingEntity::Other => true,
            },
    ensures
        spec_plane_error(entities@) ==> r is Err,
        r is Err ==> spec_plane_error(entities@) && r == Err::<(Model, bool), ModelLoadError>(
            ModelLoadError::ModelNotInPlane,
        ),
        !spec_plane_error(entities@) ==> (match r {
            Ok((m, warn)) => m@.name == name@ && warn == spec_has_other(entities@)
                && m@.shape.parts == shape_from_rings(model_rings(entities@)) && m.wf(),
            Err(_) => false,
        }),
{
    let mode = match detect_mode(entities) {
        Ok(m) => m,
        Err(e) => {
            return Err(e);
        }
    };
    assert(mode == spec_mode(entities@));
    assert(!spec_plane_error(entities@));
    let mut segs: Vec<Segment> = Vec::new();
    let mut warning = false;
    let mut i: usize = 0;
    while i < entities.len()
        invariant
            0 <= i <= entities@.len(),
            mode == spec_mode(entities@),
            forall|k: int|
                0 <= k < entities@.len() ==> match #[trigger] entities@[k] {
                    DrawingEntity::Line { p1, p2, .. } => p1.in_bounds() && p2.in_bounds(),
                    DrawingEntity::Other => true,
                },
            segs@ == spec_segments(entities@.take(i as int), mode),
            segs_in_bounds(segs@),
            warning == exists|k: int|
                0 <= k < i && (#[trigger] entities@[k]) is Other,
        decreases entities@.len() - i,
    {
        proof {
            assert(entities@.take(i + 1 as int).drop_last() =~= entities@.take(i as int));
            assert(entities@.take(i + 1 as int).last() == entities@[i as int]);
        }
        match &entities[i] {
            DrawingEntity::Line { p1, p2, .. } => {
                let a = project(mode, *p1);
                let b = project(mode, *p2);
                segs.push(Segment { p1: a, p2: b });
                proof {
                    assert(segs@ =~= spec_segments(entities@.take(i + 1 as int), mode));
                    assert(a.in_bounds() && b.in_bounds());
                }
            }
            DrawingEntity::Other => {
                warning = true;
                proof {
                    assert(segs@ =~= spec_segments(entities@.take(i + 1 as int), mode));
                    assert((entities@[i as int]) is Other);
                }
            }
        }
        i = i + 1;
    }
    proof {
        assert(entities@.take(entities@.len() as int) =~= entities@);
    }
    let polys = stitch_segments(&segs);
    proof {
        lemma_stitch_spec_ok(segs@);
        assert forall|k: int| 0 <= k < polys@.len() implies ring_ok(
            (#[trigger] polys@[k])@.points,
        ) by {
            assert(polys@.map_values(|p: Polyline| p@)[k] == polys@[k]@);
            assert(poly_points_ok(stitch_spec(segs@)[k]));
        }
    }
    let m = Model::new(polys, name);
    proof {
        assert(lines_rings(polys@) =~= model_rings(entities@));
    }
    Ok((m, warning))
}

/// A deep copy of a region.
fn clone_region(r: &PolygonRegion) -> (c: PolygonRegion)
    ensures
        c@ == r@,
{
    let exterior = crate::builder::clone_ring(&r.exterior);
    let mut interiors: Vec<Vec<Point>> = Vec::new();
    let mut i: usize = 0;
    while i < r.interiors.len()
        invariant
            0 <= i <= r.interiors@.len(),
            interiors@.map_values(|v: Vec<Point>| v@) =~= r@.interiors.take(i as int),
        decreases r.interiors@.len() - i,
    {
        let h = crate::builder::clone_ring(&r.interiors[i]);
        proof {
            assert(h@ == r@.interiors[i as int]);
        }
        interiors.push(h);
        proof {
            assert(r@.interiors.take(i + 1 as int) =~= r@.interiors.take(i as int).push(
                r@.interiors[i as int],
            ));
            assert(interiors@.map_values(|v: Vec<Point>| v@) =~= r@.interiors.take(i as int).push(
                r@.interiors[i as int],
            ));
        }
        i = i + 1;
    }
    let c = PolygonRegion { exterior, interiors };
    proof {
        assert(r@.interiors.take(r@.interiors.len() as int) =~= r@.interiors);
        assert(c@ =~~= r@);
    }
    c
}

/// A deep copy of a model.
pub fn clone_model(m: &Model) -> (c: Model)
    ensures
        c@ == m@,
{
    let mut parts: Vec<PolygonRegion> = Vec::new();
    let mut i: usize = 0;
    while i < m.shape.parts.len()
        invariant
            0 <= i <= m.shape.parts@.len(),
            parts@.map_values(|r: PolygonRegion| r@) =~= m@.shape.parts.take(i as int),
        decreases m.shape.parts@.len() - i,
    {
        let reg = clone_region(&m.shape.parts[i]);
        proof {
            assert(reg@ == m@.shape.parts[i as int]);
        }
        let ghost regv = reg@;
        parts.push(reg);
        proof {
            assert(m@.shape.parts.take(i + 1 as int) =~= m@.shape.parts.take(i as int).push(
                m@.shape.parts[i as int],
            ));
            assert(parts@.map_values(|r: PolygonRegion| r@) =~= m@.shape.parts.take(i as int).push(
                regv,
            ));
        }
        i = i + 1;
    }
    let c = Model {
        shape: Shape { parts, min: m.shape.min, max: m.shape.max },
        name: m.name.clone(),
    };
    proof {
        assert(m@.shape.parts.take(m@.shape.parts.len() as int) =~= m@.shape.parts);
        assert(c@ =~~= m@);
    }
    c
}

/// A reference to a stored model: its index in the store, and the model
/// itself, shared read-only.
#[derive(Debug, Clone)]
pub struct ModelHandle {
    pub index: usize,
    pub model: Model,
}

impl ModelHandle {
    /// The model's name.
    pub fn name(&self) -> (r: &str)
        ensures
            r@ == self.model@.name,
    {
        self.model.name.as_str()
    }

    /// A fresh handle to the same model.
    pub fn duplicate(&self) -> (r: ModelHandle)
        ensures
            r.index == self.index,
            r.model@ == self.model@,
    {
        ModelHandle { index: self.index, model: clone_model(&self.model) }
    }
}

impl PartialEq for ModelHandle {
    /// Handles are equal when they point at the same stored slot.
    fn eq(&self, other: &Self) -> (r: bool) {
        self.index == other.index
    }
}

impl vstd::std_specs::cmp::PartialEqSpecImpl for ModelHandle {
    open spec fn obeys_eq_spec() -> bool {
        true
    }

    open spec fn eq_spec(&self, other: &Self) -> bool {
        self.index == other.index
    }
}

/// The registry of loaded models: immutable models, addressed by index.
#[derive(Debug)]
pub struct ModelStore {
    pub models: Vec<Model>,
}

impl View for ModelStore {
    type V = Seq<ModelView>;

    open spec fn view(&self) -> Seq<ModelView> {
        self.models@.map_values(|m: Model| m@)
    }
}

impl ModelStore {
    /// An empty registry.
    pub fn new() -> (r: ModelStore)
        ensures
            r@.len() == 0,
    {
        let r = ModelStore { models: Vec::new() };
        proof {
            assert(r@ =~= Seq::<ModelView>::empty());
        }
        r
    }

    /// Add a model and hand back its handle.
    pub fn add(&mut self, model: Model) -> (h: ModelHandle)
        ensures
            final(self)@ == old(self)@.push(model@),
            h.index == old(self)@.len(),
            h.model@ == model@,
    {
        let ghost mv = model@;
        let copy = clone_model(&model);
        let index = self.models.len();
        self.models.push(model);
        proof {
            assert(final(self)@ =~= old(self)@.push(mv));
        }
        ModelHandle { index, model: copy }
    }

    /// How many models are stored.
    pub fn count(&self) -> (r: usize)
        ensures
            r == self@.len(),
    {
        self.models.len()
    }

    /// The stored model at an index.
    pub fn get(&self, index: usize) -> (r: &Model)
        requires
            index < self@.len(),
        ensures
            r@ == self@[index as int],
    {
        &self.models[index]
    }

    /// Handles to all stored models, in order.
    pub fn iter(&self) -> (r: Vec<ModelHandle>)
        ensures
            r@.len() == self@.len(),
            forall|i: int|
                0 <= i < r@.len() ==> (#[trigger] r@[i]).index == i && r@[i].model@ == self@[i],
    {
        let mut out: Vec<ModelHandle> = Vec::new();
        let mut i: usize = 0;
        while i < self.models.len()
            invariant
                0 <= i <= self@.len(),
                self.models@.len() == self@.len(),
                out@.len() == i,
                forall|k: int|
                    0 <= k < i as int ==> (#[trigger] out@[k]).index == k && out@[k].model@
                        == self@[k],
            decreases self@.len() - i,
        {
            let m = clone_model(&self.models[i]);
            out.push(ModelHandle { index: i, model: m });
            i = i + 1;
        }
        out
    }
}

} // verus!
