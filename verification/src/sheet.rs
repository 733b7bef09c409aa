//! A sheet of placed entities: each placement pairs a model handle with
//! its own transform and cut condition, and the whole sheet serializes to
//! one motion-control document.

use vstd::prelude::*;
use vstd::string::StringExecFns;
use crate::decimal::int_str;
use crate::decimal::push_dec;
use crate::decimal::push_int;
use crate::gcode::BlockView;
use crate::gcode::GcodeBuilder;
use crate::gcode::InsView;
use crate::gcode::doc_str;
use crate::gcode::end_block;
use crate::laser::IdCounter;
use crate::model::ModelHandle;
use crate::model::spec_comment_block;
use crate::model::spec_model_blocks;
use crate::shape::shape_wf;
use crate::store::ConditionStore;
use crate::transform::EntityState;
use crate::transform::Transform2;

verus! {

/// The id of a placed entity.
#[derive(Debug, Copy, Clone, PartialEq, Eq, Structural, Hash)]
pub struct EntityId(pub usize);

/// Generate a new, per-run-unique entity id.
pub fn next_entity_id(counter: &mut IdCounter) -> (r: EntityId)
    requires
        old(counter).next < usize::MAX,
    ensures
        r == EntityId(old(counter).next),
        final(counter).next == old(counter).next + 1,
{
    EntityId(counter.fresh())
}

/// A generation timestamp, as plain values.
#[derive(Debug, Copy, Clone, PartialEq, Eq, Structural)]
pub struct Timestamp {
    pub year: i64,
    pub month: u8,
    pub day: u8,
    pub hour: u8,
    pub minute: u8,
}

/// The English month name, for months one through twelve.
pub open spec fn spec_month_name(m: int) -> Seq<char> {
    if m == 1 {
        "January"@
    } else if m == 2 {
        "February"@
    } else if m == 3 {
        "March"@
    } else if m == 4 {
        "April"@
    } else if m == 5 {
        "May"@
    } else if m == 6 {
        "June"@
    } else if m == 7 {
        "July"@
    } else if m == 8 {
        "August"@
    } else if m == 9 {
        "September"@
    } else if m == 10 {
        "October"@
    } else if m == 11 {
        "November"@
    } else {
        "December"@
    }
}

/// The English month name.
fn month_name(m: u8) -> (r: &'static str)
    requires
        1 <= m <= 12,
    ensures
        r@ == spec_month_name(m as int),
{
    match m {
        1 => "January",
        2 => "February",
        3 => "March",
        4 => "April",
        5 => "May",
        6 => "June",
        7 => "July",
        8 => "August",
        9 => "September",
        10 => "October",
        11 => "November",
        _ => "December",
    }
}

/// One placed entity: its id, the model it instantiates, and its own
/// state.
#[derive(Debug)]
pub struct SheetEntity {
    pub id: EntityId,
    pub handle: ModelHandle,
    pub state: EntityState,
}

/// A sheet: placed entities in placement order, and the sheet's size in
/// whole millimetres.
#[derive(Debug)]
pub struct Sheet {
    pub entities: Vec<SheetEntity>,
    pub sheet_width: i64,
    pub sheet_height: i64,
    pub entity_counter: IdCounter,
}

/// The translation step, in fixed point, between successive copies placed
/// in one call: five millimetres right and up.
pub const PLACE_STEP: i64 = 5_000_000;

/// The state of the `k`-th copy placed in one call: the given state,
/// shifted `k` placement steps.
pub open spec fn spec_placed(state: EntityState, k: int) -> EntityState {
    EntityState {
        transform: Transform2 {
            a: state.transform.a,
            b: state.transform.b,
            tx: (state.transform.tx + k * PLACE_STEP) as i64,
            ty: (state.transform.ty + k * PLACE_STEP) as i64,
        },
        flip: state.flip,
        laser_condition: state.laser_condition,
    }
}

impl Sheet {
    /// Well-formed: every placement carries a usable transform and a
    /// well-formed model, and ids are pairwise distinct.
    pub open spec fn wf(&self) -> bool {
        &&& forall|i: int|
            0 <= i < self.entities@.len() ==> (#[trigger] self.entities@[i]).state.wf() && shape_wf(
                self.entities@[i].handle.model@.shape,
            )
        &&& forall|i: int, j: int|
            0 <= i < j < self.entities@.len() ==> (#[trigger] self.entities@[i]).id != (
            #[trigger] self.entities@[j]).id
    }

    /// An empty sheet, 300 by 300 millimetres.
    pub fn new() -> (r: Sheet)
        ensures
            r.entities@.len() == 0,
            r.sheet_width == 300i64,
            r.sheet_height == 300i64,
            r.entity_counter.next == 0,
            r.wf(),
    {
        Sheet {
            entities: Vec::new(),
            sheet_width: 300,
            sheet_height: 300,
            entity_counter: IdCounter::new(),
        }
    }

    /// Change the sheet's width, in millimetres.
    pub fn change_width(&mut self, width: i64)
        ensures
            final(self).sheet_width == width,
            final(self).sheet_height == old(self).sheet_height,
            final(self).entities@ == old(self).entities@,
            final(self).entity_counter == old(self).entity_counter,
    {
        self.sheet_width = width;
    }

    /// Change the sheet's height, in millimetres.
    pub fn change_height(&mut self, height: i64)
        ensures
            final(self).sheet_height == height,
            final(self).sheet_width == old(self).sheet_width,
            final(self).entities@ == old(self).entities@,
            final(self).entity_counter == old(self).entity_counter,
    {
        self.sheet_height = height;
    }

    /// Place `qty` copies of a model, each one shifted one placement step
    /// from the one before, starting at the given state.
    pub fn add_model_from_handle_with_transform(
        &mut self,
        handle: ModelHandle,
        transform: EntityState,
        qty: usize,
    )
        requires
            old(self).wf(),
            transform.wf(),
            shape_wf(handle.model@.shape),
            old(self).entity_counter.next + qty <= usize::MAX,
            transform.transform.tx + qty * PLACE_STEP <= crate::geom::COORD_LIMIT,
            transform.transform.ty + qty * PLACE_STEP <= crate::geom::COORD_LIMIT,
            forall|i: int|
                0 <= i < old(self).entities@.len()
                    ==> (#[trigger] old(self).entities@[i]).id.0 < old(self).entity_counter.next,
        ensures
            final(self).wf(),
            final(self).entities@.len() == old(self).entities@.len() + qty,
            final(self).entities@.take(old(self).entities@.len() as int) =~= old(self).entities@,
            forall|k: int|
                0 <= k < qty ==> {
                    let e = #[trigger] final(self).entities@[old(self).entities@.len() + k];
                    &&& e.id == EntityId((old(self).entity_counter.next + k) as usize)
                    &&& e.handle.index == handle.index
                    &&& e.handle.model@ == handle.model@
                    &&& e.state == spec_placed(transform, k)
                },
            final(self).entity_counter.next == old(self).entity_counter.next + qty,
            final(self).sheet_width == old(self).sheet_width,
            final(self).sheet_height == old(self).sheet_height,
            forall|i: int|
                0 <= i < final(self).entities@.len()
                    ==> (#[trigger] final(self).entities@[i]).id.0
                    < final(self).entity_counter.next,
    {
        let ghost pre = self.entities@;
        let ghost pre_next = self.entity_counter.next;
        let mut state = transform;
        let mut placed: usize = 0;
        while placed < qty
            invariant
                0 <= placed <= qty,
                transform.wf(),
                shape_wf(handle.model@.shape),
                pre_next + qty <= usize::MAX,
                transform.transform.tx + qty * PLACE_STEP <= crate::geom::COORD_LIMIT,
                transform.transform.ty + qty * PLACE_STEP <= crate::geom::COORD_LIMIT,
                self.entity_counter.next == pre_next + placed,
                state == spec_placed(transform, placed as int),
                self.entities@.len() == pre.len() + placed,
                self.entities@.take(pre.len() as int) =~= pre,
                forall|i: int|
                    0 <= i < pre.len() ==> #[trigger] self.entities@[i] == pre[i],
                forall|k: int|
                    0 <= k < placed ==> {
                        let e = #[trigger] self.entities@[pre.len() + k];
                        &&& e.id == EntityId((pre_next + k) as usize)
                        &&& e.handle.index == handle.index
                        &&& e.handle.model@ == handle.model@
                        &&& e.state == spec_placed(transform, k)
                    },
                forall|i: int|
                    0 <= i < pre.len() ==> (#[trigger] pre[i]).id.0 < pre_next,
                forall|i: int|
                    0 <= i < self.entities@.len() ==> (#[trigger] self.entities@[i]).id.0
                        < self.entity_counter.next,
                forall|i: int|
                    0 <= i < self.entities@.len() ==> (#[trigger] self.entities@[i]).state.wf()
                        && shape_wf(self.entities@[i].handle.model@.shape),
                forall|i: int, j: int|
                    0 <= i < j < self.entities@.len() ==> (#[trigger] self.entities@[i]).id != (
                    #[trigger] self.entities@[j]).id,
                self.sheet_width == old(self).sheet_width,
                self.sheet_height == old(self).sheet_height,
            decreases qty - placed,
        {
            let id = next_entity_id(&mut self.entity_counter);
            let h = handle.duplicate();
            proof {
                assert(state.wf());
            }
            self.entities.push(SheetEntity { id, handle: h, state });
            state.transform.translate_by(PLACE_STEP, PLACE_STEP);
            proof {
                assert(state == spec_placed(transform, placed + 1 as int));
                assert(self.entities@.take(pre.len() as int) =~= pre);
            }
            placed = placed + 1;
        }
    }

    /// Place `qty` copies of a model with the identity transform, not
    /// flipped, under the given cut condition.
    pub fn add_model_from_handle(
        &mut self,
        handle: ModelHandle,
        qty: usize,
        laser_condition: crate::laser::ConditionId,
    )
        requires
            old(self).wf(),
            shape_wf(handle.model@.shape),
            old(self).entity_counter.next + qty <= usize::MAX,
            qty * PLACE_STEP <= crate::geom::COORD_LIMIT,
            forall|i: int|
                0 <= i < old(self).entities@.len()
                    ==> (#[trigger] old(self).entities@[i]).id.0 < old(self).entity_counter.next,
        ensures
            final(self).wf(),
            final(self).entities@.len() == old(self).entities@.len() + qty,
            final(self).entities@.take(old(self).entities@.len() as int) =~= old(self).entities@,
            forall|k: int|
                0 <= k < qty ==> {
                    let e = #[trigger] final(self).entities@[old(self).entities@.len() + k];
                    &&& e.id == EntityId((old(self).entity_counter.next + k) as usize)
                    &&& e.handle.index == handle.index
                    &&& e.handle.model@ == handle.model@
                    &&& e.state == spec_placed(
                        EntityState {
                            transform: Transform2 { a: crate::geom::UNIT, b: 0i64, tx: 0i64, ty: 0i64 },
                            flip: false,
                            laser_condition,
                        },
                        k,
                    )
                },
            final(self).entity_counter.next == old(self).entity_counter.next + qty,
            forall|i: int|
                0 <= i < final(self).entities@.len()
                    ==> (#[trigger] final(self).entities@[i]).id.0
                    < final(self).entity_counter.next,
    {
        let transform = EntityState {
            transform: Transform2::identity(),
            flip: false,
            laser_condition,
        };
        self.add_model_from_handle_with_transform(handle, transform, qty);
    }

    /// Remove the entity with the given id. Asking for an id that is not
    /// placed is a programming error, so the id is required to be present.
    pub fn delete_entity(&mut self, id: EntityId)
        requires
            exists|i: int|
                0 <= i < old(self).entities@.len() && (#[trigger] old(self).entities@[i]).id == id,
        ensures
            exists|i: int|
                0 <= i < old(self).entities@.len() && (#[trigger] old(self).entities@[i]).id == id
                    && final(self).entities@ == old(self).entities@.remove(i),
            final(self).sheet_width == old(self).sheet_width,
            final(self).sheet_height == old(self).sheet_height,
            final(self).entity_counter == old(self).entity_counter,
            old(self).wf() ==> final(self).wf(),
    {
        let ghost pre = self.entities@;
        let mut i: usize = 0;
        while i < self.entities.len()
            invariant
                0 <= i <= self.entities@.len(),
                pre == old(self).entities@,
                self.entities@ == pre,
                self.sheet_width == old(self).sheet_width,
                self.sheet_height == old(self).sheet_height,
                self.entity_counter == old(self).entity_counter,
                exists|k: int| i <= k < pre.len() && (#[trigger] pre[k]).id == id,
                forall|k: int| 0 <= k < i ==> (#[trigger] pre[k]).id != id,
            decreases self.entities@.len() - i,
        {
            if self.entities[i].id == id {
                let _ = self.entities.remove(i);
                proof {
                    pre.remove_ensures(i as int);
                    if old(self).wf() {
                        let post = self.entities@;
                        assert(post == pre.remove(i as int));
                        assert forall|a: int, b: int|
                            0 <= a < b < post.len() implies (#[trigger] post[a]).id != (
                            #[trigger] post[b]).id by {
                            let a2: int = if a < i as int { a } else { a + 1 };
                            let b2: int = if b < i as int { b } else { b + 1 };
                            assert(pre.remove(i as int)[a] == pre[a2]);
                            assert(pre.remove(i as int)[b] == pre[b2]);
                            assert((old(self).entities@[a2]).id != (old(self).entities@[b2]).id);
                        }
                        assert forall|a: int|
                            0 <= a < post.len() implies (#[trigger] post[a]).state.wf() && shape_wf(
                            post[a].handle.model@.shape,
                        ) by {
                            let a2: int = if a < i as int { a } else { a + 1 };
                            assert(pre.remove(i as int)[a] == pre[a2]);
                            assert((old(self).entities@[a2]).state.wf() && shape_wf(
                                old(self).entities@[a2].handle.model@.shape,
                            ));
                        }
                    }
                }
                return ;
            }
            i = i + 1;
        }
        proof {
            assert(false);
        }
    }
}

/// The comment opening every sheet document, naming the generator and
/// its version.
pub open spec fn gen_banner_comment() -> Seq<char> {
    "Gcode generated by LaserCAM 0.1.0"@
}

/// The comment naming the sheet and its size.
pub open spec fn sheet_size_comment(name: Seq<char>, w: i64, h: i64) -> Seq<char> {
    "Sheet \""@ + name + "\" width: "@ + int_str(w as int) + "; height: "@ + int_str(h as int)
}

/// The comment carrying the generation timestamp.
pub open spec fn gen_stamp_comment(ts: Timestamp) -> Seq<char> {
    "Generated on "@ + spec_month_name(ts.month as int) + " "@ + crate::decimal::dec_str(
        ts.day as nat,
    ) + ", "@ + int_str(ts.year as int) + " at "@ + crate::decimal::dec_str(ts.hour as nat) + ":"@
        + crate::decimal::dec_str(ts.minute as nat)
}

/// The fixed setup block every sheet document carries.
pub open spec fn header_block() -> BlockView {
    BlockView {
        codes: seq![InsView::G(54), InsView::G(17), InsView::G(21), InsView::G(90), InsView::G(94)],
        comment: None,
    }
}

/// The final rapid return to the origin.
pub open spec fn origin_block() -> BlockView {
    BlockView { codes: seq![InsView::G(0), InsView::X(0), InsView::Y(0)], comment: None }
}

/// What the first `n` placed entities emit, in placement order, each under
/// its own state and its stored cut condition.
pub open spec fn spec_entities_blocks(
    entities: Seq<SheetEntity>,
    store: ConditionStore,
    n: int,
) -> Seq<BlockView>
    decreases n,
{
    if n <= 0 {
        Seq::<BlockView>::empty()
    } else {
        spec_entities_blocks(entities, store, n - 1) + spec_model_blocks(
            entities[n - 1].handle.model@,
            entities[n - 1].state,
            store.spec_get(entities[n - 1].state.laser_condition),
        )
    }
}

/// Every block of a sheet's document, in order: the banner comment, the
/// sheet comment, the timestamp comment, the setup block, every entity's
/// program, the rapid return to the origin, and the program end.
pub open spec fn spec_sheet_blocks(
    name: Seq<char>,
    w: i64,
    h: i64,
    ts: Timestamp,
    entities: Seq<SheetEntity>,
    store: ConditionStore,
) -> Seq<BlockView> {
    seq![
        spec_comment_block(gen_banner_comment()),
        spec_comment_block(sheet_size_comment(name, w, h)),
        spec_comment_block(gen_stamp_comment(ts)),
        header_block(),
    ] + spec_entities_blocks(entities, store, entities.len() as int) + seq![
        origin_block(),
        end_block(),
    ]
}

impl Sheet {
    /// Serialize the whole sheet into one document: the banner, sheet and
    /// timestamp comments, the fixed setup codes, every placed entity's
    /// program in placement order — each condition id resolved against the
    /// store — a rapid return to the origin, and the program-end block.
    pub fn generate_gcode(&self, name: &str, store: &ConditionStore, ts: Timestamp) -> (r: String)
        requires
            self.wf(),
            store.wf(),
            1 <= ts.month <= 12,
            forall|i: int|
                0 <= i < self.entities@.len() ==> store.spec_has(
                    (#[trigger] self.entities@[i]).state.laser_condition,
                ),
        ensures
            r@ == doc_str(
                spec_sheet_blocks(
                    name@,
                    self.sheet_width,
                    self.sheet_height,
                    ts,
                    self.entities@,
                    *store,
                ),
            ),
    {
        let mut builder = GcodeBuilder::default();
        builder.comment_block("Gcode generated by LaserCAM 0.1.0");
        let mut size_comment = String::from_str("Sheet \"");
        size_comment.append(name);
        size_comment.append("\" width: ");
        push_int(&mut size_comment, self.sheet_width);
        size_comment.append("; height: ");
        push_int(&mut size_comment, self.sheet_height);
        builder.comment_block(size_comment.as_str());
        let mut stamp = String::from_str("Generated on ");
        stamp.append(month_name(ts.month));
        proof {
            reveal_strlit(" ");
            reveal_strlit(":");
        }
        assert(" "@ =~= seq![' ']);
        s_append_space(&mut stamp);
        push_dec(&mut stamp, ts.day as u64);
        stamp.append(", ");
        push_int(&mut stamp, ts.year);
        stamp.append(" at ");
        push_dec(&mut stamp, ts.hour as u64);
        stamp.append(":");
        push_dec(&mut stamp, ts.minute as u64);
        proof {
            assert(stamp@ =~= gen_stamp_comment(ts));
        }
        builder.comment_block(stamp.as_str());
        builder.default_header();
        let ghost prefix = builder@.blocks;
        proof {
            assert(prefix =~~= seq![
                spec_comment_block(gen_banner_comment()),
                spec_comment_block(sheet_size_comment(name@, self.sheet_width, self.sheet_height)),
                spec_comment_block(gen_stamp_comment(ts)),
                header_block(),
            ]);
            assert(builder@.blocks =~~= prefix + spec_entities_blocks(
                self.entities@,
                *store,
                0int,
            ));
        }
        let mut i: usize = 0;
        while i < self.entities.len()
            invariant
                0 <= i <= self.entities@.len(),
                self.wf(),
                store.wf(),
                forall|k: int|
                    0 <= k < self.entities@.len() ==> store.spec_has(
                        (#[trigger] self.entities@[k]).state.laser_condition,
                    ),
                builder@.blocks == prefix + spec_entities_blocks(self.entities@, *store, i as int),
                builder@.current.codes.len() == 0,
                builder@.current.comment is None,
            decreases self.entities@.len() - i,
        {
            let ghost pre = builder@.blocks;
            let entity = &self.entities[i];
            let condition = store.get(entity.state.laser_condition);
            entity.handle.model.generate_gcode(&entity.state, &mut builder, condition);
            proof {
                assert(builder@.blocks =~~= prefix + spec_entities_blocks(
                    self.entities@,
                    *store,
                    i + 1 as int,
                ));
            }
            i = i + 1;
        }
        builder.rapid_motion();
        builder.x(0);
        builder.y(0);
        builder.eob();
        let ghost bv = builder@;
        let text = builder.finish();
        proof {
            assert(bv.blocks =~~= prefix + spec_entities_blocks(
                self.entities@,
                *store,
                self.entities@.len() as int,
            ) + seq![origin_block()]);
            assert(bv.current.codes.len() == 0);
            assert(crate::gcode::finished_blocks(bv) == bv.blocks.push(end_block()));
            assert(bv.blocks.push(end_block()) =~~= spec_sheet_blocks(
                name@,
                self.sheet_width,
                self.sheet_height,
                ts,
                self.entities@,
                *store,
            ));
        }
        text
    }
}

/// Append one space.
fn s_append_space(s: &mut String)
    ensures
        final(s)@ == old(s)@ + seq![' '],
{
    proof {
        reveal_strlit(" ");
    }
    assert(" "@ =~= seq![' ']);
    s.append(" ");
}

} // verus!
