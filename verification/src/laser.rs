//! Cut conditions: named, ordered sequences of pass specifications, kept in
//! an insertion-ordered store and referenced by id from placed entities.

use vstd::prelude::*;
use vstd::string::StringExecFns;
use crate::decimal::dec_digit;
use crate::decimal::dec_str;
use crate::decimal::push_dec;

verus! {

/// One pass specification of a cut condition: either a controller-managed
/// pass (laser at constant power, or power scaled with motion speed), or
/// raw user-authored text fragments substituted verbatim.
#[derive(Debug, Clone)]
pub enum SequenceItem {
    GrblConst { passes: u16, power: u16, feed: u16 },
    GrblDyn { passes: u16, power: u16, feed: u16 },
    Custom { passes: u16, laser_on: String, laser_off: String, power: String, feed: String },
}

/// The tag of a `SequenceItem`, without its payload.
#[derive(Debug, Copy, Clone, PartialEq, Eq, Structural)]
pub enum SeqItemType {
    GrblConst,
    GrblDyn,
    Custom,
}

/// The tag of a pass specification.
pub open spec fn spec_item_type(s: SequenceItem) -> SeqItemType {
    match s {
        SequenceItem::GrblConst { .. } => SeqItemType::GrblConst,
        SequenceItem::GrblDyn { .. } => SeqItemType::GrblDyn,
        SequenceItem::Custom { .. } => SeqItemType::Custom,
    }
}

/// How many passes a pass specification asks for.
pub open spec fn spec_passes(s: SequenceItem) -> u16 {
    match s {
        SequenceItem::GrblConst { passes, .. } => passes,
        SequenceItem::GrblDyn { passes, .. } => passes,
        SequenceItem::Custom { passes, .. } => passes,
    }
}

/// The feed field as text: the numeral for the controller-managed variants,
/// the user's text verbatim for `Custom`.
pub open spec fn spec_feed_str(s: SequenceItem) -> Seq<char> {
    match s {
        SequenceItem::GrblConst { feed, .. } => dec_str(feed as nat),
        SequenceItem::GrblDyn { feed, .. } => dec_str(feed as nat),
        SequenceItem::Custom { ref feed, .. } => feed@,
    }
}

/// The power field as text: the numeral for the controller-managed
/// variants, the user's text verbatim for `Custom`.
pub open spec fn spec_power_str(s: SequenceItem) -> Seq<char> {
    match s {
        SequenceItem::GrblConst { power, .. } => dec_str(power as nat),
        SequenceItem::GrblDyn { power, .. } => dec_str(power as nat),
        SequenceItem::Custom { ref power, .. } => power@,
    }
}

/// A controller power level as a percentage number: the level is tenths
/// of a percent, and the tenths digit is printed only when it is not zero.
pub open spec fn spec_percent_num_str(power: u16) -> Seq<char> {
    if power % 10 == 0 {
        dec_str((power / 10) as nat)
    } else {
        dec_str((power / 10) as nat) + seq!['.', dec_digit((power % 10) as int)]
    }
}

/// A controller power level shown as a percentage.
pub open spec fn spec_percent_str(power: u16) -> Seq<char> {
    spec_percent_num_str(power) + seq!['%']
}

/// The power field as display text: a percentage for the
/// controller-managed variants, the user's text verbatim for `Custom`.
pub open spec fn spec_power_pretty_str(s: SequenceItem) -> Seq<char> {
    match s {
        SequenceItem::GrblConst { power, .. } => spec_percent_str(power),
        SequenceItem::GrblDyn { power, .. } => spec_percent_str(power),
        SequenceItem::Custom { ref power, .. } => power@,
    }
}

impl SequenceItem {
    /// This item's tag.
    pub fn item_type(&self) -> (r: SeqItemType)
        ensures
            r == spec_item_type(*self),
    {
        match self {
            SequenceItem::GrblConst { .. } => SeqItemType::GrblConst,
            SequenceItem::GrblDyn { .. } => SeqItemType::GrblDyn,
            SequenceItem::Custom { .. } => SeqItemType::Custom,
        }
    }

    /// How many passes this item asks for.
    pub fn passes(&self) -> (r: u16)
        ensures
            r == spec_passes(*self),
    {
        match self {
            SequenceItem::GrblConst { passes, .. } => *passes,
            SequenceItem::GrblDyn { passes, .. } => *passes,
            SequenceItem::Custom { passes, .. } => *passes,
        }
    }

    /// The feed field as text.
    pub fn feed_string(&self) -> (r: String)
        ensures
            r@ == spec_feed_str(*self),
    {
        match self {
            SequenceItem::GrblConst { feed, .. } => {
                let mut s = String::new();
                push_dec(&mut s, *feed as u64);
                assert(s@ =~= spec_feed_str(*self));
                s
            }
            SequenceItem::GrblDyn { feed, .. } => {
                let mut s = String::new();
                push_dec(&mut s, *feed as u64);
                assert(s@ =~= spec_feed_str(*self));
                s
            }
            SequenceItem::Custom { feed, .. } => feed.clone(),
        }
    }

    /// The power field as text.
    pub fn power_string(&self) -> (r: String)
        ensures
            r@ == spec_power_str(*self),
    {
        match self {
            SequenceItem::GrblConst { power, .. } => {
                let mut s = String::new();
                push_dec(&mut s, *power as u64);
                assert(s@ =~= spec_power_str(*self));
                s
            }
            SequenceItem::GrblDyn { power, .. } => {
                let mut s = String::new();
                push_dec(&mut s, *power as u64);
                assert(s@ =~= spec_power_str(*self));
                s
            }
            SequenceItem::Custom { power, .. } => power.clone(),
        }
    }

    /// The power field as display text (a percentage for controller-managed
    /// passes).
    pub fn power_pretty_string(&self) -> (r: String)
        ensures
            r@ == spec_power_pretty_str(*self),
    {
        match self {
            SequenceItem::GrblConst { power, .. } => percent_string(*power),
            SequenceItem::GrblDyn { power, .. } => percent_string(*power),
            SequenceItem::Custom { power, .. } => power.clone(),
        }
    }
}

/// Append a power level's percentage number to `s`.
pub fn push_percent_num(s: &mut String, power: u16)
    ensures
        final(s)@ == old(s)@ + spec_percent_num_str(power),
{
    push_dec(s, (power / 10) as u64);
    if power % 10 != 0 {
        proof {
            reveal_strlit(".");
        }
        assert("."@ =~= seq!['.']);
        s.append(".");
        push_dec(s, (power % 10) as u64);
        proof {
            assert(dec_str((power % 10) as nat) =~= seq![dec_digit((power % 10) as int)]);
            assert(s@ =~= old(s)@ + spec_percent_num_str(power));
        }
    } else {
        assert(s@ =~= old(s)@ + spec_percent_num_str(power));
    }
}

/// A power level in tenths of a percent, as percentage text.
fn percent_string(power: u16) -> (r: String)
    ensures
        r@ == spec_percent_str(power),
{
    let mut s = String::new();
    push_percent_num(&mut s, power);
    proof {
        reveal_strlit("%");
    }
    assert("%"@ =~= seq!['%']);
    s.append("%");
    assert(s@ =~= spec_percent_str(power));
    s
}

impl SeqItemType {
    /// The label shown for this tag.
    pub fn label(&self) -> (r: String)
        ensures
            self is GrblConst ==> r@ == "GRBL Const (M3)"@,
            self is GrblDyn ==> r@ == "GRBL Dyn (M4)"@,
            self is Custom ==> r@ == "Custom"@,
    {
        match self {
            SeqItemType::GrblConst => String::from_str("GRBL Const (M3)"),
            SeqItemType::GrblDyn => String::from_str("GRBL Dyn (M4)"),
            SeqItemType::Custom => String::from_str("Custom"),
        }
    }
}

/// The id of a condition in a `ConditionStore`.
#[derive(Debug, Copy, Clone, PartialEq, Eq, Structural, Hash)]
pub struct ConditionId(pub usize);

/// A display color, each channel in fixed point with one million as full
/// intensity.
#[derive(Debug, Copy, Clone, PartialEq, Eq, Structural)]
pub struct Color {
    pub r: u32,
    pub g: u32,
    pub b: u32,
}

impl Color {
    /// Are all channels within full intensity?
    pub open spec fn wf(self) -> bool {
        self.r <= 1_000_000 && self.g <= 1_000_000 && self.b <= 1_000_000
    }

    /// Full-intensity white.
    pub fn white() -> (c: Color)
        ensures
            c == (Color { r: 1_000_000u32, g: 1_000_000u32, b: 1_000_000u32 }),
            c.wf(),
    {
        Color { r: 1_000_000, g: 1_000_000, b: 1_000_000 }
    }
}

/// A named cut condition: an id, a display color, and an ordered list of
/// pass specifications.
#[derive(Debug, Clone)]
pub struct Condition {
    pub id: ConditionId,
    pub color: Color,
    pub name: String,
    pub sequence: Vec<SequenceItem>,
}

/// The name and id of a condition, for display lists.
#[derive(Clone)]
pub struct ConditionDisplay {
    pub id: ConditionId,
    pub name: String,
}

impl Condition {
    /// This condition's display entry.
    pub fn display(&self) -> (r: ConditionDisplay)
        ensures
            r.id == self.id,
            r.name@ == self.name@,
    {
        ConditionDisplay { id: self.id, name: self.name.clone() }
    }
}

/// A source of fresh, per-run-unique ids.
#[derive(Debug, Clone, PartialEq, Eq, Structural)]
pub struct IdCounter {
    pub next: usize,
}

impl IdCounter {
    /// A counter starting at zero.
    pub fn new() -> (r: IdCounter)
        ensures
            r.next == 0,
    {
        IdCounter { next: 0 }
    }

    /// Hand out the next id.
    pub fn fresh(&mut self) -> (r: usize)
        requires
            old(self).next < usize::MAX,
        ensures
            r == old(self).next,
            final(self).next == old(self).next + 1,
    {
        let r = self.next;
        self.next = self.next + 1;
        r
    }
}

/// Generate a new, per-run-unique condition id.
pub fn next_condition_id(counter: &mut IdCounter) -> (r: ConditionId)
    requires
        old(counter).next < usize::MAX,
    ensures
        r == ConditionId(old(counter).next),
        final(counter).next == old(counter).next + 1,
{
    ConditionId(counter.fresh())
}

} // verus!
