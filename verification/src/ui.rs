//! Small pieces of interface state, and the text-field parser for numeric
//! inputs.

use vstd::prelude::*;
use vstd::string::StrSliceExecFns;

verus! {

/// Which pane of the program a widget belongs to.
#[derive(Debug, Copy, Clone, PartialEq, Eq, Structural)]
pub enum ProgramPane {
    Sheet,
    SheetList,
    ModelList,
    EntityParams,
    ConditionEditor,
}

/// Which model list the model pane shows.
#[derive(Debug, Copy, Clone, PartialEq, Eq, Structural)]
pub enum ModelPaneState {
    ActiveModels,
    AllModels,
}

impl ModelPaneState {
    /// The label shown for this choice.
    pub fn label(&self) -> (r: String)
        ensures
            self is ActiveModels ==> r@ == "Active Models"@,
            self is AllModels ==> r@ == "All Models"@,
    {
        match self {
            ModelPaneState::ActiveModels => String::from_str("Active Models"),
            ModelPaneState::AllModels => String::from_str("All Models"),
        }
    }
}

/// A sheet's entry in the sheet list: its display name, its generated
/// document if one was made, and its position.
#[derive(Debug, Clone)]
pub struct SheetIndex {
    pub name: String,
    pub gcode: Option<String>,
    pub index: usize,
}

impl SheetIndex {
    /// The name shown for this sheet.
    pub fn display_name(&self) -> (r: &str)
        ensures
            r@ == self.name@,
    {
        self.name.as_str()
    }
}

/// Is the character a decimal digit?
pub open spec fn spec_digit(c: char) -> bool {
    ('0' as u32) <= (c as u32) <= ('9' as u32)
}

/// Are all characters decimal digits?
pub open spec fn spec_all_digits(s: Seq<char>) -> bool {
    forall|i: int| 0 <= i < s.len() ==> spec_digit(#[trigger] s[i])
}

/// The value of the first `n` characters read as a decimal numeral.
pub open spec fn spec_dec_val(s: Seq<char>, n: int) -> int
    decreases n,
{
    if n <= 0 {
        0
    } else {
        spec_dec_val(s, n - 1) * 10 + ((s[n - 1] as u32) - ('0' as u32))
    }
}

/// What parsing text as an unsigned 32-bit number yields: an optional
/// leading plus sign, then at least one digit and nothing else, with the
/// value in range; anything else fails.
pub open spec fn spec_parse_u32_str(s: Seq<char>) -> Option<int> {
    let body = if s.len() > 0 && s[0] == '+' {
        s.skip(1)
    } else {
        s
    };
    if body.len() >= 1 && spec_all_digits(body) && spec_dec_val(body, body.len() as int)
        <= u32::MAX {
        Some(spec_dec_val(body, body.len() as int))
    } else {
        None
    }
}

/// What the numeric text fields accept: empty text counts as zero, text
/// that parses as an unsigned 32-bit number is clamped to the 16-bit
/// range, and anything else fails.
pub open spec fn spec_parse_u16(s: Seq<char>) -> Option<u16> {
    if s.len() == 0 {
        Some(0u16)
    } else {
        match spec_parse_u32_str(s) {
            Some(v) => if v > 65535 {
                Some(65535u16)
            } else {
                Some(v as u16)
            },
            None => None,
        }
    }
}

/// Parse a numeric text field: empty text is zero, a well-formed number
/// is clamped to the 16-bit range, and anything else — a stray sign, a
/// non-digit, or a value past the 32-bit range — is rejected.
pub fn parse_u16(s: &str) -> (r: Option<u16>)
    ensures
        r == spec_parse_u16(s@),
{
    let n = s.unicode_len();
    if n == 0 {
        return Some(0);
    }
    let first = s.get_char(0);
    let start: usize = if first == '+' {
        1
    } else {
        0
    };
    let ghost body = if s@[0] == '+' {
        s@.skip(1)
    } else {
        s@
    };
    proof {
        assert(body.len() == n - start);
        assert forall|k: int| 0 <= k < body.len() implies #[trigger] body[k] == s@[k
            + start as int] by {}
    }
    if n == start {
        return None;
    }
    let mut acc: u64 = 0;
    let mut too_big = false;
    let mut i: usize = start;
    while i < n
        invariant
            start <= i <= n,
            n == s@.len(),
            n >= 1,
            start == (if s@[0] == '+' {
                1int
            } else {
                0int
            }),
            body == (if s@[0] == '+' {
                s@.skip(1)
            } else {
                s@
            }),
            body.len() == n - start,
            forall|k: int| 0 <= k < body.len() ==> #[trigger] body[k] == s@[k + start as int],
            forall|k: int| 0 <= k < i - start ==> spec_digit(#[trigger] body[k]),
            !too_big ==> acc == spec_dec_val(body, i - start) && acc <= u32::MAX,
            too_big ==> spec_dec_val(body, i - start) > u32::MAX,
            acc <= 0x1_0000_0000,
        decreases n - i,
    {
        let c = s.get_char(i);
        let cv = c as u32;
        if cv < 48 || cv > 57 {
            proof {
                assert(body[i - start as int] == s@[i as int]);
                assert(!spec_digit(body[i - start as int]));
            }
            return None;
        }
        proof {
            assert(body[i - start as int] == s@[i as int]);
            assert(spec_digit(body[i - start as int]));
            assert(spec_dec_val(body, i + 1 - start as int) == spec_dec_val(body, i - start as int)
                * 10 + ((body[i - start as int] as u32) - ('0' as u32)));
        }
        let d = (cv - 48) as u64;
        acc = acc * 10 + d;
        if acc > 0xFFFF_FFFF {
            too_big = true;
            if acc > 0x1_0000_0000 {
                acc = 0x1_0000_0000;
            }
        }
        i = i + 1;
    }
    proof {
        assert(i - start == body.len());
        assert(spec_all_digits(body));
    }
    if too_big {
        return None;
    }
    if acc > 65535 {
        Some(65535)
    } else {
        Some(acc as u16)
    }
}

} // verus!
