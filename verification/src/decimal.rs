//! Verified decimal text: plain integers, zero-padded fields, and
//! fixed-point values with exactly six digits after the decimal point.

use vstd::prelude::*;
use vstd::string::StringExecFns;

verus! {

/// One unit of the fixed-point coordinate scale, as text math needs it.
pub const FIXED_ONE: u64 = 1_000_000;

/// The decimal digit character for `d` in 0..=9.
pub open spec fn dec_digit(d: int) -> char {
    if d == 0 {
        '0'
    } else if d == 1 {
        '1'
    } else if d == 2 {
        '2'
    } else if d == 3 {
        '3'
    } else if d == 4 {
        '4'
    } else if d == 5 {
        '5'
    } else if d == 6 {
        '6'
    } else if d == 7 {
        '7'
    } else if d == 8 {
        '8'
    } else {
        '9'
    }
}

/// The ordinary decimal numeral of `n`, without sign or padding.
pub open spec fn dec_str(n: nat) -> Seq<char>
    decreases n,
{
    if n < 10 {
        seq![dec_digit(n as int)]
    } else {
        dec_str(n / 10) + seq![dec_digit((n % 10) as int)]
    }
}

/// The last `width` decimal digits of `n`, zero padded on the left.
pub open spec fn dec_str_pad(n: nat, width: nat) -> Seq<char>
    decreases width,
{
    if width == 0 {
        Seq::<char>::empty()
    } else {
        dec_str_pad(n / 10, (width - 1) as nat) + seq![dec_digit((n % 10) as int)]
    }
}

/// A non-negative fixed-point value as text: the whole millimetres, a
/// point, and exactly six fractional digits.
pub open spec fn fixed_mag_str(m: nat) -> Seq<char> {
    dec_str(m / (FIXED_ONE as nat)) + seq!['.'] + dec_str_pad(m % (FIXED_ONE as nat), 6)
}

/// A fixed-point value as text, with a leading minus sign when negative.
pub open spec fn fixed_str(v: int) -> Seq<char> {
    if v < 0 {
        seq!['-'] + fixed_mag_str((-v) as nat)
    } else {
        fixed_mag_str(v as nat)
    }
}

/// The decimal numeral of a signed value, with a leading minus sign when
/// negative.
pub open spec fn int_str(v: int) -> Seq<char> {
    if v < 0 {
        seq!['-'] + dec_str((-v) as nat)
    } else {
        dec_str(v as nat)
    }
}

/// The one-character string for a decimal digit.
fn digit_str(d: u8) -> (r: &'static str)
    requires
        d < 10,
    ensures
        r@ == seq![dec_digit(d as int)],
{
    match d {
        0 => {
            proof {
                reveal_strlit("0");
            }
            let r = "0";
            assert(r@ =~= seq![dec_digit(0)]);
            r
        }
        1 => {
            proof {
                reveal_strlit("1");
            }
            let r = "1";
            assert(r@ =~= seq![dec_digit(1)]);
            r
        }
        2 => {
            proof {
                reveal_strlit("2");
            }
            let r = "2";
            assert(r@ =~= seq![dec_digit(2)]);
            r
        }
        3 => {
            proof {
                reveal_strlit("3");
            }
            let r = "3";
            assert(r@ =~= seq![dec_digit(3)]);
            r
        }
        4 => {
            proof {
                reveal_strlit("4");
            }
            let r = "4";
            assert(r@ =~= seq![dec_digit(4)]);
            r
        }
        5 => {
            proof {
                reveal_strlit("5");
            }
            let r = "5";
            assert(r@ =~= seq![dec_digit(5)]);
            r
        }
        6 => {
            proof {
                reveal_strlit("6");
            }
            let r = "6";
            assert(r@ =~= seq![dec_digit(6)]);
            r
        }
        7 => {
            proof {
                reveal_strlit("7");
            }
            let r = "7";
            assert(r@ =~= seq![dec_digit(7)]);
            r
        }
        8 => {
            proof {
                reveal_strlit("8");
            }
            let r = "8";
            assert(r@ =~= seq![dec_digit(8)]);
            r
        }
        _ => {
            proof {
                reveal_strlit("9");
            }
            let r = "9";
            assert(r@ =~= seq![dec_digit(9)]);
            r
        }
    }
}

/// Append the decimal numeral of `n` to `s`.
pub fn push_dec(s: &mut String, n: u64)
    ensures
        final(s)@ == old(s)@ + dec_str(n as nat),
    decreases n,
{
    if n >= 10 {
        push_dec(s, n / 10);
    }
    let ghost mid = s@;
    s.append(digit_str((n % 10) as u8));
    proof {
        if n < 10 {
            assert(n % 10 == n);
            assert(s@ =~= old(s)@ + dec_str(n as nat));
        } else {
            assert(mid == old(s)@ + dec_str((n / 10) as nat));
            assert(s@ =~= old(s)@ + dec_str(n as nat));
        }
    }
}

/// Append the last `width` digits of `n` to `s`, zero padded.
pub fn push_dec_pad(s: &mut String, n: u64, width: u64)
    ensures
        final(s)@ == old(s)@ + dec_str_pad(n as nat, width as nat),
    decreases width,
{
    if width > 0 {
        push_dec_pad(s, n / 10, width - 1);
        let ghost mid = s@;
        s.append(digit_str((n % 10) as u8));
        proof {
            assert(s@ =~= old(s)@ + dec_str_pad(n as nat, width as nat));
        }
    } else {
        proof {
            assert(s@ =~= old(s)@ + dec_str_pad(n as nat, 0));
        }
    }
}

/// Append the six-decimal fixed-point text of `v` to `s`.
pub fn push_fixed(s: &mut String, v: i64)
    ensures
        final(s)@ == old(s)@ + fixed_str(v as int),
{
    let mag: u64 = if v < 0 {
        proof {
            reveal_strlit("-");
        }
        s.append("-");
        assert(s@ =~= old(s)@ + seq!['-']);
        (-(v as i128)) as u64
    } else {
        v as u64
    };
    let ghost with_sign = s@;
    push_dec(s, mag / FIXED_ONE);
    proof {
        reveal_strlit(".");
    }
    s.append(".");
    push_dec_pad(s, mag % FIXED_ONE, 6);
    proof {
        assert(s@ =~= with_sign + fixed_mag_str(mag as nat));
    }
}

/// Append the signed decimal numeral of `v` to `s`.
pub fn push_int(s: &mut String, v: i64)
    ensures
        final(s)@ == old(s)@ + int_str(v as int),
{
    let mag: u64 = if v < 0 {
        proof {
            reveal_strlit("-");
        }
        s.append("-");
        assert(s@ =~= old(s)@ + seq!['-']);
        (-(v as i128)) as u64
    } else {
        v as u64
    };
    push_dec(s, mag);
}

/// The decimal numeral of `n` as a fresh string.
pub fn dec_string(n: u64) -> (r: String)
    ensures
        r@ == dec_str(n as nat),
{
    let mut s = String::new();
    push_dec(&mut s, n);
    assert(s@ =~= dec_str(n as nat));
    s
}

/// The six-decimal fixed-point text of `v` as a fresh string.
pub fn fixed_string(v: i64) -> (r: String)
    ensures
        r@ == fixed_str(v as int),
{
    let mut s = String::new();
    push_fixed(&mut s, v);
    assert(s@ =~= fixed_str(v as int));
    s
}

} // verus!
