//! Formatting a line number as the prefix that numbered output carries:
//! the decimal digits right-justified to a width of six columns, followed
//! by a single tab. Numbers wider than six columns keep all their digits
//! and get no padding.

use vstd::prelude::*;

verus! {

/// The tab byte.
pub const TAB: u8 = 0x09;

/// The space byte.
pub const SPACE: u8 = 0x20;

/// The byte of the digit zero.
pub const DIGIT_ZERO: u8 = 0x30;

/// The width every number field is right-justified to.
pub const FIELD_WIDTH: usize = 6;

/// The decimal digits of `n`, most significant first, without leading
/// zeros (the number zero is the single digit `0`).
pub open spec fn dec_digits(n: nat) -> Seq<u8>
    decreases n,
{
    if n < 10 {
        seq![(DIGIT_ZERO + n) as u8]
    } else {
        dec_digits(n / 10) + seq![(DIGIT_ZERO + n % 10) as u8]
    }
}

/// `k` space bytes.
pub open spec fn spaces(k: nat) -> Seq<u8> {
    Seq::new(k, |i: int| SPACE)
}

/// The digits of `n` right-justified with spaces to the field width.
pub open spec fn justified_digits(n: nat) -> Seq<u8> {
    let d = dec_digits(n);
    if d.len() < FIELD_WIDTH {
        spaces((FIELD_WIDTH - d.len()) as nat) + d
    } else {
        d
    }
}

/// The whole number field: the justified digits followed by one tab.
pub open spec fn number_field(n: nat) -> Seq<u8> {
    justified_digits(n) + seq![TAB]
}

/// The decimal digits of `n`, as bytes.
fn dec_digits_exec(n: usize) -> (r: Vec<u8>)
    ensures
        r@ == dec_digits(n as nat),
    decreases n,
{
    if n < 10 {
        let d: u8 = DIGIT_ZERO + (n as u8);
        let mut out: Vec<u8> = Vec::new();
        out.push(d);
        proof {
            assert(out@ =~= dec_digits(n as nat));
        }
        out
    } else {
        let mut out = dec_digits_exec(n / 10);
        let d: u8 = DIGIT_ZERO + ((n % 10) as u8);
        out.push(d);
        proof {
            assert(out@ =~= dec_digits(n as nat));
        }
        out
    }
}

/// Formats the number field for `n`: its decimal digits right-justified
/// with spaces to six columns, then a tab.
pub fn format_number(n: usize) -> (r: Vec<u8>)
    ensures
        r@ == number_field(n as nat),
{
    let digits = dec_digits_exec(n);
    let mut out: Vec<u8> = Vec::new();
    if digits.len() < FIELD_WIDTH {
        let pad = FIELD_WIDTH - digits.len();
        let mut j: usize = 0;
        while j < pad
            invariant
                j <= pad,
                out@ == spaces(j as nat),
            decreases pad - j,
        {
            out.push(SPACE);
            j = j + 1;
            proof {
                assert(out@ =~= spaces(j as nat));
            }
        }
    }
    out.extend_from_slice(digits.as_slice());
    out.push(TAB);
    proof {
        assert(out@ =~= number_field(n as nat));
    }
    out
}

} // verus!
