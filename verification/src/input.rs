//! Reading a number from the bytes that the host has at hand.

use vstd::prelude::*;

verus! {

/// Whether a byte is one of the digits `0` to `9`.
pub open spec fn is_digit(byte: u8) -> bool {
    0x30 <= byte <= 0x39
}

/// The number of digits with which `bytes` begins.
pub open spec fn digit_run(bytes: Seq<u8>) -> nat
    decreases bytes.len(),
{
    if bytes.len() > 0 && is_digit(bytes[0]) {
        1 + digit_run(bytes.skip(1))
    } else {
        0
    }
}

/// The number that a sequence of digits writes in decimal.
pub open spec fn decimal(digits: Seq<u8>) -> int
    decreases digits.len(),
{
    if digits.len() == 0 {
        0
    } else {
        10 * decimal(digits.drop_last()) + (digits.last() - 0x30)
    }
}

/// What a read of a number makes of the bytes at hand: the number, and how
/// many bytes it uses up.
///
/// A number is a minus sign or none, and then digits as far as they go. The
/// read uses up the number and the byte after it, if there is one. Where the
/// bytes do not begin with a number, the read uses up nothing and has no
/// result; where the number does not fit into 64 bits, it is used up and has
/// no result either.
pub open spec fn spec_scan_number(input: Seq<u8>) -> (Option<i64>, int) {
    let sign: int = if input.len() > 0 && input[0] == 0x2d {
        1
    } else {
        0
    };
    let run = digit_run(input.skip(sign));
    if run == 0 {
        (None, 0)
    } else {
        let end = sign + run;
        let magnitude = decimal(input.subrange(sign, end));
        let value = if sign == 1 {
            -magnitude
        } else {
            magnitude
        };
        (
            if i64::MIN <= value <= i64::MAX {
                Some(value as i64)
            } else {
                None
            },
            if end < input.len() {
                end + 1
            } else {
                end
            },
        )
    }
}

/// The digits that begin at `at` go on after a digit at `at`, and end there
/// where no digit stands.
proof fn lemma_digit_run_step(input: Seq<u8>, at: int)
    requires
        0 <= at <= input.len(),
    ensures
        at < input.len() && is_digit(input[at]) ==> digit_run(input.skip(at)) == 1 + digit_run(
            input.skip(at + 1),
        ),
        at == input.len() || !is_digit(input[at]) ==> digit_run(input.skip(at)) == 0,
        digit_run(input.skip(at)) <= input.len() - at,
    decreases input.len() - at,
{
    if at < input.len() && is_digit(input[at]) {
        assert(input.skip(at).skip(1) =~= input.skip(at + 1));
        lemma_digit_run_step(input, at + 1);
    }
}

/// A further digit makes a number ten times as great and adds itself.
proof fn lemma_decimal_step(input: Seq<u8>, from: int, to: int)
    requires
        0 <= from <= to < input.len(),
    ensures
        decimal(input.subrange(from, to + 1)) == 10 * decimal(input.subrange(from, to)) + (
        input[to] - 0x30),
        decimal(input.subrange(from, from)) == 0,
{
    assert(input.subrange(from, to + 1).drop_last() =~= input.subrange(from, to));
}

/// Read a number from the front of `input`.
pub fn scan_number(input: &[u8]) -> (r: (Option<i64>, usize))
    ensures
        r.0 == spec_scan_number(input@).0,
        r.1 == spec_scan_number(input@).1,
        r.1 <= input@.len(),
{
    let len = input.len();
    let negative = len > 0 && input[0] == 0x2d;
    let sign: usize = if negative {
        1
    } else {
        0
    };
    let mut at: usize = sign;
    let mut magnitude: i128 = 0;
    let mut fits = true;
    proof {
        lemma_digit_run_step(input@, sign as int);
        assert(decimal(input@.subrange(sign as int, sign as int)) == 0);
    }
    while at < len && input[at] >= 0x30 && input[at] <= 0x39
        invariant
            sign <= at <= len,
            len == input@.len(),
            sign <= 1,
            digit_run(input@.skip(sign as int)) == (at - sign) + digit_run(input@.skip(at as int)),
            fits ==> magnitude == decimal(input@.subrange(sign as int, at as int)),
            fits ==> 0 <= magnitude <= 0x8000_0000_0000_0000,
            !fits ==> decimal(input@.subrange(sign as int, at as int)) > 0x8000_0000_0000_0000,
        decreases len - at,
    {
        proof {
            lemma_digit_run_step(input@, at as int);
            lemma_digit_run_step(input@, at + 1);
            lemma_decimal_step(input@, sign as int, at as int);
        }
        if fits {
            magnitude = magnitude * 10 + (input[at] - 0x30) as i128;
            if magnitude > 0x8000_0000_0000_0000 {
                fits = false;
            }
        }
        at += 1;
    }
    proof {
        lemma_digit_run_step(input@, at as int);
    }
    if at == sign {
        return (None, 0);
    }
    let used: usize = if at < len {
        at + 1
    } else {
        at
    };
    if !fits {
        (None, used)
    } else if negative {
        (Some((-magnitude) as i64), used)
    } else if magnitude <= 0x7fff_ffff_ffff_ffff {
        (Some(magnitude as i64), used)
    } else {
        (None, used)
    }
}

} // verus!
