//! Decimal notation for the few numbers that appear in requests and error
//! messages.

use vstd::prelude::*;

verus! {

use crate::json::push_char;

/// The digit character for `n` (meaningful for `0 <= n < 10`).
pub open spec fn spec_digit_char(n: int) -> char {
    (48 + n) as char
}

/// The decimal notation of a non-negative integer.
pub open spec fn spec_dec_nat(n: nat) -> Seq<char>
    decreases n,
{
    if n < 10 {
        seq![spec_digit_char(n as int)]
    } else {
        spec_dec_nat(n / 10).push(spec_digit_char((n % 10) as int))
    }
}

/// The decimal notation of an integer, with a minus sign when negative.
pub open spec fn spec_dec_int(n: int) -> Seq<char> {
    if n < 0 {
        seq!['-'] + spec_dec_nat((-n) as nat)
    } else {
        spec_dec_nat(n as nat)
    }
}

/// Appends the decimal notation of `n` to `out`.
fn dec_onto(out: &mut String, n: u32)
    ensures
        final(out)@ == old(out)@ + spec_dec_nat(n as nat),
    decreases n,
{
    if n < 10 {
        push_char(out, ((48 + n) as u8) as char);
        proof {
            assert(old(out)@.push(spec_digit_char(n as int)) =~= old(out)@ + spec_dec_nat(n as nat));
        }
    } else {
        dec_onto(out, n / 10);
        let ghost mid = out@;
        push_char(out, ((48 + n % 10) as u8) as char);
        proof {
            assert(mid.push(spec_digit_char((n % 10) as int)) =~= old(out)@ + spec_dec_nat(n as nat));
        }
    }
}

/// The decimal notation of `n` as a fresh string.
pub fn u32_dec(n: u32) -> (r: String)
    ensures
        r@ == spec_dec_nat(n as nat),
{
    let mut out = String::new();
    dec_onto(&mut out, n);
    proof {
        assert(Seq::<char>::empty() + spec_dec_nat(n as nat) =~= spec_dec_nat(n as nat));
    }
    out
}

/// The decimal notation of a (possibly negative) priority value.
pub fn i8_dec(n: i8) -> (r: String)
    ensures
        r@ == spec_dec_int(n as int),
{
    if n >= 0 {
        u32_dec(n as u32)
    } else {
        let mut out = String::from_str("-");
        let m = -(n as i32);
        dec_onto(&mut out, m as u32);
        proof {
            reveal_strlit("-");
            assert("-"@ =~= seq!['-']);
            assert("-"@ + spec_dec_nat((-(n as int)) as nat) =~= spec_dec_int(n as int));
        }
        out
    }
}

} // verus!
