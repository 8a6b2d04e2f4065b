//! Decimal rendering and parsing of 32-bit words.
//!
//! Persisted network tables store every bias and weight as the decimal text
//! of its 32-bit bit pattern.  Rendering and parsing are exact inverses,
//! which is what makes reloading a saved network reproduce it bit for bit.

use vstd::prelude::*;

verus! {

/// The ASCII digit for a value below ten.
pub open spec fn digit_byte(d: nat) -> u8 {
    (48 + d) as u8
}

/// The decimal digits of `n`, most significant first, as ASCII bytes.
/// A value below ten is a single digit, so zero renders as "0" and no
/// rendering carries a leading zero.
pub open spec fn dec_of(n: nat) -> Seq<u8>
    decreases n,
{
    if n < 10 {
        seq![digit_byte(n)]
    } else {
        dec_of(n / 10).push(digit_byte(n % 10))
    }
}

/// Whether `b` is an ASCII decimal digit.
pub open spec fn is_digit(b: u8) -> bool {
    48 <= b <= 57
}

/// The value of an ASCII decimal digit.
pub open spec fn digit_val(b: u8) -> nat {
    (b - 48) as nat
}

/// Whether every byte of `s` is an ASCII decimal digit.
pub open spec fn all_digits(s: Seq<u8>) -> bool {
    forall|i: int| 0 <= i < s.len() ==> is_digit(#[trigger] s[i])
}

/// The number denoted by a sequence of ASCII digits (most significant
/// first); an empty sequence denotes zero.
pub open spec fn dec_val(s: Seq<u8>) -> nat
    decreases s.len(),
{
    if s.len() == 0 {
        0
    } else {
        dec_val(s.drop_last()) * 10 + digit_val(s.last())
    }
}

/// A field of a persisted table is readable as a 32-bit word exactly when it
/// is a non-empty run of digits whose value fits in 32 bits.
pub open spec fn field_ok(s: Seq<u8>) -> bool {
    &&& s.len() > 0
    &&& all_digits(s)
    &&& dec_val(s) <= u32::MAX
}

/// The decimal text of `n`, as ASCII bytes.
pub fn render_u32(n: u32) -> (r: Vec<u8>)
    ensures
        r@ == dec_of(n as nat),
    decreases n,
{
    if n < 10 {
        let mut v: Vec<u8> = Vec::new();
        v.push(48 + n as u8);
        proof {
            assert(v@ =~= dec_of(n as nat));
        }
        v
    } else {
        let mut v = render_u32(n / 10);
        v.push(48 + (n % 10) as u8);
        proof {
            assert(v@ =~= dec_of(n as nat));
        }
        v
    }
}

/// Reads a run of ASCII digits as a 32-bit word.  Returns `None` exactly on
/// the inputs no field of a well-formed table holds: an empty run, a
/// non-digit byte, or a value above `u32::MAX`.
pub fn parse_u32(s: &[u8]) -> (r: Option<u32>)
    ensures
        match r {
            Some(v) => field_ok(s@) && v == dec_val(s@),
            None => !field_ok(s@),
        },
{
    if s.len() == 0 {
        return None;
    }
    let mut acc: u64 = 0;
    let mut i: usize = 0;
    while i < s.len()
        invariant
            0 <= i <= s@.len(),
            s@.len() > 0,
            all_digits(s@.take(i as int)),
            acc == dec_val(s@.take(i as int)),
            acc <= u32::MAX,
        decreases s@.len() - i,
    {
        let b = s[i];
        if b < 48 || b > 57 {
            assert(!is_digit(s@[i as int]));
            return None;
        }
        let d = (b - 48) as u64;
        acc = acc * 10 + d;
        proof {
            assert(s@.take(i + 1).drop_last() =~= s@.take(i as int));
            assert(s@.take(i + 1).last() == s@[i as int]);
        }
        i = i + 1;
        if acc > u32::MAX as u64 {
            proof {
                lemma_dec_val_prefix_le(s@, i as int);
            }
            return None;
        }
    }
    proof {
        assert(s@.take(s@.len() as int) =~= s@);
    }
    Some(acc as u32)
}

/// The value of a prefix of a digit run never exceeds the value of the whole
/// run: appending digits can only grow the denoted number.
pub proof fn lemma_dec_val_prefix_le(s: Seq<u8>, i: int)
    requires
        0 <= i <= s.len(),
    ensures
        dec_val(s.take(i)) <= dec_val(s),
    decreases s.len() - i,
{
    if i == s.len() {
        assert(s.take(i) =~= s);
    } else {
        assert(s.take(i + 1).drop_last() =~= s.take(i));
        assert(dec_val(s.take(i + 1)) == dec_val(s.take(i)) * 10 + digit_val(s.take(i + 1).last()));
        lemma_dec_val_prefix_le(s, i + 1);
    }
}

/// Rendering then reading is the identity: the decimal text of `n` is a
/// well-formed field and denotes `n` again.
pub proof fn lemma_dec_round_trip(n: nat)
    ensures
        field_ok(dec_of(n)) || n > u32::MAX,
        all_digits(dec_of(n)),
        dec_of(n).len() > 0,
        dec_val(dec_of(n)) == n,
    decreases n,
{
    if n < 10 {
        assert(dec_of(n) =~= seq![digit_byte(n)]);
        assert(dec_of(n).drop_last() =~= Seq::<u8>::empty());
        assert(dec_of(n).last() == digit_byte(n));
        assert(dec_val(dec_of(n)) == dec_val(dec_of(n).drop_last()) * 10 + digit_val(dec_of(n).last()));
        assert(dec_val(dec_of(n)) == digit_val(digit_byte(n)));
    } else {
        lemma_dec_round_trip(n / 10);
        assert(dec_of(n) == dec_of(n / 10).push(digit_byte(n % 10)));
        assert(dec_of(n).drop_last() =~= dec_of(n / 10));
        assert(dec_of(n).last() == digit_byte(n % 10));
        assert(dec_val(dec_of(n)) == dec_val(dec_of(n / 10)) * 10 + digit_val(digit_byte(n % 10)));
        assert(n / 10 * 10 + n % 10 == n) by {
            vstd::arithmetic::div_mod::lemma_fundamental_div_mod(n as int, 10);
        }
        assert(forall|i: int| 0 <= i < dec_of(n).len() ==> is_digit(#[trigger] dec_of(n)[i]));
    }
}

} // verus!
