//! Decimal text of unsigned integers, the form that the text encoding gives to
//! amounts too wide for a JSON number.

use vstd::prelude::*;
use vstd::utf8::{encode_utf8, valid_utf8};
use crate::binary::utf8_text;

verus! {

/// Whether a byte is an ASCII decimal digit.
pub open spec fn is_digit(c: u8) -> bool {
    48 <= c <= 57
}

/// The ASCII digits of `n`, most significant first, without leading zeros.
pub open spec fn decimal_bytes(n: nat) -> Seq<u8>
    decreases n,
{
    if n < 10 {
        seq![(48 + n) as u8]
    } else {
        decimal_bytes(n / 10).push((48 + n % 10) as u8)
    }
}

/// The number that a sequence of ASCII digits denotes.
pub open spec fn digits_value(b: Seq<u8>) -> nat
    decreases b.len(),
{
    if b.len() == 0 {
        0
    } else {
        digits_value(b.drop_last()) * 10 + (b.last() - 48) as nat
    }
}

/// Whether `b` is a non-empty sequence of ASCII digits.
pub open spec fn all_digits(b: Seq<u8>) -> bool {
    b.len() > 0 && forall|i: int| 0 <= i < b.len() ==> is_digit(#[trigger] b[i])
}

/// Reading the decimal digits of a number gives the number back.
pub proof fn lemma_decimal_round_trip(n: nat)
    ensures
        all_digits(decimal_bytes(n)),
        digits_value(decimal_bytes(n)) == n,
    decreases n,
{
    if n >= 10 {
        lemma_decimal_round_trip(n / 10);
        let b = decimal_bytes(n);
        assert(b.drop_last() =~= decimal_bytes(n / 10));
        assert(b.last() == (48 + n % 10) as u8);
        assert(digits_value(b) == digits_value(decimal_bytes(n / 10)) * 10 + n % 10);
        assert((n / 10) * 10 + n % 10 == n);
        assert forall|i: int| 0 <= i < b.len() implies is_digit(#[trigger] b[i]) by {
            if i < b.len() - 1 {
                assert(b[i] == decimal_bytes(n / 10)[i]);
            }
        }
    } else {
        assert(decimal_bytes(n).drop_last() =~= Seq::<u8>::empty());
        assert(decimal_bytes(n).last() == (48 + n) as u8);
        assert(digits_value(Seq::<u8>::empty()) == 0);
    }
}

/// The value of a prefix of digits is at most that of the whole.
proof fn lemma_digits_value_prefix(b: Seq<u8>, i: int)
    requires
        0 <= i <= b.len(),
        forall|j: int| 0 <= j < b.len() ==> is_digit(#[trigger] b[j]),
    ensures
        digits_value(b.take(i)) <= digits_value(b),
    decreases b.len() - i,
{
    if i < b.len() {
        lemma_digits_value_prefix(b, i + 1);
        assert(b.take(i + 1).drop_last() =~= b.take(i));
        assert(is_digit(b[i]));
    } else {
        assert(b.take(i) =~= b);
    }
}

/// Appends the decimal digits of `x`.
fn write_decimal(out: &mut Vec<u8>, x: u128)
    ensures
        final(out)@ == old(out)@ + decimal_bytes(x as nat),
    decreases x,
{
    if x >= 10 {
        write_decimal(out, x / 10);
    }
    out.push((48 + x % 10) as u8);
    assert(out@ =~= old(out)@ + decimal_bytes(x as nat));
}

/// The decimal text of `x`: its digits, without sign or leading zeros.
pub fn u128_to_decimal(x: u128) -> (r: String)
    ensures
        encode_utf8(r@) == decimal_bytes(x as nat),
{
    let mut digits: Vec<u8> = Vec::new();
    write_decimal(&mut digits, x);
    assert(digits@ =~= decimal_bytes(x as nat));
    proof {
        lemma_decimal_round_trip(x as nat);
        lemma_ascii_valid(digits@);
    }
    match utf8_text(digits.as_slice()) {
        Some(s) => s,
        None => String::new(),
    }
}

/// ASCII digits are valid UTF-8.
proof fn lemma_ascii_valid(b: Seq<u8>)
    requires
        forall|i: int| 0 <= i < b.len() ==> is_digit(#[trigger] b[i]),
    ensures
        valid_utf8(b),
{
    assert(b.subrange(0, 0) =~= Seq::<u8>::empty());
    assert(vstd::utf8::partial_valid_utf8(b, 0));
    assert forall|i: int| 0 <= 0 <= i < b.len() <= b.len() implies
        #[trigger] vstd::utf8::is_leading_byte_width_1(b[i]) by {
        assert(is_digit(b[i]));
    }
    vstd::utf8::partial_valid_utf8_extend_ascii_block(b, 0, b.len() as int);
    assert(b.subrange(0, b.len() as int) =~= b);
}

/// The number written in decimal in `s`, or `None` when `s` is not a
/// non-empty run of ASCII digits or its value does not fit in 128 bits.
pub fn parse_u128_decimal(s: &str) -> (r: Option<u128>)
    ensures
        r is Some <==> all_digits(encode_utf8(s@)) && digits_value(encode_utf8(s@)) <= u128::MAX,
        r matches Some(v) ==> v == digits_value(encode_utf8(s@)),
{
    let b = s.as_bytes();
    let ghost bs = encode_utf8(s@);
    assert(b@ == bs);
    if b.len() == 0 {
        return None;
    }
    let mut acc: u128 = 0;
    let mut i: usize = 0;
    assert(b@.take(0) =~= Seq::<u8>::empty());
    while i < b.len()
        invariant
            b@ == bs,
            bs == encode_utf8(s@),
            bs.len() > 0,
            i <= bs.len(),
            acc == digits_value(bs.take(i as int)),
            forall|j: int| 0 <= j < i ==> is_digit(#[trigger] bs[j]),
        decreases bs.len() - i,
    {
        let c = b[i];
        if c < 48 || c > 57 {
            assert(!is_digit(bs[i as int]));
            return None;
        }
        assert(bs.take(i + 1).last() == c);
        assert(bs.take(i + 1).drop_last() =~= bs.take(i as int));
        let next = match acc.checked_mul(10) {
            Some(m) => m.checked_add((c - 48) as u128),
            None => None,
        };
        match next {
            Some(v) => {
                acc = v;
            },
            None => {
                proof {
                    if all_digits(bs) {
                        lemma_digits_value_prefix(bs, i + 1);
                    }
                }
                return None;
            },
        }
        i = i + 1;
    }
    assert(bs.take(bs.len() as int) =~= bs);
    Some(acc)
}

} // verus!
