//! Small decisions about text: whether two texts are the same, and which
//! number a run of decimal digits stands for.

use vstd::prelude::*;
use vstd::string::*;
use vstd::utf8::*;
use crate::codec::bytes_eq;

verus! {

/// Whether two texts are the same, decided on their UTF-8 bytes.
pub fn same_text(a: &str, b: &str) -> (same: bool)
    ensures
        same == (a@ == b@),
{
    proof {
        encode_utf8_decode_utf8(a@);
        encode_utf8_decode_utf8(b@);
    }
    bytes_eq(a.as_bytes(), b.as_bytes())
}

/// The first `k` bytes of two byte strings are the same.
pub open spec fn agree_upto(a: Seq<u8>, b: Seq<u8>, k: int) -> bool {
    &&& 0 <= k <= a.len()
    &&& k <= b.len()
    &&& forall|i: int| 0 <= i < k ==> a[i] == b[i]
}

/// The order of byte strings in which texts are sorted: `a` comes no later
/// than `b` if `a` begins `b`, or if, where the two first differ, `a` has
/// the smaller byte.
pub open spec fn lex_leq(a: Seq<u8>, b: Seq<u8>) -> bool {
    ||| agree_upto(a, b, a.len() as int)
    ||| exists|k: int| #[trigger] agree_upto(a, b, k) && k < a.len() && k < b.len() && a[k] < b[k]
}

/// Of two byte strings one comes no later than the other.
pub proof fn lemma_lex_total(a: Seq<u8>, b: Seq<u8>)
    ensures
        lex_leq(a, b) || lex_leq(b, a),
{
    lemma_lex_total_from(a, b, 0);
}

/// [`lemma_lex_total`], for two byte strings that agree up to `k`.
proof fn lemma_lex_total_from(a: Seq<u8>, b: Seq<u8>, k: int)
    requires
        agree_upto(a, b, k),
    ensures
        lex_leq(a, b) || lex_leq(b, a),
    decreases a.len() - k,
{
    if k == a.len() {
    } else if k == b.len() {
        assert(agree_upto(b, a, b.len() as int));
    } else if a[k] < b[k] {
    } else if b[k] < a[k] {
        assert(agree_upto(b, a, k));
    } else {
        assert(agree_upto(a, b, k + 1));
        lemma_lex_total_from(a, b, k + 1);
    }
}

/// The order of byte strings passes on: what comes no later than something
/// that comes no later than a third comes no later than the third.
pub proof fn lemma_lex_transitive(a: Seq<u8>, b: Seq<u8>, c: Seq<u8>)
    requires
        lex_leq(a, b),
        lex_leq(b, c),
    ensures
        lex_leq(a, c),
{
    if agree_upto(a, b, a.len() as int) {
        if agree_upto(b, c, b.len() as int) {
            assert(agree_upto(a, c, a.len() as int));
        } else {
            let k = choose|k: int| #[trigger]
                agree_upto(b, c, k) && k < b.len() && k < c.len() && b[k] < c[k];
            if k < a.len() {
                assert(agree_upto(a, c, k));
            } else {
                assert(agree_upto(a, c, a.len() as int));
            }
        }
    } else {
        let j = choose|j: int| #[trigger]
            agree_upto(a, b, j) && j < a.len() && j < b.len() && a[j] < b[j];
        if agree_upto(b, c, b.len() as int) {
            assert(agree_upto(a, c, j));
        } else {
            let k = choose|k: int| #[trigger]
                agree_upto(b, c, k) && k < b.len() && k < c.len() && b[k] < c[k];
            if j <= k {
                assert(agree_upto(a, c, j));
            } else {
                assert(agree_upto(a, c, k));
            }
        }
    }
}

/// Whether `a` comes no later than `b` in the order of byte strings.
pub fn bytes_leq(a: &[u8], b: &[u8]) -> (r: bool)
    ensures
        r == lex_leq(a@, b@),
{
    let mut i: usize = 0;
    while i < a.len() && i < b.len()
        invariant
            agree_upto(a@, b@, i as int),
        decreases a.len() - i,
    {
        if a[i] != b[i] {
            proof {
                if a[i as int] > b[i as int] {
                    assert(!agree_upto(a@, b@, a@.len() as int));
                    assert forall|k: int| #[trigger]
                        agree_upto(a@, b@, k) && k < a@.len() && k < b@.len() implies !(a@[k]
                        < b@[k]) by {
                        if k > i {
                            assert(a@[i as int] == b@[i as int]);
                        }
                    }
                }
            }
            return a[i] < b[i];
        }
        i += 1;
    }
    proof {
        if a@.len() > b@.len() {
            assert(!agree_upto(a@, b@, a@.len() as int));
        }
    }
    a.len() <= b.len()
}

/// A decimal digit.
pub open spec fn is_digit(c: char) -> bool {
    '0' <= c && c <= '9'
}

/// Text made of decimal digits, at least one.
pub open spec fn is_decimal(text: Seq<char>) -> bool {
    &&& text.len() > 0
    &&& forall|i: int| 0 <= i < text.len() ==> is_digit(#[trigger] text[i])
}

/// The number that a run of decimal digits stands for.
pub open spec fn decimal_value(text: Seq<char>) -> nat
    decreases text.len(),
{
    if text.len() == 0 {
        0
    } else {
        (decimal_value(text.drop_last()) * 10 + (text.last() as u8 - '0' as u8)) as nat
    }
}

/// What [`parse_decimal`] makes of a text: its value, where the text is a
/// decimal number that fits a `u64`.
pub open spec fn decimal_u64(text: Seq<char>) -> Option<u64> {
    if is_decimal(text) && decimal_value(text) <= u64::MAX {
        Some(decimal_value(text) as u64)
    } else {
        None
    }
}

/// A run of digits stands for at least as much as any of its beginnings.
pub proof fn lemma_decimal_value_grows(text: Seq<char>, shorter: int)
    requires
        0 <= shorter <= text.len(),
        forall|i: int| 0 <= i < text.len() ==> is_digit(#[trigger] text[i]),
    ensures
        decimal_value(text.take(shorter)) <= decimal_value(text),
    decreases text.len() - shorter,
{
    if shorter < text.len() {
        let longer = text.take(shorter + 1);
        assert(longer.drop_last() =~= text.take(shorter));
        assert(is_digit(text[shorter]));
        assert(longer.last() == text[shorter]);
        lemma_decimal_value_grows(text, shorter + 1);
    } else {
        assert(text.take(shorter) =~= text);
    }
}

/// Reads a `u64` written in decimal digits. Anything else is refused: the
/// empty text, a sign, a blank, a digit too many.
pub fn parse_decimal(text: &str) -> (r: Option<u64>)
    ensures
        r == decimal_u64(text@),
{
    if !text.is_ascii() {
        proof {
            if is_decimal(text@) {
                assert(is_ascii_chars(text@));
            }
        }
        return None;
    }
    let bytes = text.as_bytes();
    proof {
        is_ascii_spec_bytes(text);
    }
    if bytes.len() == 0 {
        return None;
    }
    let mut value: u64 = 0;
    let mut i: usize = 0;
    while i < bytes.len()
        invariant
            i <= bytes.len(),
            bytes@.len() == text@.len(),
            forall|j: int| 0 <= j < bytes@.len() ==> bytes@[j] == text@[j] as u8,
            forall|j: int| 0 <= j < text@.len() ==> '\0' <= #[trigger] text@[j] <= '\u{7f}',
            forall|j: int| 0 <= j < i ==> is_digit(#[trigger] text@[j]),
            value == decimal_value(text@.take(i as int)),
        decreases bytes.len() - i,
    {
        let b = bytes[i];
        if b < 48 || b > 57 {
            assert(!is_digit(text@[i as int]));
            return None;
        }
        let digit = (b - 48) as u64;
        proof {
            let longer = text@.take(i + 1);
            assert(longer.drop_last() =~= text@.take(i as int));
            assert(longer.last() == text@[i as int]);
            assert(is_digit(text@[i as int]));
            assert(decimal_value(longer) == value * 10 + digit);
        }
        if value > (u64::MAX - digit) / 10 {
            proof {
                if is_decimal(text@) {
                    lemma_decimal_value_grows(text@, i + 1);
                }
            }
            return None;
        }
        value = value * 10 + digit;
        i += 1;
    }
    assert(text@.take(i as int) =~= text@);
    Some(value)
}

} // verus!
