use vstd::prelude::*;

use crate::decode::{
    decoding, digits_end, has_digit, is_digit, scan, scanned_letter, scanned_literal,
    DECIMAL_POINT,
};
use crate::encode::{rendering, Scale};
use crate::error::ParseError;
use crate::table::{
    ascii_lower, ascii_upper, code_exponent, code_letter, letter_exponent, lemma_table_agrees,
    LETTER_COUNT, LETTER_R,
};

verus! {

/// ASCII upper-casing of every byte of a code.
pub open spec fn upper_bytes(s: Seq<u8>) -> Seq<u8> {
    s.map_values(|b: u8| ascii_upper(b))
}

/// ASCII lower-casing of every byte of a code.
pub open spec fn lower_bytes(s: Seq<u8>) -> Seq<u8> {
    s.map_values(|b: u8| ascii_lower(b))
}

/// A byte map that keeps digits and the decimal point, makes no other byte
/// into one of them, and keeps what each byte means as a multiplier letter.
pub open spec fn keeps_codes(f: spec_fn(u8) -> u8) -> bool {
    &&& forall|b: u8| is_digit(b) ==> #[trigger] f(b) == b
    &&& forall|b: u8| #[trigger] is_digit(f(b)) == is_digit(b)
    &&& forall|b: u8| (#[trigger] f(b) == DECIMAL_POINT) == (b == DECIMAL_POINT)
    &&& forall|b: u8| #[trigger] letter_exponent(f(b)) == letter_exponent(b)
}

proof fn lemma_digits_end_mapped(s: Seq<u8>, f: spec_fn(u8) -> u8, i: int)
    requires
        keeps_codes(f),
        0 <= i <= s.len(),
    ensures
        digits_end(s.map_values(f), i) == digits_end(s, i),
    decreases s.len() - i,
{
    let t = s.map_values(f);
    if i < s.len() {
        assert(is_digit(t[i]) == is_digit(f(s[i])));
        if is_digit(s[i]) {
            lemma_digits_end_mapped(s, f, i + 1);
        }
    }
}

proof fn lemma_decoding_mapped(s: Seq<u8>, f: spec_fn(u8) -> u8)
    requires
        keeps_codes(f),
    ensures
        scanned_literal(s.map_values(f)) == scanned_literal(s),
        letter_exponent(scanned_letter(s.map_values(f))) == letter_exponent(scanned_letter(s)),
        decoding(s).is_ok() ==> decoding(s.map_values(f)) == decoding(s),
{
    let t = s.map_values(f);
    lemma_digits_end_mapped(s, f, 0);
    crate::decode::lemma_digits_end(s, 0);
    let i = digits_end(s, 0);
    if i < s.len() {
        lemma_digits_end_mapped(s, f, i + 1);
        crate::decode::lemma_digits_end(s, i + 1);
        let j = digits_end(s, i + 1);
        assert(t.subrange(0, i) =~= s.subrange(0, i)) by {
            assert forall|k: int| 0 <= k < i implies t[k] == s[k] by {
                assert(is_digit(s[k]));
            }
        }
        assert(t.subrange(i + 1, j) =~= s.subrange(i + 1, j)) by {
            assert forall|k: int| i + 1 <= k < j implies t[k] == s[k] by {
                assert(is_digit(s[k]));
            }
        }
        assert(t[i] == f(s[i]));
        if j < s.len() {
            assert(t[j] == f(s[j]));
        }
    } else {
        assert(t =~= s) by {
            assert forall|k: int| 0 <= k < s.len() implies t[k] == s[k] by {
                assert(is_digit(s[k]));
            }
        }
    }
}

proof fn lemma_case_maps_keep_codes()
    ensures
        keeps_codes(|b: u8| ascii_upper(b)),
        keeps_codes(|b: u8| ascii_lower(b)),
{
}

/// Decoding ignores letter case: a code that decodes gives the same literal
/// and power of ten once all its ASCII letters are put in upper case, or all
/// in lower case.
pub proof fn law_case_insensitive(s: Seq<u8>)
    requires
        decoding(s).is_ok(),
    ensures
        decoding(upper_bytes(s)) == decoding(s),
        decoding(lower_bytes(s)) == decoding(s),
{
    lemma_case_maps_keep_codes();
    lemma_decoding_mapped(s, |b: u8| ascii_upper(b));
    lemma_decoding_mapped(s, |b: u8| ascii_lower(b));
}

/// Whether every byte is an ASCII digit.
pub open spec fn all_digits(s: Seq<u8>) -> bool {
    forall|k: int| 0 <= k < s.len() ==> is_digit(#[trigger] s[k])
}

proof fn lemma_digits_end_of_run(a: Seq<u8>, rest: Seq<u8>, i: int)
    requires
        all_digits(a),
        0 <= i <= a.len(),
        rest.len() == 0 || !is_digit(rest[0]),
    ensures
        digits_end(a + rest, i) == a.len(),
    decreases a.len() - i,
{
    let s = a + rest;
    if i < a.len() {
        assert(s[i] == a[i]);
        lemma_digits_end_of_run(a, rest, i + 1);
    } else if rest.len() > 0 {
        assert(s[i] == rest[0]);
    }
}

proof fn lemma_split_code(a: Seq<u8>, x: u8, b: Seq<u8>)
    requires
        all_digits(a),
        all_digits(b),
        !is_digit(x),
    ensures
        digits_end(a + seq![x] + b, 0) == a.len(),
        digits_end(a + seq![x] + b, a.len() + 1int) == a.len() + 1int + b.len(),
        scanned_literal(a + seq![x] + b) == a.push(DECIMAL_POINT) + b,
        scanned_letter(a + seq![x] + b) == (if x == DECIMAL_POINT { LETTER_R } else { x }),
{
    let s = a + seq![x] + b;
    assert(s =~= a + (seq![x] + b));
    lemma_digits_end_of_run(a, seq![x] + b, 0);
    let p = a.push(x);
    assert(s =~= p + b);
    assert(all_digits(b.subrange(0, 0)));
    assert(s.subrange(a.len() + 1int, s.len() as int) =~= b);
    lemma_digits_end_tail(s, b, a.len() + 1int);
    assert(s.subrange(0, a.len() as int) =~= a);
    assert(s[a.len() as int] == x);
}

proof fn lemma_digits_end_tail(s: Seq<u8>, b: Seq<u8>, start: int)
    requires
        0 <= start <= s.len(),
        s.subrange(start, s.len() as int) == b,
        all_digits(b),
    ensures
        digits_end(s, start) == s.len(),
    decreases s.len() - start,
{
    if start < s.len() {
        assert(s[start] == b[0]);
        assert(s.subrange(start + 1, s.len() as int) =~= b.subrange(1, b.len() as int));
        lemma_digits_end_tail(s, b.subrange(1, b.len() as int), start + 1);
    }
}

/// A letter for ones (R or r) between two runs of digits acts as a decimal
/// point: `aRb` decodes exactly as `a.b` does.
pub proof fn law_letter_as_point(a: Seq<u8>, x: u8, b: Seq<u8>)
    requires
        all_digits(a),
        all_digits(b),
        letter_exponent(x) == Some(0int),
    ensures
        decoding(a + seq![x] + b) == decoding(a + seq![DECIMAL_POINT] + b),
{
    lemma_split_code(a, x, b);
    lemma_split_code(a, DECIMAL_POINT, b);
}

/// Whether a sequence is a plain decimal number: ASCII digits, optionally
/// followed by a decimal point and more digits, with at least one digit.
pub open spec fn is_decimal(m: Seq<u8>) -> bool {
    let i = digits_end(m, 0);
    &&& has_digit(m)
    &&& (i == m.len() || (m[i] == DECIMAL_POINT && digits_end(m, i + 1) == m.len()))
}

/// A decimal number with a decimal point: unchanged where it has one, else
/// with one appended.
pub open spec fn with_point(m: Seq<u8>) -> Seq<u8> {
    if digits_end(m, 0) == m.len() {
        m.push(DECIMAL_POINT)
    } else {
        m
    }
}

proof fn lemma_digits_end_push(m: Seq<u8>, x: u8, i: int)
    requires
        0 <= i <= m.len(),
        !is_digit(x),
    ensures
        digits_end(m.push(x), i) == digits_end(m, i),
    decreases m.len() - i,
{
    let s = m.push(x);
    if i < m.len() {
        assert(s[i] == m[i]);
        if is_digit(m[i]) {
            lemma_digits_end_push(m, x, i + 1);
        }
    } else {
        assert(s[i] == x);
    }
}

proof fn lemma_decode_pushed(m: Seq<u8>, x: u8)
    requires
        is_decimal(m),
        !is_digit(x),
        x != DECIMAL_POINT,
    ensures
        scan(m.push(x)) == Ok::<(Seq<u8>, u8), ParseError>((with_point(m), x)),
{
    let s = m.push(x);
    crate::decode::lemma_digits_end(m, 0);
    lemma_digits_end_push(m, x, 0);
    let i = digits_end(m, 0);
    if i == m.len() {
        assert(s[i] == x);
        assert(digits_end(s, i + 1) == i + 1);
        assert(s.subrange(0, i) =~= m);
        assert(s.subrange(i + 1, i + 1) =~= Seq::<u8>::empty());
        assert(scanned_literal(s) =~= m.push(DECIMAL_POINT));
        let k = choose|k: int| 0 <= k < m.len() && is_digit(#[trigger] m[k]);
        assert(scanned_literal(s)[k] == m[k]);
    } else {
        assert(s[i] == m[i]);
        lemma_digits_end_push(m, x, i + 1);
        assert(s[m.len() as int] == x);
        assert(scanned_literal(s) =~= m);
    }
}

/// Decoding the text that `render` writes for a decimal mantissa gives back
/// the mantissa (with a decimal point) and the power of ten of the letter:
/// that of the table entry for a coded magnitude, none for plain ohms.
pub proof fn law_decode_rendered(m: Seq<u8>, k: int)
    requires
        is_decimal(m),
        0 <= k < LETTER_COUNT,
    ensures
        decoding(rendering(m, Scale::Coded { letter: code_letter(k), exponent: code_exponent(k) as i8 }))
            == Ok::<(Seq<u8>, int), ParseError>((with_point(m), code_exponent(k))),
        decoding(rendering(m, Scale::Plain)) == Ok::<(Seq<u8>, int), ParseError>((with_point(m), 0)),
{
    lemma_table_agrees(k);
    lemma_decode_pushed(m, code_letter(k));
    lemma_decode_pushed(m, LETTER_R);
}

} // verus!
