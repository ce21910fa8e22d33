use vstd::prelude::*;
use vstd::string::StringSliceAdditionalSpecFns;

use crate::error::ParseError;
use crate::table::{letter_exponent, multiplier_exponent, LETTER_R};

verus! {

pub const DECIMAL_POINT: u8 = 46;

pub open spec fn is_digit(b: u8) -> bool {
    48 <= b && b <= 57
}

/// The end of the run of ASCII digits that starts at `i`.
pub open spec fn digits_end(s: Seq<u8>, i: int) -> int
    decreases s.len() - i,
{
    if 0 <= i < s.len() && is_digit(s[i]) {
        digits_end(s, i + 1)
    } else {
        i
    }
}

/// Whether a sequence holds at least one ASCII digit.
pub open spec fn has_digit(s: Seq<u8>) -> bool {
    exists|k: int| 0 <= k < s.len() && is_digit(#[trigger] s[k])
}

/// The decimal literal that a code stands for: the leading digits, then a
/// decimal point in place of the first byte after them (an explicit point or
/// a letter), then the digits that follow it. A code that is all digits is
/// its own literal.
pub open spec fn scanned_literal(s: Seq<u8>) -> Seq<u8> {
    let i = digits_end(s, 0);
    if i < s.len() {
        let j = digits_end(s, i + 1);
        s.subrange(0, i).push(DECIMAL_POINT) + s.subrange(i + 1, j)
    } else {
        s
    }
}

/// The multiplier letter of a code: the byte after the second run of digits
/// if there is one, else the byte after the first run unless that is a
/// decimal point, else R.
pub open spec fn scanned_letter(s: Seq<u8>) -> u8 {
    let i = digits_end(s, 0);
    if i < s.len() {
        let j = digits_end(s, i + 1);
        if j < s.len() {
            s[j]
        } else if s[i] == DECIMAL_POINT {
            LETTER_R
        } else {
            s[i]
        }
    } else {
        LETTER_R
    }
}

/// The scan of a code: its literal and letter, or `NumericLiteral` where the
/// literal holds no digit.
pub open spec fn scan(s: Seq<u8>) -> Result<(Seq<u8>, u8), ParseError> {
    if has_digit(scanned_literal(s)) {
        Ok((scanned_literal(s), scanned_letter(s)))
    } else {
        Err(ParseError::NumericLiteral)
    }
}

/// The decoding of a code: its literal and the power of ten of its letter.
/// A literal without digits is refused before the letter is looked at.
pub open spec fn decoding(s: Seq<u8>) -> Result<(Seq<u8>, int), ParseError> {
    match scan(s) {
        Err(e) => Err(e),
        Ok((lit, letter)) => match letter_exponent(letter) {
            Some(e) => Ok((lit, e)),
            None => Err(ParseError::UnsupportedLetterCode(letter as char)),
        },
    }
}

/// A scanned code: a decimal literal (ASCII digits with one decimal point,
/// or digits alone) and the multiplier letter as it was written.
#[derive(Debug, Clone, PartialEq, Eq)]
pub struct Scanned {
    pub literal: Vec<u8>,
    pub letter: u8,
}

impl View for Scanned {
    type V = (Seq<u8>, u8);

    open spec fn view(&self) -> (Seq<u8>, u8) {
        (self.literal@, self.letter)
    }
}

/// A decoded code: the value is `literal` times ten to the `exponent`.
#[derive(Debug, Clone, PartialEq, Eq)]
pub struct Decoded {
    pub literal: Vec<u8>,
    pub exponent: i8,
}

impl View for Decoded {
    type V = (Seq<u8>, int);

    open spec fn view(&self) -> (Seq<u8>, int) {
        (self.literal@, self.exponent as int)
    }
}

pub(crate) proof fn lemma_digits_end(s: Seq<u8>, i: int)
    requires
        0 <= i <= s.len(),
    ensures
        i <= digits_end(s, i) <= s.len(),
        forall|k: int| i <= k < digits_end(s, i) ==> is_digit(#[trigger] s[k]),
        digits_end(s, i) < s.len() ==> !is_digit(s[digits_end(s, i)]),
    decreases s.len() - i,
{
    if i < s.len() && is_digit(s[i]) {
        lemma_digits_end(s, i + 1);
    }
}

/// Appends the run of digits of `s` that starts at `i`, and returns its end.
fn read_digits(buffer: &mut Vec<u8>, s: &[u8], i: usize) -> (r: usize)
    requires
        i <= s@.len(),
    ensures
        r as int == digits_end(s@, i as int),
        final(buffer)@ == old(buffer)@ + s@.subrange(i as int, r as int),
{
    let mut j = i;
    while j < s.len() && 48 <= s[j] && s[j] <= 57
        invariant
            i <= j <= s@.len(),
            digits_end(s@, i as int) == digits_end(s@, j as int),
            buffer@ == old(buffer)@ + s@.subrange(i as int, j as int),
        decreases s@.len() - j,
    {
        buffer.push(s[j]);
        j += 1;
        assert(buffer@ =~= old(buffer)@ + s@.subrange(i as int, j as int));
    }
    j
}

/// Splits a resistor code into its decimal literal and its multiplier
/// letter. The letter defaults to R; where a byte follows the digits after
/// the letter or point, that byte is the letter. Fails with `NumericLiteral`
/// where the literal holds no digit.
pub fn parse(input: &str) -> (r: Result<Scanned, ParseError>)
    ensures
        match r {
            Ok(sc) => scan(input.spec_bytes()) == Ok::<(Seq<u8>, u8), ParseError>(sc@),
            Err(e) => scan(input.spec_bytes()) == Err::<(Seq<u8>, u8), ParseError>(e),
        },
{
    let s = input.as_bytes();
    let ghost sb = s@;
    let mut buffer: Vec<u8> = Vec::new();
    let mut letter = LETTER_R;
    let i = read_digits(&mut buffer, s, 0);
    proof {
        lemma_digits_end(sb, 0);
    }
    let mut found = i > 0;
    if i < s.len() {
        let sep = s[i];
        if sep == DECIMAL_POINT {
            buffer.push(DECIMAL_POINT);
        } else {
            buffer.push(DECIMAL_POINT);
            letter = sep;
        }
        let j = read_digits(&mut buffer, s, i + 1);
        proof {
            lemma_digits_end(sb, i + 1);
        }
        found = found || j > i + 1;
        if j < s.len() {
            letter = s[j];
        }
        proof {
            let lit = scanned_literal(sb);
            assert(buffer@ =~= lit);
            if found {
                if i > 0 {
                    assert(lit[0] == sb[0]);
                } else {
                    assert(lit[i + 1] == sb[i + 1]);
                }
            } else {
                assert forall|k: int| 0 <= k < lit.len() implies !is_digit(#[trigger] lit[k]) by {
                    assert(k == 0);
                }
            }
        }
    } else {
        proof {
            assert(buffer@ =~= sb);
            if found {
                assert(is_digit(sb[0]));
            }
        }
    }
    if found {
        Ok(Scanned { literal: buffer, letter })
    } else {
        Err(ParseError::NumericLiteral)
    }
}

/// Decodes a resistor code into a decimal literal and a power of ten: the
/// value in ohms is the literal times ten to that power. Letters are read in
/// either case. Fails with `NumericLiteral` where the literal holds no digit,
/// else with `UnsupportedLetterCode` where the letter is not in the table.
pub fn decode(input: &str) -> (r: Result<Decoded, ParseError>)
    ensures
        match r {
            Ok(d) => decoding(input.spec_bytes()) == Ok::<(Seq<u8>, int), ParseError>(d@),
            Err(e) => decoding(input.spec_bytes()) == Err::<(Seq<u8>, int), ParseError>(e),
        },
{
    match parse(input) {
        Err(e) => Err(e),
        Ok(sc) => match multiplier_exponent(sc.letter) {
            Err(e) => Err(e),
            Ok(exponent) => Ok(Decoded { literal: sc.literal, exponent }),
        },
    }
}

} // verus!
