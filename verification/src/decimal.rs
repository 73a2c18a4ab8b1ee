//! Numbers in decimal: writing one out, and reading one.

use vstd::prelude::*;

verus! {

/// The character of a decimal digit.
pub open spec fn digit_char(d: nat) -> char {
    ((d + 48) as u8) as char
}

/// A number written in decimal, without sign or leading zeros.
pub open spec fn decimal_text(n: nat) -> Seq<char>
    decreases n,
{
    if n < 10 {
        seq![digit_char(n)]
    } else {
        decimal_text(n / 10).push(digit_char(n % 10))
    }
}

/// `itoa::Buffer::format` on a `usize`: the number in decimal, as the
/// crate documents it ("conversion of integer primitives to decimal
/// strings"): digits only, most significant first, no leading zeros.
#[verifier::external_body]
pub(crate) fn format_decimal(n: usize) -> (text: String)
    ensures
        text@ == decimal_text(n as nat),
{
    itoa::Buffer::new().format(n).to_owned()
}

/// Whether a byte is an ASCII decimal digit.
pub open spec fn is_digit(b: u8) -> bool {
    48 <= b <= 57
}

/// The number that a run of decimal digits writes.
pub open spec fn digits_value(digits: Seq<u8>) -> nat
    decreases digits.len(),
{
    if digits.len() == 0 {
        0
    } else {
        digits_value(digits.drop_last()) * 10 + (digits.last() - 48) as nat
    }
}

/// Whether every byte is a decimal digit.
pub open spec fn all_digits(digits: Seq<u8>) -> bool {
    forall|k: int| 0 <= k < digits.len() ==> is_digit(#[trigger] digits[k])
}

/// A text without the `+` that may lead it.
pub open spec fn unsigned_part(text: Seq<u8>) -> Seq<u8> {
    if text.len() > 0 && text[0] == 43 {
        text.skip(1)
    } else {
        text
    }
}

/// The number that a text writes, if it writes one that fits a `usize`:
/// one decimal digit or more, after at most one `+`.
pub open spec fn parsed_number(text: Seq<u8>) -> Option<nat> {
    let digits = unsigned_part(text);
    if digits.len() > 0 && all_digits(digits) && digits_value(digits) <= usize::MAX {
        Some(digits_value(digits))
    } else {
        None
    }
}

/// More digits never write a smaller number.
proof fn lemma_digits_value_grows(digits: Seq<u8>, k: int)
    requires
        0 <= k <= digits.len(),
        all_digits(digits),
    ensures
        digits_value(digits.take(k)) <= digits_value(digits),
    decreases digits.len() - k,
{
    if k < digits.len() {
        let longer = digits.take(k + 1);
        assert(longer.drop_last() == digits.take(k));
        assert(longer.last() == digits[k]);
        lemma_digits_value_grows(digits, k + 1);
    } else {
        assert(digits.take(k) == digits);
    }
}

/// Reads a number as `parsed_number` says.
pub fn parse_number(text: &[u8]) -> (number: Option<usize>)
    ensures
        match number {
            Some(n) => parsed_number(text@) == Some(n as nat),
            None => parsed_number(text@) is None,
        },
{
    let start: usize = if text.len() > 0 && text[0] == 43 {
        1
    } else {
        0
    };
    let ghost digits = text@.skip(start as int);
    assert(digits == unsigned_part(text@));
    if start == text.len() {
        return None;
    }
    let mut value: usize = 0;
    let mut at: usize = start;
    assert(digits.take(0) =~= Seq::<u8>::empty());
    while at < text.len()
        invariant
            start <= at <= text@.len(),
            digits == text@.skip(start as int),
            digits == unsigned_part(text@),
            forall|k: int| 0 <= k < at - start ==> is_digit(#[trigger] digits[k]),
            value == digits_value(digits.take(at - start)),
        decreases text@.len() - at,
    {
        let b = text[at];
        assert(digits[at - start] == b);
        if b < 48 || b > 57 {
            assert(!is_digit(digits[at - start]));
            return None;
        }
        let d: usize = (b - 48) as usize;
        let ghost longer = digits.take(at - start + 1);
        proof {
            assert(longer.drop_last() == digits.take(at - start));
            assert(longer.last() == b);
        }
        if value > (usize::MAX - d) / 10 {
            proof {
                assert(digits_value(longer) > usize::MAX) by (nonlinear_arith)
                    requires
                        digits_value(longer) == value * 10 + d,
                        value > (usize::MAX - d) / 10,
                        0 <= d <= 9,
                ;
                if all_digits(digits) {
                    lemma_digits_value_grows(digits, at - start + 1);
                }
            }
            return None;
        }
        assert(value * 10 + d <= usize::MAX) by (nonlinear_arith)
            requires
                value <= (usize::MAX - d) / 10,
                0 <= d <= 9,
        ;
        value = value * 10 + d;
        at += 1;
    }
    assert(digits.take(at - start) == digits);
    Some(value)
}

} // verus!
