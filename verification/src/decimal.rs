//! Unsigned decimal numerals in ASCII.
use vstd::prelude::*;

verus! {

/// The ASCII digit `0`.
pub const DIGIT_ZERO: u8 = 48;

/// The ASCII digit `1`.
pub const DIGIT_ONE: u8 = 49;

/// The ASCII digit `9`.
pub const DIGIT_NINE: u8 = 57;

/// Is `byte` one of the ASCII digits `0` to `9`?
pub open spec fn is_digit(byte: u8) -> bool {
    DIGIT_ZERO <= byte <= DIGIT_NINE
}

/// Is `text` a numeral: one digit or more, and nothing else?
pub open spec fn is_decimal(text: Seq<u8>) -> bool {
    &&& text.len() > 0
    &&& forall|i: int| 0 <= i < text.len() ==> is_digit(#[trigger] text[i])
}

/// The number that the digits of `text` write in base ten.
pub open spec fn decimal_value(text: Seq<u8>) -> nat
    decreases text.len(),
{
    if text.len() == 0 {
        0
    } else {
        decimal_value(text.drop_last()) * 10 + (text.last() - DIGIT_ZERO) as nat
    }
}

/// The numeral of `n` without leading zeros.
pub open spec fn decimal_digits(n: nat) -> Seq<u8>
    decreases n,
{
    if n < 10 {
        seq![(DIGIT_ZERO + n) as u8]
    } else {
        decimal_digits(n / 10).push((DIGIT_ZERO + n % 10) as u8)
    }
}

/// `atoi::atoi::<u64>` on a numeral returns its value, or `None` when the value
/// does not fit in 64 bits; leading zeros are allowed. Nothing is claimed of a
/// text that holds anything but digits: there `atoi` reads a sign and stops at
/// the first byte that is no digit, and this library takes no such text to it.
#[verifier::external_body]
fn atoi_u64(text: &[u8]) -> (r: Option<u64>)
    ensures
        is_decimal(text@) ==> r == if decimal_value(text@) <= u64::MAX {
            Some(decimal_value(text@) as u64)
        } else {
            None
        },
{
    atoi::atoi::<u64>(text)
}

/// Are all bytes of `text` digits?
fn all_digits(text: &[u8]) -> (r: bool)
    ensures
        r == (forall|i: int| 0 <= i < text@.len() ==> is_digit(#[trigger] text@[i])),
{
    let mut i: usize = 0;
    while i < text.len()
        invariant
            i <= text@.len(),
            forall|j: int| 0 <= j < i ==> is_digit(#[trigger] text@[j]),
        decreases text@.len() - i,
    {
        if text[i] < DIGIT_ZERO || text[i] > DIGIT_NINE {
            return false;
        }
        i += 1;
    }
    true
}

/// Reads `text` as an unsigned decimal numeral.
///
/// The result is the value of the numeral when `text` is a numeral whose value
/// fits in 64 bits, and `None` otherwise: on an empty text, on any byte that is
/// no digit (a sign too), and on overflow.
pub fn parse_decimal(text: &[u8]) -> (r: Option<u64>)
    ensures
        r == spec_parse_decimal(text@),
{
    if text.len() == 0 || !all_digits(text) {
        None
    } else {
        atoi_u64(text)
    }
}

/// What [`parse_decimal`] returns.
pub open spec fn spec_parse_decimal(text: Seq<u8>) -> Option<u64> {
    if is_decimal(text) && decimal_value(text) <= u64::MAX {
        Some(decimal_value(text) as u64)
    } else {
        None
    }
}

/// Appends the numeral of `n` to `out`.
pub fn write_decimal(n: u64, out: &mut Vec<u8>)
    ensures
        final(out)@ == old(out)@ + decimal_digits(n as nat),
    decreases n,
{
    if n >= 10 {
        write_decimal(n / 10, out);
    }
    let digit: u8 = (n % 10) as u8;
    out.push(DIGIT_ZERO + digit);
}

/// A numeral built from a number is a numeral, and reads back as that number.
pub proof fn lemma_decimal_digits(n: nat)
    ensures
        is_decimal(decimal_digits(n)),
        decimal_value(decimal_digits(n)) == n,
    decreases n,
{
    if n < 10 {
        let text = decimal_digits(n);
        assert(decimal_value(text.drop_last()) == 0);
    } else {
        lemma_decimal_digits(n / 10);
        let text = decimal_digits(n);
        assert(text.drop_last() =~= decimal_digits(n / 10));
    }
}

} // verus!
