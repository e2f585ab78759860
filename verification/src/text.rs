//! Contracts for the two standard-library calls that the encoder makes and
//! that `vstd` leaves without a specification. Nothing here is proved: each
//! contract restates the documentation of the function it names.

use vstd::prelude::*;

verus! {

/// The character that writes the decimal digit `n`, for `0 <= n <= 9`.
pub open spec fn decimal_digit(n: int) -> char {
    ('0' as int + n) as char
}

/// `String::push` appends one character to the end of the string and leaves
/// the characters before it as they were.
pub assume_specification[ String::push ](text: &mut String, ch: char)
    ensures
        final(text)@ == old(text)@.push(ch),
;

/// `char::from_digit` turns a number into the character that writes it in
/// the given radix. It answers `None` exactly when the number is not a digit
/// of that radix, and a number below ten is written by its decimal digit.
/// The standard library panics on a radix above 36, which is left out here;
/// about the letters that stand for ten and above nothing is claimed.
pub assume_specification[ char::from_digit ](num: u32, radix: u32) -> (digit: Option<char>)
    requires
        2 <= radix <= 36,
    ensures
        digit is None <==> num >= radix,
        num < radix && num < 10 ==> digit == Some(decimal_digit(num as int)),
;

} // verus!
