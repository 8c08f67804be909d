//! Order and equality of IEEE 754 binary64 values, read off their bits.

use vstd::prelude::*;

verus! {

/// The word whose only set bit is the sign.
pub const SIGN_BIT: u64 = 0x8000_0000_0000_0000;

/// The word of positive infinity. A larger magnitude is not a number.
pub const INFINITY: u64 = 0x7FF0_0000_0000_0000;

/// The word of the number one.
pub const ONE: u64 = 0x3FF0_0000_0000_0000;

/// The word of positive zero.
pub const ZERO: u64 = 0;

/// The word without its sign bit.
pub open spec fn magnitude(word: u64) -> int {
    if word >= SIGN_BIT {
        word - SIGN_BIT
    } else {
        word as int
    }
}

/// Whether the word encodes no number: all exponent bits set and a
/// fraction that is not zero.
pub open spec fn is_nan(word: u64) -> bool {
    magnitude(word) > INFINITY
}

/// An integer that orders the words of numbers as the numbers themselves
/// are ordered. Both zeros have ordinal 0.
pub open spec fn ordinal(word: u64) -> int {
    if word >= SIGN_BIT {
        -magnitude(word)
    } else {
        magnitude(word)
    }
}

/// `a > b` on the encoded values. False whenever either side is not a number.
pub open spec fn exceeds(a: u64, b: u64) -> bool {
    !is_nan(a) && !is_nan(b) && ordinal(a) > ordinal(b)
}

/// `a == b` on the encoded values: equal ordinals, and neither side not a
/// number.
pub open spec fn same_number(a: u64, b: u64) -> bool {
    !is_nan(a) && !is_nan(b) && ordinal(a) == ordinal(b)
}

/// Splits a word into its sign and its magnitude.
fn split(word: u64) -> (parts: (bool, u64))
    ensures
        parts.0 == (word >= SIGN_BIT),
        parts.1 == magnitude(word),
{
    if word >= SIGN_BIT {
        (true, word - SIGN_BIT)
    } else {
        (false, word)
    }
}

/// Tells whether `word` encodes no number.
pub fn word_is_nan(word: u64) -> (nan: bool)
    ensures
        nan == is_nan(word),
{
    let (_, size) = split(word);
    size > INFINITY
}

/// Compares two encoded values with `>`.
pub fn word_exceeds(a: u64, b: u64) -> (greater: bool)
    ensures
        greater == exceeds(a, b),
{
    let (a_negative, a_size) = split(a);
    let (b_negative, b_size) = split(b);
    if a_size > INFINITY || b_size > INFINITY {
        false
    } else if a_negative {
        b_negative && a_size < b_size
    } else if b_negative {
        a_size > 0 || b_size > 0
    } else {
        a_size > b_size
    }
}

/// Tells whether `word` encodes a value equal to one. One has a single
/// encoding, so this is equality of words.
pub fn word_is_one(word: u64) -> (one: bool)
    ensures
        one == (word == ONE),
        one == same_number(word, ONE),
{
    word == ONE
}

/// `>` is irreflexive, asymmetric and transitive on words, and never holds
/// between two words of equal value.
pub proof fn lemma_exceeds_is_strict_order(a: u64, b: u64, c: u64)
    ensures
        !exceeds(a, a),
        exceeds(a, b) ==> !exceeds(b, a),
        exceeds(a, b) && exceeds(b, c) ==> exceeds(a, c),
        same_number(a, b) ==> !exceeds(a, b) && !exceeds(b, a),
{
}

} // verus!
