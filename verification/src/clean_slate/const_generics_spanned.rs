//! Words with a fixed letter and number, and literals, where the letter is matched by a condition.
use crate::clean_slate::const_generics_test::{literal_is, spec_literal, spec_recognise_word, spec_recognise_word_decimal, word_decimal_is, word_is};
use crate::error::{agrees, PResult};
use crate::number::Number;
use vstd::prelude::*;

verus! {

/// The word with letter `c` (either case) and integer `n`; a missing or different letter is a
/// `Satisfy` error.
pub fn recognise_word(c: char, n: u8, s: &[char], pos: usize) -> (r: PResult<()>)
    requires
        pos <= s@.len(),
    ensures
        agrees(r, spec_recognise_word(s@, pos as int, c, n, true)),
{
    word_is(s, pos, c, n, true)
}

/// The word with letter `c` and decimal number `n.m`; a missing or different letter is a
/// `Satisfy` error.
pub fn recognise_word_decimal(c: char, n: u8, m: u8, s: &[char], pos: usize) -> (r: PResult<()>)
    requires
        pos <= s@.len(),
    ensures
        agrees(r, spec_recognise_word_decimal(s@, pos as int, c, n, m, true)),
{
    word_decimal_is(s, pos, c, n, m, true)
}

/// The letter `c` followed by a floating point number; a missing or different letter is a
/// `Satisfy` error.
pub fn literal(c: char, s: &[char], pos: usize) -> (r: PResult<Number>)
    requires
        pos <= s@.len(),
    ensures
        agrees(r, spec_literal(s@, pos as int, c, true)),
{
    literal_is(s, pos, c, true)
}

} // verus!
