//! Turning a word's number into the code it stands for.
use crate::error::{err, ErrorKind, SResult};
use crate::gcode_parser::word::Word;
use vstd::prelude::*;

verus! {

/// A word of letter `letter` whose value `f` maps to a code gives that code; a value that maps
/// to none gives an error of kind `kind` at `pos`; a failed word passes its failure on.
pub open spec fn word_code<V, T>(r: SResult<Word<V>>, pos: int, f: spec_fn(V) -> Option<T>, kind: ErrorKind) -> SResult<T> {
    match r {
        Ok((p, w)) => match f(w.value) {
            Some(t) => Ok((p, t)),
            None => err(pos, kind),
        },
        Err(e) => Err(e),
    }
}

} // verus!

verus! {

/// The text is exactly the two `char`s `a`, `b`.
pub open spec fn text2(t: Seq<char>, a: char, b: char) -> bool {
    t.len() == 2 && t[0] == a && t[1] == b
}

/// The text is exactly the four `char`s `a`, `b`, `c`, `d`.
pub open spec fn text4(t: Seq<char>, a: char, b: char, c: char, d: char) -> bool {
    t.len() == 4 && t[0] == a && t[1] == b && t[2] == c && t[3] == d
}

/// Whether `s[start..end]` is exactly `a`, `b`.
pub fn is_text2(s: &[char], start: usize, end: usize, a: char, b: char) -> (r: bool)
    requires
        start <= end <= s@.len(),
    ensures
        r == text2(s@.subrange(start as int, end as int), a, b),
{
    end - start == 2 && s[start] == a && s[start + 1] == b
}

/// Whether `s[start..end]` is exactly `a`, `b`, `c`, `d`.
pub fn is_text4(s: &[char], start: usize, end: usize, a: char, b: char, c: char, d: char) -> (r: bool)
    requires
        start <= end <= s@.len(),
    ensures
        r == text4(s@.subrange(start as int, end as int), a, b, c, d),
{
    end - start == 4 && s[start] == a && s[start + 1] == b && s[start + 2] == c && s[start + 3] == d
}

} // verus!
