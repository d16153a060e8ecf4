//! Words: a letter followed by a number, like `G1`, `M199` or `T6`.
use crate::error::{agrees, err, ErrorKind, Fail, PResult, ParseError, SResult};
use crate::number::{lemma_recognize_float, recognize_float, spec_recognize_float, WordValue};
use crate::text::{blank_end, eq_ignore_case, lemma_blank_end, same_ignoring_case, skip_blanks, to_upper, upper};
use vstd::prelude::*;

verus! {

/// A gcode word
///
/// A word consists of a letter and a number like `G1`, `M199` or `T6`. The numberic part has different meanings depending on letter (and sometimes context).
#[derive(Debug, PartialEq)]
pub struct Word<V> {
    /// Single code letter, uppercased by the [`word`] parser
    pub letter: char,
    /// Value or identifier after letter
    pub value: V,
}

impl<V: View> View for Word<V> {
    type V = Word<V::V>;

    open spec fn view(&self) -> Word<V::V> {
        Word { letter: self.letter, value: self.value@ }
    }
}

impl<V> Word<V> {
    /// Create a new `Word` from a letter and given value type
    pub fn new(letter: char, value: V) -> (r: Self)
        ensures
            r.letter == letter,
            r.value == value,
    {
        Self { letter, value }
    }
}

/// A word at `pos` whose letter is `search` (in either case): any `char`, blanks, then the text
/// of a number that converts to a `V`. The letter of the result is upper case.
///
/// With no `char` left the error is `Eof` at `pos`; a number that is missing or does not
/// convert gives the number's error or `MapRes` where the number starts; another letter gives
/// `Verify` at `pos`.
pub open spec fn spec_word<V: WordValue>(s: Seq<char>, pos: int, search: char) -> SResult<Word<V::V>> {
    if pos >= s.len() {
        err(pos, ErrorKind::Eof)
    } else {
        let c = s[pos];
        let q = blank_end(s, pos + 1);
        match spec_recognize_float(s, q) {
            Err(e) => Err(e),
            Ok((r, _)) => match V::spec_from_text(s.subrange(q, r)) {
                None => err(q, ErrorKind::MapRes),
                Some(v) => if same_ignoring_case(c, search) {
                    Ok((r, Word { letter: upper(c), value: v }))
                } else {
                    err(pos, ErrorKind::Verify)
                },
            },
        }
    }
}

/// A word consumes at least two `char`s and stays inside the input; errors lie inside it too.
pub proof fn lemma_word<V: WordValue>(s: Seq<char>, pos: int, search: char)
    requires
        0 <= pos <= s.len(),
        s.len() <= usize::MAX,
    ensures
        spec_word::<V>(s, pos, search) matches Ok((p, _)) ==> pos + 2 <= p <= s.len(),
        spec_word::<V>(s, pos, search) matches Err(Fail::Error(e)) ==> pos <= e.position <= s.len(),
        spec_word::<V>(s, pos, search) matches Err(Fail::Failure(e)) ==> pos <= e.position <= s.len(),
{
    if pos < s.len() {
        lemma_blank_end(s, pos + 1);
        lemma_recognize_float(s, blank_end(s, pos + 1));
    }
}

/// Recognise a word starting with a given character; see [`spec_word`].
pub fn word<V: WordValue>(s: &[char], pos: usize, search: char) -> (r: PResult<Word<V>>)
    requires
        pos <= s@.len(),
    ensures
        agrees(r, spec_word::<V>(s@, pos as int, search)),
{
    if pos >= s.len() {
        return Err(Fail::Error(ParseError { position: pos, kind: ErrorKind::Eof }));
    }
    let c = s[pos];
    let q = skip_blanks(s, pos + 1);
    let r = match recognize_float(s, q) {
        Err(e) => {
            return Err(e);
        },
        Ok((r, _)) => r,
    };
    proof {
        lemma_recognize_float(s@, q as int);
    }
    match V::from_text(s, q, r) {
        None => Err(Fail::Error(ParseError { position: q, kind: ErrorKind::MapRes })),
        Some(v) => {
            if eq_ignore_case(c, search) {
                Ok((r, Word { letter: to_upper(c), value: v }))
            } else {
                Err(Fail::Error(ParseError { position: pos, kind: ErrorKind::Verify }))
            }
        },
    }
}

} // verus!
