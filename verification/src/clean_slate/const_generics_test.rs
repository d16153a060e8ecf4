//! Words with a fixed letter and number, such as `G0` or `G17.1`, and literals such as `P0.5`.
use crate::error::{agrees, err, failure, ErrorKind, Fail, PResult, ParseError, SResult};
use crate::number::{lemma_recognize_float, parse_unsigned, parse_unsigned_exec, recognize_float, spec_recognize_float, string_of, Number};
use crate::text::{blank_end, digit, digit_end, eq_ignore_case, is_digit, lemma_digit_end, same_ignoring_case, skip_blanks, skip_digits, tag_at, tag_no_case};
use vstd::prelude::*;

verus! {

/// The letter `c` (either case) at `pos`. With `satisfy`, both a missing and a different `char`
/// are a `Satisfy` error; otherwise they are `Eof` and `Verify`.
pub open spec fn spec_letter(s: Seq<char>, pos: int, c: char, satisfy: bool) -> SResult<()> {
    if pos >= s.len() {
        err(pos, if satisfy { ErrorKind::Satisfy } else { ErrorKind::Eof })
    } else if !same_ignoring_case(s[pos], c) {
        err(pos, if satisfy { ErrorKind::Satisfy } else { ErrorKind::Verify })
    } else {
        Ok((pos + 1, ()))
    }
}

/// Digits at `pos` whose value, as a `u8`, is `n`. No digit is a `Digit` error and a value above
/// 255 a `MapOpt` error, both at `pos`; another value is a `Verify` error at `check`.
pub open spec fn spec_number_is(s: Seq<char>, pos: int, n: u8, check: int) -> SResult<()> {
    if !(0 <= pos < s.len() && is_digit(s[pos])) {
        err(pos, ErrorKind::Digit)
    } else {
        let d = digit_end(s, pos);
        match parse_unsigned(s.subrange(pos, d), 255) {
            None => err(pos, ErrorKind::MapOpt),
            Some(v) => if v == n {
                Ok((d, ()))
            } else {
                err(check, ErrorKind::Verify)
            },
        }
    }
}

/// The letter `c` (either case), blanks, then digits whose value is `n`.
pub open spec fn spec_recognise_word(s: Seq<char>, pos: int, c: char, n: u8, satisfy: bool) -> SResult<()> {
    match spec_letter(s, pos, c, satisfy) {
        Ok((p, _)) => spec_number_is(s, blank_end(s, p), n, p),
        Err(e) => Err(e),
    }
}

/// A word `c n` (see [`spec_recognise_word`]), blanks, `.`, blanks, then digits whose value is `m`.
pub open spec fn spec_recognise_word_decimal(s: Seq<char>, pos: int, c: char, n: u8, m: u8, satisfy: bool) -> SResult<()> {
    match spec_recognise_word(s, pos, c, n, satisfy) {
        Ok((p, _)) => {
            let q = blank_end(s, p);
            if q < s.len() && s[q] == '.' {
                let r = blank_end(s, q + 1);
                spec_number_is(s, r, m, r)
            } else {
                err(q, ErrorKind::Char)
            }
        },
        Err(e) => Err(e),
    }
}

/// A floating point number's text at `pos`: a number as [`spec_recognize_float`] reads it, or
/// else `nan` or `inf` in any case. Any error becomes a `Float` error at `pos`.
pub open spec fn spec_float(s: Seq<char>, pos: int) -> SResult<Seq<char>> {
    match spec_recognize_float(s, pos) {
        Ok((p, _)) => Ok((p, s.subrange(pos, p))),
        Err(Fail::Failure(_)) => failure(pos, ErrorKind::Float),
        Err(Fail::Error(_)) => if tag_at(s, pos, seq!['n', 'a', 'n']) {
            Ok((pos + 3, s.subrange(pos, pos + 3)))
        } else if tag_at(s, pos, seq!['i', 'n', 'f']) {
            Ok((pos + 3, s.subrange(pos, pos + 3)))
        } else {
            err(pos, ErrorKind::Float)
        },
    }
}

/// The letter `c` (either case), blanks, then a floating point number.
pub open spec fn spec_literal(s: Seq<char>, pos: int, c: char, satisfy: bool) -> SResult<Seq<char>> {
    match spec_letter(s, pos, c, satisfy) {
        Ok((p, _)) => spec_float(s, blank_end(s, p)),
        Err(e) => Err(e),
    }
}

/// See [`spec_letter`].
pub fn letter(s: &[char], pos: usize, c: char, satisfy: bool) -> (r: PResult<()>)
    requires
        pos <= s@.len(),
    ensures
        agrees(r, spec_letter(s@, pos as int, c, satisfy)),
{
    if pos >= s.len() {
        Err(Fail::Error(ParseError { position: pos, kind: if satisfy { ErrorKind::Satisfy } else { ErrorKind::Eof } }))
    } else if !eq_ignore_case(s[pos], c) {
        Err(Fail::Error(ParseError { position: pos, kind: if satisfy { ErrorKind::Satisfy } else { ErrorKind::Verify } }))
    } else {
        Ok((pos + 1, ()))
    }
}

/// See [`spec_number_is`].
pub fn number_is(s: &[char], pos: usize, n: u8, check: usize) -> (r: PResult<()>)
    requires
        pos <= s@.len(),
    ensures
        agrees(r, spec_number_is(s@, pos as int, n, check as int)),
{
    if !(pos < s.len() && digit(s[pos])) {
        return Err(Fail::Error(ParseError { position: pos, kind: ErrorKind::Digit }));
    }
    let d = skip_digits(s, pos);
    match parse_unsigned_exec(s, pos, d, 255) {
        None => Err(Fail::Error(ParseError { position: pos, kind: ErrorKind::MapOpt })),
        Some(v) => if v == n as u64 {
            Ok((d, ()))
        } else {
            Err(Fail::Error(ParseError { position: check, kind: ErrorKind::Verify }))
        },
    }
}

/// See [`spec_recognise_word`].
pub fn word_is(s: &[char], pos: usize, c: char, n: u8, satisfy: bool) -> (r: PResult<()>)
    requires
        pos <= s@.len(),
    ensures
        agrees(r, spec_recognise_word(s@, pos as int, c, n, satisfy)),
        r matches Ok((p, _)) ==> p <= s@.len(),
{
    match letter(s, pos, c, satisfy) {
        Ok((p, _)) => {
            let q = skip_blanks(s, p);
            let r = number_is(s, q, n, p);
            proof {
                lemma_digit_end(s@, q as int);
            }
            r
        },
        Err(e) => Err(e),
    }
}

/// See [`spec_recognise_word_decimal`].
pub fn word_decimal_is(s: &[char], pos: usize, c: char, n: u8, m: u8, satisfy: bool) -> (r: PResult<()>)
    requires
        pos <= s@.len(),
    ensures
        agrees(r, spec_recognise_word_decimal(s@, pos as int, c, n, m, satisfy)),
{
    match word_is(s, pos, c, n, satisfy) {
        Ok((p, _)) => {
            let q = skip_blanks(s, p);
            if q < s.len() && s[q] == '.' {
                let r = skip_blanks(s, q + 1);
                number_is(s, r, m, r)
            } else {
                Err(Fail::Error(ParseError { position: q, kind: ErrorKind::Char }))
            }
        },
        Err(e) => Err(e),
    }
}

/// See [`spec_float`].
pub fn float(s: &[char], pos: usize) -> (r: PResult<Number>)
    requires
        pos <= s@.len(),
    ensures
        agrees(r, spec_float(s@, pos as int)),
{
    let n = s.len();
    match recognize_float(s, pos) {
        Ok((p, _)) => {
            proof {
                lemma_recognize_float(s@, pos as int);
            }
            Ok((p, Number { text: string_of(s, pos, p) }))
        },
        Err(Fail::Failure(_)) => Err(Fail::Failure(ParseError { position: pos, kind: ErrorKind::Float })),
        Err(Fail::Error(_)) => {
            let nan = ['n', 'a', 'n'];
            let inf = ['i', 'n', 'f'];
            assert(nan@ == seq!['n', 'a', 'n']);
            assert(inf@ == seq!['i', 'n', 'f']);
            if tag_no_case(s, pos, &nan) || tag_no_case(s, pos, &inf) {
                Ok((pos + 3, Number { text: string_of(s, pos, pos + 3) }))
            } else {
                Err(Fail::Error(ParseError { position: pos, kind: ErrorKind::Float }))
            }
        },
    }
}

/// See [`spec_literal`].
pub fn literal_is(s: &[char], pos: usize, c: char, satisfy: bool) -> (r: PResult<Number>)
    requires
        pos <= s@.len(),
    ensures
        agrees(r, spec_literal(s@, pos as int, c, satisfy)),
{
    match letter(s, pos, c, satisfy) {
        Ok((p, _)) => float(s, skip_blanks(s, p)),
        Err(e) => Err(e),
    }
}

/// The word with letter `c` (either case) and integer `n`, such as `G0` or `g 00`.
pub fn recognise_word(c: char, n: u8, s: &[char], pos: usize) -> (r: PResult<()>)
    requires
        pos <= s@.len(),
    ensures
        agrees(r, spec_recognise_word(s@, pos as int, c, n, false)),
{
    word_is(s, pos, c, n, false)
}

/// The word with letter `c` and decimal number `n.m`, such as `G17.1` or `g 17 . 1`.
pub fn recognise_word_decimal(c: char, n: u8, m: u8, s: &[char], pos: usize) -> (r: PResult<()>)
    requires
        pos <= s@.len(),
    ensures
        agrees(r, spec_recognise_word_decimal(s@, pos as int, c, n, m, false)),
{
    word_decimal_is(s, pos, c, n, m, false)
}

/// The letter `c` followed by a floating point number, such as `P0.005`.
pub fn literal(c: char, s: &[char], pos: usize) -> (r: PResult<Number>)
    requires
        pos <= s@.len(),
    ensures
        agrees(r, spec_literal(s@, pos as int, c, false)),
{
    literal_is(s, pos, c, false)
}

/// A word with a fixed letter and number: the letter `c` in either case, blanks, then digits
/// up to `e` (at least one, followed by the end of the input or a non-digit) is recognised
/// through its digits exactly when their value is `n`; any other letter is refused.
pub proof fn law_recognise_word(s: Seq<char>, pos: int, c: char, n: u8, satisfy: bool, e: int)
    requires
        0 <= pos < s.len(),
        blank_end(s, pos + 1) < e <= s.len(),
        forall|k: int| blank_end(s, pos + 1) <= k < e ==> is_digit(#[trigger] s[k]),
        e == s.len() || !is_digit(s[e]),
    ensures
        same_ignoring_case(s[pos], c) && crate::number::digits_value(s.subrange(blank_end(s, pos + 1), e)) == n
            ==> spec_recognise_word(s, pos, c, n, satisfy) == Ok::<(int, ()), Fail>((e, ())),
        same_ignoring_case(s[pos], c) && crate::number::digits_value(s.subrange(blank_end(s, pos + 1), e)) != n
            ==> spec_recognise_word(s, pos, c, n, satisfy) is Err,
        !same_ignoring_case(s[pos], c) ==> spec_recognise_word(s, pos, c, n, satisfy) is Err,
{
    crate::text::lemma_blank_end(s, pos + 1);
    let q = blank_end(s, pos + 1);
    crate::text::lemma_digit_end_at(s, q, e);
    let t = s.subrange(q, e);
    assert(crate::number::unsigned_digits(t) == t);
    assert(crate::number::all_digits(t)) by {
        assert forall|i: int| 0 <= i < t.len() implies is_digit(#[trigger] t[i]) by {
            assert(t[i] == s[q + i]);
        }
    }
}

} // verus!
