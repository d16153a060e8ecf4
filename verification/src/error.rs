//! Parse errors.
use vstd::prelude::*;

verus! {

/// Why a parser stopped.
#[derive(Debug, Clone, Copy, PartialEq, Eq)]
pub enum ErrorKind {
    /// The input ended where a character was needed.
    Eof,
    /// A specific character was expected.
    Char,
    /// At least one decimal digit was expected.
    Digit,
    /// A parsed value did not pass a check.
    Verify,
    /// A parsed value could not be converted (fallible conversion).
    MapRes,
    /// A parsed value could not be converted (optional conversion).
    MapOpt,
    /// A fixed piece of text was expected.
    Tag,
    /// Something was found that must not follow.
    Not,
    /// At least one character outside a set was expected.
    IsNot,
    /// A character from a set was expected.
    OneOf,
    /// A character meeting a condition was expected.
    Satisfy,
    /// A number was expected.
    Float,
    /// A terminating piece of text was never found.
    TakeUntil,
    /// A repeated parser consumed nothing.
    Many0,
    /// A repetition did not match as many times as it needed to.
    ManyMN,
}

/// A position in the input (an index into its `char`s) and the reason parsing stopped there.
#[derive(Debug, Clone, Copy, PartialEq, Eq)]
pub struct ParseError {
    pub position: usize,
    pub kind: ErrorKind,
}

/// A parse failure.
///
/// `Error` is recoverable: a caller trying alternatives goes on with the next one. `Failure` is
/// not: it ends the whole parse.
#[derive(Debug, Clone, Copy, PartialEq, Eq)]
pub enum Fail {
    Error(ParseError),
    Failure(ParseError),
}

/// The outcome of a parser: the position just past the consumed input and the value, or a failure.
pub type PResult<T> = Result<(usize, T), Fail>;

/// The mathematical counterpart of [`PResult`], over the view of the value.
pub type SResult<T> = Result<(int, T), Fail>;

/// A recoverable error at `pos`.
pub open spec fn err<T>(pos: int, kind: ErrorKind) -> SResult<T> {
    Err(Fail::Error(ParseError { position: pos as usize, kind }))
}

/// An unrecoverable failure at `pos`.
pub open spec fn failure<T>(pos: int, kind: ErrorKind) -> SResult<T> {
    Err(Fail::Failure(ParseError { position: pos as usize, kind }))
}

/// The executable outcome `r` is the mathematical outcome `s`.
pub open spec fn agrees<T: View>(r: PResult<T>, s: SResult<T::V>) -> bool {
    match (r, s) {
        (Ok((p, v)), Ok((q, w))) => p == q && v@ == w,
        (Err(e), Err(f)) => e == f,
        _ => false,
    }
}

/// Try `a`; where it ends in a recoverable error, the outcome is `b`.
pub open spec fn or_else<T>(a: SResult<T>, b: SResult<T>) -> SResult<T> {
    match a {
        Err(Fail::Error(_)) => b,
        _ => a,
    }
}

/// Apply `f` to the value of a successful outcome.
pub open spec fn map_value<A, B>(r: SResult<A>, f: spec_fn(A) -> B) -> SResult<B> {
    match r {
        Ok((p, v)) => Ok((p, f(v))),
        Err(e) => Err(e),
    }
}

} // verus!
