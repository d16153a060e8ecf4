//! Parse a couple of modal groups and collate them into a [`Word`] enum.
//!
//! Also contains the [`Spanned`] struct to wrap an item with its position in the input.
use crate::clean_slate::const_generics_spanned::{literal, recognise_word};
use crate::clean_slate::const_generics_test::{spec_literal, spec_recognise_word};
use crate::error::{agrees, err, map_value, or_else, ErrorKind, Fail, PResult, ParseError, SResult};
use crate::location::{advance, fits, location_at, location_of, Location};
use crate::number::{lemma_recognize_float, string_of, Number};
use crate::text::{blank_end, find, find_char, lemma_blank_end, lemma_digit_end, lemma_find_char, skip_blanks};
use vstd::prelude::*;

verus! {

/// A parsed word with its input position.
#[derive(Debug, PartialEq, Clone)]
pub struct Spanned<T> {
    pub start: Location,
    pub end: Location,
    pub item: T,
}

/// A value together with the locations where its text starts and ends.
pub struct SpannedView<V> {
    pub start: Location,
    pub end: Location,
    pub item: V,
}

impl<T: View> View for Spanned<T> {
    type V = SpannedView<T::V>;

    open spec fn view(&self) -> SpannedView<T::V> {
        SpannedView { start: self.start, end: self.end, item: self.item@ }
    }
}

#[derive(Debug, PartialEq, Clone)]
pub enum Word {
    /// Comment.
    Comment(Comment),
    // Modal groups.
    /// Group 0.
    NonModal(NonModal),
    /// Group 1.
    Motion(Motion),
}

pub enum WordView {
    Comment(CommentView),
    NonModal(NonModalView),
    Motion(Motion),
}

impl View for Word {
    type V = WordView;

    open spec fn view(&self) -> WordView {
        match self {
            Word::Comment(c) => WordView::Comment(c@),
            Word::NonModal(n) => WordView::NonModal(n@),
            Word::Motion(m) => WordView::Motion(*m),
        }
    }
}

#[derive(Debug, PartialEq, Eq, Clone, Copy)]
pub enum CommentKind {
    Block,
    Inline,
}

#[derive(Debug, PartialEq, Clone)]
pub struct Comment {
    pub kind: CommentKind,
    pub comment: String,
}

/// The kind and text of a comment.
pub struct CommentView {
    pub kind: CommentKind,
    pub comment: Seq<char>,
}

impl View for Comment {
    type V = CommentView;

    open spec fn view(&self) -> CommentView {
        CommentView { kind: self.kind, comment: self.comment@ }
    }
}

/// Group 1: Motion.
#[derive(Debug, PartialEq, Eq, Clone, Copy)]
pub enum Motion {
    // `G0`.
    Rapid,
}

impl View for Motion {
    type V = Motion;

    open spec fn view(&self) -> Motion {
        *self
    }
}

impl View for CommentKind {
    type V = CommentKind;

    open spec fn view(&self) -> CommentKind {
        *self
    }
}

/// Group 0: Non-modal.
#[derive(Debug, PartialEq, Clone)]
pub enum NonModal {
    // `G4 Pn`: the duration in seconds, as written.
    Dwell { duration: Number },
}

pub enum NonModalView {
    Dwell { duration: Seq<char> },
}

impl View for NonModal {
    type V = NonModalView;

    open spec fn view(&self) -> NonModalView {
        match self {
            NonModal::Dwell { duration } => NonModalView::Dwell { duration: duration@ },
        }
    }
}

/// `(`, the text up to the next `)`, `)`: an inline comment with that text as it is. Or else `;`
/// and all the rest of the input: a block comment. Anything else is a `Char` error at `pos`.
pub open spec fn spec_comment(s: Seq<char>, pos: int) -> SResult<CommentView> {
    if pos < s.len() && s[pos] == '(' && find_char(s, pos + 1, ')') < s.len() {
        let e = find_char(s, pos + 1, ')');
        Ok((e + 1, CommentView { kind: CommentKind::Inline, comment: s.subrange(pos + 1, e) }))
    } else if pos < s.len() && s[pos] == ';' {
        Ok((s.len() as int, CommentView { kind: CommentKind::Block, comment: s.subrange(pos + 1, s.len() as int) }))
    } else {
        err(pos, ErrorKind::Char)
    }
}

/// `G0`: a rapid motion.
pub open spec fn spec_motion(s: Seq<char>, pos: int) -> SResult<Motion> {
    map_value(spec_recognise_word(s, pos, 'G', 0, true), |u: ()| Motion::Rapid)
}

/// `G4`, blanks, then a `P` literal: a dwell for that many seconds.
pub open spec fn spec_non_modal(s: Seq<char>, pos: int) -> SResult<NonModalView> {
    match spec_recognise_word(s, pos, 'G', 4, true) {
        Ok((p, _)) => map_value(spec_literal(s, blank_end(s, p), 'P', true), |d: Seq<char>| NonModalView::Dwell { duration: d }),
        Err(e) => Err(e),
    }
}

/// A comment, or else a motion, or else a non-modal word.
pub open spec fn spec_word(s: Seq<char>, pos: int) -> SResult<WordView> {
    or_else(map_value(spec_comment(s, pos), |c: CommentView| WordView::Comment(c)),
    or_else(map_value(spec_motion(s, pos), |m: Motion| WordView::Motion(m)),
        map_value(spec_non_modal(s, pos), |n: NonModalView| WordView::NonModal(n))))
}

/// A word with the locations where it starts and ends.
pub open spec fn spec_word_spanned(s: Seq<char>, pos: int) -> SResult<SpannedView<WordView>> {
    match spec_word(s, pos) {
        Ok((p, w)) => Ok((p, SpannedView { start: location_at(s, pos), end: location_at(s, p), item: w })),
        Err(e) => Err(e),
    }
}

/// A word consumes at least one `char` and stays inside the input.
pub proof fn lemma_word(s: Seq<char>, pos: int)
    requires
        0 <= pos <= s.len(),
        s.len() <= usize::MAX,
    ensures
        spec_word(s, pos) matches Ok((p, _)) ==> pos < p <= s.len(),
{
    if pos < s.len() {
        lemma_find_char(s, pos + 1, ')');
        lemma_blank_end(s, pos + 1);
        lemma_digit_end(s, blank_end(s, pos + 1));
        if let Ok((p, _)) = spec_recognise_word(s, pos, 'G', 4, true) {
            lemma_blank_end(s, p);
            let q = blank_end(s, p);
            if q < s.len() {
                lemma_blank_end(s, q + 1);
                lemma_recognize_float(s, blank_end(s, q + 1));
            }
        }
    }
}

impl Comment {
    /// See [`spec_comment`].
    pub fn parse(s: &[char], pos: usize) -> (r: PResult<Comment>)
        requires
            pos <= s@.len(),
        ensures
            agrees(r, spec_comment(s@, pos as int)),
    {
        if pos < s.len() && s[pos] == '(' {
            let e = find(s, pos + 1, ')');
            if e < s.len() {
                return Ok((e + 1, Comment { kind: CommentKind::Inline, comment: string_of(s, pos + 1, e) }));
            }
        }
        if pos < s.len() && s[pos] == ';' {
            Ok((s.len(), Comment { kind: CommentKind::Block, comment: string_of(s, pos + 1, s.len()) }))
        } else {
            Err(Fail::Error(ParseError { position: pos, kind: ErrorKind::Char }))
        }
    }
}

impl Motion {
    /// See [`spec_motion`].
    pub fn parse(s: &[char], pos: usize) -> (r: PResult<Motion>)
        requires
            pos <= s@.len(),
        ensures
            agrees(r, spec_motion(s@, pos as int)),
    {
        match recognise_word('G', 0, s, pos) {
            Ok((p, _)) => Ok((p, Motion::Rapid)),
            Err(e) => Err(e),
        }
    }
}

impl NonModal {
    /// See [`spec_non_modal`].
    pub fn parse(s: &[char], pos: usize) -> (r: PResult<NonModal>)
        requires
            pos <= s@.len(),
        ensures
            agrees(r, spec_non_modal(s@, pos as int)),
    {
        let n = s.len();
        match recognise_word('G', 4, s, pos) {
            Ok((p, _)) => {
                proof {
                    lemma_blank_end(s@, pos as int + 1);
                    lemma_digit_end(s@, blank_end(s@, pos as int + 1));
                }
                let q = skip_blanks(s, p);
                match literal('P', s, q) {
                    Ok((e, d)) => Ok((e, NonModal::Dwell { duration: d })),
                    Err(e) => Err(e),
                }
            },
            Err(e) => Err(e),
        }
    }
}

impl Word {
    /// See [`spec_word`].
    pub fn parse(s: &[char], pos: usize) -> (r: PResult<Word>)
        requires
            pos <= s@.len(),
        ensures
            agrees(r, spec_word(s@, pos as int)),
    {
        match Comment::parse(s, pos) {
            Ok((p, c)) => { return Ok((p, Word::Comment(c))); },
            Err(Fail::Failure(e)) => { return Err(Fail::Failure(e)); },
            _ => {},
        }
        match Motion::parse(s, pos) {
            Ok((p, m)) => { return Ok((p, Word::Motion(m))); },
            Err(Fail::Failure(e)) => { return Err(Fail::Failure(e)); },
            _ => {},
        }
        match NonModal::parse(s, pos) {
            Ok((p, n)) => Ok((p, Word::NonModal(n))),
            Err(e) => Err(e),
        }
    }

    /// A word at `pos`, whose location is `at`, with its locations; see [`spec_word_spanned`].
    pub fn parse_spanned_at(s: &[char], pos: usize, at: Location) -> (r: PResult<Spanned<Word>>)
        requires
            pos <= s@.len(),
            fits(s@),
            at == location_at(s@, pos as int),
        ensures
            agrees(r, spec_word_spanned(s@, pos as int)),
            r matches Ok((p, _)) ==> pos < p <= s@.len(),
    {
        let n = s.len();
        proof {
            lemma_word(s@, pos as int);
        }
        match Word::parse(s, pos) {
            Ok((p, w)) => {
                let end = advance(s, pos, at, p);
                Ok((p, Spanned { start: at, end, item: w }))
            },
            Err(e) => Err(e),
        }
    }

    /// A word with the locations where it starts and ends; see [`spec_word_spanned`].
    pub fn parse_spanned(s: &[char], pos: usize) -> (r: PResult<Spanned<Word>>)
        requires
            pos <= s@.len(),
            fits(s@),
        ensures
            agrees(r, spec_word_spanned(s@, pos as int)),
    {
        let at = location_of(s, pos);
        Word::parse_spanned_at(s, pos, at)
    }
}

} // verus!
