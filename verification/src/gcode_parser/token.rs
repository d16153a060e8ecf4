//! Tokens: the parts of a block, each with its start and end location.
use crate::error::{agrees, err, map_value, or_else, ErrorKind, Fail, PResult, ParseError, SResult};
use crate::gcode_parser::comment::{comment, lemma_comment, spec_comment, Comment, CommentView};
use crate::gcode_parser::coord::{coord, spec_coord, Coord};
use crate::gcode_parser::cutter_compensation::{cutter_compensation, spec_cutter_compensation, CutterCompensation};
use crate::gcode_parser::distance_mode::{distance_mode, spec_distance_mode, DistanceMode};
use crate::gcode_parser::motion::{motion, spec_motion, Motion};
use crate::gcode_parser::plane_select::{plane_select, spec_plane_select, PlaneSelect};
use crate::gcode_parser::spindle::{spec_spindle, spindle, Spindle};
use crate::gcode_parser::stopping::{spec_stopping, stopping, Stopping};
use crate::gcode_parser::tool_change::{spec_tool_change, tool_change, ToolChange};
use crate::gcode_parser::word::{spec_word, word, Word};
use crate::location::{advance, fits, location_at, Location};
use crate::number::{text_below_zero, text_negative, Number};
use vstd::prelude::*;

verus! {

#[derive(Debug, PartialEq, Clone)]
pub struct Token {
    pub start_pos: Location,
    pub end_pos: Location,
    pub token: TokenType,
}

#[derive(Debug, PartialEq, Clone)]
pub enum TokenType {
    /// Block delete `/` character
    BlockDelete,
    /// Line number
    LineNumber(u32),
    /// Tool number
    Tool(u16),
    /// Feed rate
    FeedRate(Number),
    /// Group 1
    Motion(Motion),
    /// Coordinate
    Coord(Coord),
    /// Plane select
    PlaneSelect(PlaneSelect),
    /// Units
    Units(crate::gcode_parser::units::Units),
    /// Spindle
    Spindle(Spindle),
    /// Spindle speed (RPM)
    SpindleSpeed(Number),
    /// Stopping
    Stopping(Stopping),
    /// Distance mode
    DistanceMode(DistanceMode),
    /// Comment
    Comment(Comment),
    /// Cutter radius compensation
    CutterCompensation(CutterCompensation),
    /// Tool change
    ToolChange(ToolChange),
}

pub enum TokenTypeView {
    BlockDelete,
    LineNumber(u32),
    Tool(u16),
    FeedRate(Seq<char>),
    Motion(Motion),
    Coord(Seq<Option<Seq<char>>>),
    PlaneSelect(PlaneSelect),
    Units(crate::gcode_parser::units::Units),
    Spindle(Spindle),
    SpindleSpeed(Seq<char>),
    Stopping(Stopping),
    DistanceMode(DistanceMode),
    Comment(CommentView),
    CutterCompensation(CutterCompensation),
    ToolChange(ToolChange),
}

impl View for TokenType {
    type V = TokenTypeView;

    open spec fn view(&self) -> TokenTypeView {
        match self {
            TokenType::BlockDelete => TokenTypeView::BlockDelete,
            TokenType::LineNumber(n) => TokenTypeView::LineNumber(*n),
            TokenType::Tool(n) => TokenTypeView::Tool(*n),
            TokenType::FeedRate(n) => TokenTypeView::FeedRate(n@),
            TokenType::Motion(m) => TokenTypeView::Motion(*m),
            TokenType::Coord(c) => TokenTypeView::Coord(c@),
            TokenType::PlaneSelect(p) => TokenTypeView::PlaneSelect(*p),
            TokenType::Units(u) => TokenTypeView::Units(*u),
            TokenType::Spindle(v) => TokenTypeView::Spindle(*v),
            TokenType::SpindleSpeed(n) => TokenTypeView::SpindleSpeed(n@),
            TokenType::Stopping(v) => TokenTypeView::Stopping(*v),
            TokenType::DistanceMode(v) => TokenTypeView::DistanceMode(*v),
            TokenType::Comment(c) => TokenTypeView::Comment(c@),
            TokenType::CutterCompensation(v) => TokenTypeView::CutterCompensation(*v),
            TokenType::ToolChange(v) => TokenTypeView::ToolChange(*v),
        }
    }
}

pub struct TokenView {
    pub start_pos: Location,
    pub end_pos: Location,
    pub token: TokenTypeView,
}

impl View for Token {
    type V = TokenView;

    open spec fn view(&self) -> TokenView {
        TokenView { start_pos: self.start_pos, end_pos: self.end_pos, token: self.token@ }
    }
}

impl TokenType {
    /// A copy of the token type.
    pub fn duplicate(&self) -> (r: Self)
        ensures
            r@ == self@,
    {
        match self {
            TokenType::BlockDelete => TokenType::BlockDelete,
            TokenType::LineNumber(n) => TokenType::LineNumber(*n),
            TokenType::Tool(n) => TokenType::Tool(*n),
            TokenType::FeedRate(n) => TokenType::FeedRate(n.duplicate()),
            TokenType::Motion(m) => TokenType::Motion(*m),
            TokenType::Coord(c) => TokenType::Coord(c.duplicate()),
            TokenType::PlaneSelect(p) => TokenType::PlaneSelect(*p),
            TokenType::Units(u) => TokenType::Units(*u),
            TokenType::Spindle(v) => TokenType::Spindle(*v),
            TokenType::SpindleSpeed(n) => TokenType::SpindleSpeed(n.duplicate()),
            TokenType::Stopping(v) => TokenType::Stopping(*v),
            TokenType::DistanceMode(v) => TokenType::DistanceMode(*v),
            TokenType::Comment(c) => TokenType::Comment(c.duplicate()),
            TokenType::CutterCompensation(v) => TokenType::CutterCompensation(*v),
            TokenType::ToolChange(v) => TokenType::ToolChange(*v),
        }
    }
}

impl Token {
    /// A copy of the token.
    pub fn duplicate(&self) -> (r: Self)
        ensures
            r@ == self@,
    {
        Token { start_pos: self.start_pos, end_pos: self.end_pos, token: self.token.duplicate() }
    }
}

/// A `T` word with an integer value: the tool number.
pub open spec fn spec_tool(s: Seq<char>, pos: int) -> SResult<TokenTypeView> {
    map_value(spec_word::<u16>(s, pos, 'T'), |w: Word<u16>| TokenTypeView::Tool(w.value))
}

/// An `S` word whose value is not below zero; a value below zero is a `Verify` error at `pos`.
pub open spec fn spec_spindle_speed(s: Seq<char>, pos: int) -> SResult<TokenTypeView> {
    match spec_word::<Number>(s, pos, 'S') {
        Ok((p, w)) => if text_below_zero(w.value) {
            err(pos, ErrorKind::Verify)
        } else {
            Ok((p, TokenTypeView::SpindleSpeed(w.value)))
        },
        Err(e) => Err(e),
    }
}

/// An `F` word whose number has no minus sign; one with a minus sign is a `Verify` error at `pos`.
pub open spec fn spec_feed_rate(s: Seq<char>, pos: int) -> SResult<TokenTypeView> {
    match spec_word::<Number>(s, pos, 'F') {
        Ok((p, w)) => if text_negative(w.value) {
            err(pos, ErrorKind::Verify)
        } else {
            Ok((p, TokenTypeView::FeedRate(w.value)))
        },
        Err(e) => Err(e),
    }
}

/// The kind of token at `pos`: the first of these that parses, in this order: coordinate,
/// motion, plane select, units, spindle, stopping, distance mode, cutter compensation, tool
/// change, comment, tool number, spindle speed, feed rate. A failure ends the search; when all
/// fail, the error is that of the last.
pub open spec fn spec_token_type(s: Seq<char>, pos: int) -> SResult<TokenTypeView> {
    or_else(map_value(spec_coord(s, pos), |c: Seq<Option<Seq<char>>>| TokenTypeView::Coord(c)),
    or_else(map_value(spec_motion(s, pos), |m: Motion| TokenTypeView::Motion(m)),
    or_else(map_value(spec_plane_select(s, pos), |p: PlaneSelect| TokenTypeView::PlaneSelect(p)),
    or_else(map_value(crate::gcode_parser::units::spec_units(s, pos), |u: crate::gcode_parser::units::Units| TokenTypeView::Units(u)),
    or_else(map_value(spec_spindle(s, pos), |v: Spindle| TokenTypeView::Spindle(v)),
    or_else(map_value(spec_stopping(s, pos), |v: Stopping| TokenTypeView::Stopping(v)),
    or_else(map_value(spec_distance_mode(s, pos), |v: DistanceMode| TokenTypeView::DistanceMode(v)),
    or_else(map_value(spec_cutter_compensation(s, pos), |v: CutterCompensation| TokenTypeView::CutterCompensation(v)),
    or_else(map_value(spec_tool_change(s, pos), |v: ToolChange| TokenTypeView::ToolChange(v)),
    or_else(map_value(spec_comment(s, pos), |c: CommentView| TokenTypeView::Comment(c)),
    or_else(spec_tool(s, pos),
    or_else(spec_spindle_speed(s, pos), spec_feed_rate(s, pos)))))))))))))
}

/// A token at `pos`: its kind, with the locations where it starts and ends.
pub open spec fn spec_token(s: Seq<char>, pos: int) -> SResult<TokenView> {
    match spec_token_type(s, pos) {
        Ok((p, t)) => Ok((p, TokenView { start_pos: location_at(s, pos), end_pos: location_at(s, p), token: t })),
        Err(e) => Err(e),
    }
}


fn tool_number(s: &[char], pos: usize) -> (r: PResult<TokenType>)
    requires
        pos <= s@.len(),
    ensures
        agrees(r, spec_tool(s@, pos as int)),
{
    match word::<u16>(s, pos, 'T') {
        Ok((p, w)) => Ok((p, TokenType::Tool(w.value))),
        Err(e) => Err(e),
    }
}

fn spindle_speed(s: &[char], pos: usize) -> (r: PResult<TokenType>)
    requires
        pos <= s@.len(),
    ensures
        agrees(r, spec_spindle_speed(s@, pos as int)),
{
    match word::<Number>(s, pos, 'S') {
        Ok((p, w)) => if w.value.is_below_zero() {
            Err(Fail::Error(ParseError { position: pos, kind: ErrorKind::Verify }))
        } else {
            Ok((p, TokenType::SpindleSpeed(w.value)))
        },
        Err(e) => Err(e),
    }
}

fn feed_rate(s: &[char], pos: usize) -> (r: PResult<TokenType>)
    requires
        pos <= s@.len(),
    ensures
        agrees(r, spec_feed_rate(s@, pos as int)),
{
    match word::<Number>(s, pos, 'F') {
        Ok((p, w)) => if w.value.is_negative() {
            Err(Fail::Error(ParseError { position: pos, kind: ErrorKind::Verify }))
        } else {
            Ok((p, TokenType::FeedRate(w.value)))
        },
        Err(e) => Err(e),
    }
}

/// The kind of token at `pos`; see [`spec_token_type`].
pub fn token_type(s: &[char], pos: usize) -> (r: PResult<TokenType>)
    requires
        pos <= s@.len(),
    ensures
        agrees(r, spec_token_type(s@, pos as int)),
{
    match coord(s, pos) {
        Ok((p, v)) => { return Ok((p, TokenType::Coord(v))); },
        Err(Fail::Failure(e)) => { return Err(Fail::Failure(e)); },
        _ => {},
    }
    match motion(s, pos) {
        Ok((p, v)) => { return Ok((p, TokenType::Motion(v))); },
        Err(Fail::Failure(e)) => { return Err(Fail::Failure(e)); },
        _ => {},
    }
    match plane_select(s, pos) {
        Ok((p, v)) => { return Ok((p, TokenType::PlaneSelect(v))); },
        Err(Fail::Failure(e)) => { return Err(Fail::Failure(e)); },
        _ => {},
    }
    match crate::gcode_parser::units::units(s, pos) {
        Ok((p, v)) => { return Ok((p, TokenType::Units(v))); },
        Err(Fail::Failure(e)) => { return Err(Fail::Failure(e)); },
        _ => {},
    }
    match spindle(s, pos) {
        Ok((p, v)) => { return Ok((p, TokenType::Spindle(v))); },
        Err(Fail::Failure(e)) => { return Err(Fail::Failure(e)); },
        _ => {},
    }
    match stopping(s, pos) {
        Ok((p, v)) => { return Ok((p, TokenType::Stopping(v))); },
        Err(Fail::Failure(e)) => { return Err(Fail::Failure(e)); },
        _ => {},
    }
    match distance_mode(s, pos) {
        Ok((p, v)) => { return Ok((p, TokenType::DistanceMode(v))); },
        Err(Fail::Failure(e)) => { return Err(Fail::Failure(e)); },
        _ => {},
    }
    match cutter_compensation(s, pos) {
        Ok((p, v)) => { return Ok((p, TokenType::CutterCompensation(v))); },
        Err(Fail::Failure(e)) => { return Err(Fail::Failure(e)); },
        _ => {},
    }
    match tool_change(s, pos) {
        Ok((p, v)) => { return Ok((p, TokenType::ToolChange(v))); },
        Err(Fail::Failure(e)) => { return Err(Fail::Failure(e)); },
        _ => {},
    }
    match comment(s, pos) {
        Ok((p, v)) => { return Ok((p, TokenType::Comment(v))); },
        Err(Fail::Failure(e)) => { return Err(Fail::Failure(e)); },
        _ => {},
    }
    match tool_number(s, pos) {
        Err(Fail::Error(_)) => {},
        r => { return r; },
    }
    match spindle_speed(s, pos) {
        Err(Fail::Error(_)) => {},
        r => { return r; },
    }
    feed_rate(s, pos)
}

/// Wrap the outcome `r` of parsing a token kind at `start` into a token with its locations
/// (`start_loc` is the location of `start`).
pub fn token_parser(s: &[char], start: usize, start_loc: Location, r: PResult<TokenType>) -> (t: PResult<Token>)
    requires
        start <= s@.len(),
        fits(s@),
        start_loc == location_at(s@, start as int),
        r matches Ok((p, _)) ==> start <= p <= s@.len(),
    ensures
        match (t, r) {
            (Ok((p, tok)), Ok((q, k))) => p == q && tok@ == (TokenView { start_pos: start_loc, end_pos: location_at(s@, q as int), token: k@ }),
            (Err(e), Err(f)) => e == f,
            _ => false,
        },
{
    match r {
        Ok((p, k)) => {
            let end_pos = advance(s, start, start_loc, p);
            Ok((p, Token { start_pos: start_loc, end_pos, token: k }))
        },
        Err(e) => Err(e),
    }
}

} // verus!

verus! {

/// A token consumes at least one `char` and stays inside the input.
pub proof fn lemma_token_type(s: Seq<char>, pos: int)
    requires
        0 <= pos <= s.len(),
        s.len() <= usize::MAX,
    ensures
        spec_token_type(s, pos) matches Ok((p, _)) ==> pos < p <= s.len(),
        spec_token_type(s, pos) matches Err(Fail::Failure(e)) ==> e.position <= s.len(),
{
    crate::gcode_parser::coord::lemma_coord_from(s, pos, crate::gcode_parser::coord::empty_coord(), 0);
    crate::gcode_parser::word::lemma_word::<u8>(s, pos, 'G');
    crate::gcode_parser::word::lemma_word::<u8>(s, pos, 'M');
    crate::gcode_parser::word::lemma_word::<String>(s, pos, 'G');
    crate::gcode_parser::word::lemma_word::<DistanceMode>(s, pos, 'G');
    crate::gcode_parser::word::lemma_word::<CutterCompensation>(s, pos, 'G');
    crate::gcode_parser::word::lemma_word::<u16>(s, pos, 'T');
    crate::gcode_parser::word::lemma_word::<Number>(s, pos, 'S');
    crate::gcode_parser::word::lemma_word::<Number>(s, pos, 'F');
    lemma_comment(s, pos);
}

} // verus!

verus! {

/// A token at `pos`; see [`spec_token`].
pub fn token(s: &[char], pos: usize) -> (r: PResult<Token>)
    requires
        pos <= s@.len(),
        fits(s@),
    ensures
        agrees(r, spec_token(s@, pos as int)),
{
    let n = s.len();
    proof {
        lemma_token_type(s@, pos as int);
    }
    let at = crate::location::location_of(s, pos);
    token_parser(s, pos, at, token_type(s, pos))
}

} // verus!
