//! Comments: `( ... )` and `; ...` to the end of the line.
use crate::error::{agrees, err, or_else, ErrorKind, Fail, PResult, ParseError, SResult};
use crate::number::string_of;
use crate::text::{find, find_char, find_eol, find_line_end, lemma_find_char, lemma_find_eol, trim_bounds, trimmed};
use vstd::prelude::*;

verus! {

#[derive(Debug, PartialEq, Eq, Copy, Clone)]
pub enum CommentType {
    /// A comment beginning with a `;` semicolon character, ending at a newline
    LineEnd,
    /// A comment delimited by parentheses
    Parens,
}

impl View for CommentType {
    type V = CommentType;

    open spec fn view(&self) -> CommentType {
        *self
    }
}

#[derive(Debug, PartialEq, Clone)]
pub struct Comment {
    pub text: String,
    pub comment_type: CommentType,
}

/// The text and kind of a comment.
pub struct CommentView {
    pub text: Seq<char>,
    pub comment_type: CommentType,
}

impl View for Comment {
    type V = CommentView;

    open spec fn view(&self) -> CommentView {
        CommentView { text: self.text@, comment_type: self.comment_type }
    }
}

impl Comment {
    pub fn new(text: &str, comment_type: CommentType) -> (r: Self)
        ensures
            r@ == (CommentView { text: text@, comment_type }),
    {
        Self { text: text.to_owned(), comment_type }
    }

    /// A copy of the comment.
    pub fn duplicate(&self) -> (r: Self)
        ensures
            r@ == self@,
    {
        Self { text: self.text.clone(), comment_type: self.comment_type }
    }
}

/// `(`, one or more `char`s other than `)`, `)`: the text between, trimmed.
pub open spec fn spec_parens_comment(s: Seq<char>, pos: int) -> SResult<CommentView> {
    if pos < s.len() && s[pos] == '(' {
        let e = find_char(s, pos + 1, ')');
        if e == pos + 1 {
            err(pos + 1, ErrorKind::IsNot)
        } else if e >= s.len() {
            err(e, ErrorKind::Char)
        } else {
            Ok((e + 1, CommentView { text: trimmed(s, pos + 1, e), comment_type: CommentType::Parens }))
        }
    } else {
        err(pos, ErrorKind::Char)
    }
}

/// `;` and the rest of the line (up to `"\n"` or `"\r\n"`, which stay), trimmed. A `'\r'` that is
/// not followed by `'\n'` is a `Tag` error just after the `;`.
pub open spec fn spec_line_comment(s: Seq<char>, pos: int) -> SResult<CommentView> {
    if pos < s.len() && s[pos] == ';' {
        let e = find_eol(s, pos + 1);
        if e < s.len() && s[e] == '\r' && !(e + 1 < s.len() && s[e + 1] == '\n') {
            err(pos + 1, ErrorKind::Tag)
        } else {
            Ok((e, CommentView { text: trimmed(s, pos + 1, e), comment_type: CommentType::LineEnd }))
        }
    } else {
        err(pos, ErrorKind::Char)
    }
}

/// A parenthesised comment, or else a line comment.
pub open spec fn spec_comment(s: Seq<char>, pos: int) -> SResult<CommentView> {
    or_else(spec_parens_comment(s, pos), spec_line_comment(s, pos))
}

/// A comment consumes at least one `char` and never fails for good.
pub proof fn lemma_comment(s: Seq<char>, pos: int)
    requires
        0 <= pos <= s.len(),
    ensures
        spec_comment(s, pos) matches Ok((p, _)) ==> pos < p <= s.len(),
        !(spec_comment(s, pos) is Err && spec_comment(s, pos)->Err_0 is Failure),
{
    if pos < s.len() {
        lemma_find_char(s, pos + 1, ')');
        lemma_find_eol(s, pos + 1);
    }
}

fn parens_comment(s: &[char], pos: usize) -> (r: PResult<Comment>)
    requires
        pos <= s@.len(),
    ensures
        agrees(r, spec_parens_comment(s@, pos as int)),
{
    if pos < s.len() && s[pos] == '(' {
        let e = find(s, pos + 1, ')');
        if e == pos + 1 {
            Err(Fail::Error(ParseError { position: pos + 1, kind: ErrorKind::IsNot }))
        } else if e >= s.len() {
            Err(Fail::Error(ParseError { position: e, kind: ErrorKind::Char }))
        } else {
            let (a, b) = trim_bounds(s, pos + 1, e);
            Ok((e + 1, Comment { text: string_of(s, a, b), comment_type: CommentType::Parens }))
        }
    } else {
        Err(Fail::Error(ParseError { position: pos, kind: ErrorKind::Char }))
    }
}

fn line_comment(s: &[char], pos: usize) -> (r: PResult<Comment>)
    requires
        pos <= s@.len(),
    ensures
        agrees(r, spec_line_comment(s@, pos as int)),
{
    if pos < s.len() && s[pos] == ';' {
        let e = find_line_end(s, pos + 1);
        if e < s.len() && s[e] == '\r' && !(e + 1 < s.len() && s[e + 1] == '\n') {
            Err(Fail::Error(ParseError { position: pos + 1, kind: ErrorKind::Tag }))
        } else {
            let (a, b) = trim_bounds(s, pos + 1, e);
            Ok((e, Comment { text: string_of(s, a, b), comment_type: CommentType::LineEnd }))
        }
    } else {
        Err(Fail::Error(ParseError { position: pos, kind: ErrorKind::Char }))
    }
}

/// A comment at `pos`; see [`spec_comment`].
pub fn comment(s: &[char], pos: usize) -> (r: PResult<Comment>)
    requires
        pos <= s@.len(),
    ensures
        agrees(r, spec_comment(s@, pos as int)),
{
    match parens_comment(s, pos) {
        Err(Fail::Error(_)) => line_comment(s, pos),
        r => r,
    }
}

} // verus!
