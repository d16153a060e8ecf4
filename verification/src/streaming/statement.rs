//! Comments as statements: `; comment` and `(comment)`.
use crate::error::{agrees, err, ErrorKind, Fail, PResult, ParseError, SResult};
use crate::number::string_of;
use crate::streaming::parameter::{spec_parameter, Parameter, ParameterView};
use crate::streaming::value::{spec_value, Value, ValueView};
use crate::text::{blank_end, find, find_char, find_eol, find_line_end, lemma_blank_end, skip_blanks, trim_bounds, trimmed};
use vstd::prelude::*;

verus! {

#[derive(Debug, PartialEq, Eq, Clone, Copy)]
pub enum CommentKind {
    /// `; comment`
    Line,
    /// `(comment)`
    Delimited,
}

impl View for CommentKind {
    type V = CommentKind;

    open spec fn view(&self) -> CommentKind {
        *self
    }
}

/// `;` and the rest of the line (up to `'\r'` or `'\n'`, which stay): a line comment. Or else
/// `(`, the text up to the next `)`, `)`: a delimited comment. The text is trimmed. Without `(`
/// or `;` the error is `Char` at `pos`; a `(` with no `)` after it is a `TakeUntil` error just
/// after the `(`.
pub open spec fn spec_comment(s: Seq<char>, pos: int) -> SResult<(Seq<char>, CommentKind)> {
    if 0 <= pos < s.len() && s[pos] == ';' {
        let e = find_eol(s, pos + 1);
        Ok((e, (trimmed(s, pos + 1, e), CommentKind::Line)))
    } else if 0 <= pos < s.len() && s[pos] == '(' {
        let e = find_char(s, pos + 1, ')');
        if e < s.len() {
            Ok((e + 1, (trimmed(s, pos + 1, e), CommentKind::Delimited)))
        } else {
            err(pos + 1, ErrorKind::TakeUntil)
        }
    } else {
        err(pos, ErrorKind::Char)
    }
}

/// A comment and its kind; see [`spec_comment`].
pub fn parse_comment(s: &[char], pos: usize) -> (r: PResult<(String, CommentKind)>)
    requires
        pos <= s@.len(),
    ensures
        agrees(r, spec_comment(s@, pos as int)),
{
    if pos < s.len() && s[pos] == ';' {
        let e = find_line_end(s, pos + 1);
        let (a, b) = trim_bounds(s, pos + 1, e);
        Ok((e, (string_of(s, a, b), CommentKind::Line)))
    } else if pos < s.len() && s[pos] == '(' {
        let e = find(s, pos + 1, ')');
        if e < s.len() {
            let (a, b) = trim_bounds(s, pos + 1, e);
            Ok((e + 1, (string_of(s, a, b), CommentKind::Delimited)))
        } else {
            Err(Fail::Error(ParseError { position: pos + 1, kind: ErrorKind::TakeUntil }))
        }
    } else {
        Err(Fail::Error(ParseError { position: pos, kind: ErrorKind::Char }))
    }
}

/// A parameter, blanks, `=`, blanks, then a value: setting the parameter to the value. Without
/// the `=` the error is `Char` where it was looked for.
pub open spec fn spec_set_param(s: Seq<char>, pos: int) -> SResult<(ParameterView, ValueView)> {
    match spec_parameter(s, pos) {
        Err(e) => Err(e),
        Ok((p, param)) => {
            let q = blank_end(s, p);
            if q < s.len() && s[q] == '=' {
                match spec_value(s, blank_end(s, q + 1)) {
                    Ok((r, v)) => Ok((r, (param, v))),
                    Err(e) => Err(e),
                }
            } else {
                err(q, ErrorKind::Char)
            }
        },
    }
}

/// A parameter and the value it is set to; see [`spec_set_param`].
pub fn parse_set_param(s: &[char], pos: usize) -> (r: PResult<(Parameter, Value)>)
    requires
        pos <= s@.len(),
    ensures
        agrees(r, spec_set_param(s@, pos as int)),
{
    match Parameter::parse(s, pos) {
        Err(e) => Err(e),
        Ok((p, param)) => {
            proof {
                crate::streaming::parameter::lemma_parameter_end(s@, pos as int);
                lemma_blank_end(s@, p as int);
            }
            let q = skip_blanks(s, p);
            if q < s.len() && s[q] == '=' {
                proof {
                    lemma_blank_end(s@, q + 1);
                }
                match Value::parse(s, skip_blanks(s, q + 1)) {
                    Ok((r, v)) => Ok((r, (param, v))),
                    Err(e) => Err(e),
                }
            } else {
                Err(Fail::Error(ParseError { position: q, kind: ErrorKind::Char }))
            }
        },
    }
}

/// A `;` comment ends at the first line break: the position after it is the end of the input or
/// a `'\r'` or `'\n'`, and no line break lies between; its text is what lies between, trimmed.
pub proof fn law_line_comment_stops_at_line_break(s: Seq<char>, pos: int)
    requires
        0 <= pos < s.len(),
        s[pos] == ';',
    ensures
        spec_comment(s, pos) matches Ok((p, (t, kind))) && {
            &&& pos < p <= s.len()
            &&& p < s.len() ==> (s[p] == '\n' || s[p] == '\r')
            &&& forall|j: int| pos <= j < p ==> #[trigger] s[j] != '\n' && s[j] != '\r'
            &&& kind == CommentKind::Line
            &&& t == trimmed(s, pos + 1, p)
        },
{
    crate::text::lemma_find_eol(s, pos + 1);
}

} // verus!
