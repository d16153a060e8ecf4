//! Parameters: `#<_global>`, `#<local>` and `#5520`.
use crate::error::{agrees, err, ErrorKind, Fail, PResult, ParseError, SResult};
use crate::number::{parse_unsigned, parse_unsigned_exec, string_of};
use crate::text::{digit, digit_end, find, find_char, is_digit, skip_digits};
use vstd::prelude::*;

verus! {

#[derive(Debug, PartialEq, Eq, Clone)]
pub enum Parameter {
    /// `#<local>`
    Local(String),
    /// `#<_global>`
    Global(String),
    /// `#5520`
    Index(usize),
}

pub enum ParameterView {
    Local(Seq<char>),
    Global(Seq<char>),
    Index(usize),
}

impl View for Parameter {
    type V = ParameterView;

    open spec fn view(&self) -> ParameterView {
        match self {
            Parameter::Local(n) => ParameterView::Local(n@),
            Parameter::Global(n) => ParameterView::Global(n@),
            Parameter::Index(i) => ParameterView::Index(*i),
        }
    }
}

/// `#`, then the first of: `<_`, a name, `>` (a global); `<`, a name, `>` (a local); digits whose
/// value fits a `usize` (an index). A name is everything up to the first `>`. Without `#` the
/// error is `Char` at `pos`; otherwise, where none of the three reads, the error is that of the
/// index: `Digit` without digits, `MapRes` when the value is too large, both just after `#`.
pub open spec fn spec_parameter(s: Seq<char>, pos: int) -> SResult<ParameterView> {
    let q = pos + 1;
    if !(0 <= pos < s.len() && s[pos] == '#') {
        err(pos, ErrorKind::Char)
    } else if q + 1 < s.len() && s[q] == '<' && s[q + 1] == '_' && find_char(s, q + 2, '>') < s.len() {
        let e = find_char(s, q + 2, '>');
        Ok((e + 1, ParameterView::Global(s.subrange(q + 2, e))))
    } else if q < s.len() && s[q] == '<' && find_char(s, q + 1, '>') < s.len() {
        let e = find_char(s, q + 1, '>');
        Ok((e + 1, ParameterView::Local(s.subrange(q + 1, e))))
    } else if q < s.len() && is_digit(s[q]) {
        let d = digit_end(s, q);
        match parse_unsigned(s.subrange(q, d), usize::MAX as nat) {
            Some(v) => Ok((d, ParameterView::Index(v as usize))),
            None => err(q, ErrorKind::MapRes),
        }
    } else {
        err(q, ErrorKind::Digit)
    }
}

/// A parameter ends inside the input.
pub proof fn lemma_parameter_end(s: Seq<char>, pos: int)
    requires
        0 <= pos <= s.len(),
    ensures
        spec_parameter(s, pos) matches Ok((p, _)) ==> pos < p <= s.len(),
{
    if pos + 1 < s.len() {
        crate::text::lemma_digit_end(s, pos + 1);
        crate::text::lemma_find_char(s, pos + 2, '>');
        if pos + 2 < s.len() {
            crate::text::lemma_find_char(s, pos + 3, '>');
        }
    }
}

impl Parameter {
    /// See [`spec_parameter`].
    pub fn parse(s: &[char], pos: usize) -> (r: PResult<Parameter>)
        requires
            pos <= s@.len(),
        ensures
            agrees(r, spec_parameter(s@, pos as int)),
    {
        if !(pos < s.len() && s[pos] == '#') {
            return Err(Fail::Error(ParseError { position: pos, kind: ErrorKind::Char }));
        }
        let q = pos + 1;
        if q < s.len() && q + 1 < s.len() && s[q] == '<' && s[q + 1] == '_' {
            let e = find(s, q + 2, '>');
            if e < s.len() {
                return Ok((e + 1, Parameter::Global(string_of(s, q + 2, e))));
            }
        }
        if q < s.len() && s[q] == '<' {
            let e = find(s, q + 1, '>');
            if e < s.len() {
                return Ok((e + 1, Parameter::Local(string_of(s, q + 1, e))));
            }
        }
        if q < s.len() && digit(s[q]) {
            let d = skip_digits(s, q);
            match parse_unsigned_exec(s, q, d, usize::MAX as u64) {
                Some(v) => Ok((d, Parameter::Index(v as usize))),
                None => Err(Fail::Error(ParseError { position: q, kind: ErrorKind::MapRes })),
            }
        } else {
            Err(Fail::Error(ParseError { position: q, kind: ErrorKind::Digit }))
        }
    }
}

/// Parameters: `#<_name>` is the global parameter `name` and `#<name>` the local one, where the
/// name is everything up to the first `>`; `#` and digits up to `d` (followed by the end of the
/// input or a non-digit) is the parameter of that index.
pub proof fn law_parameter_forms(s: Seq<char>, pos: int, d: int)
    requires
        0 <= pos,
        pos + 1 < s.len(),
        s[pos] == '#',
    ensures
        pos + 2 < s.len() && s[pos + 1] == '<' && s[pos + 2] == '_' && find_char(s, pos + 3, '>') < s.len()
            ==> spec_parameter(s, pos) == Ok::<(int, ParameterView), Fail>((find_char(s, pos + 3, '>') + 1, ParameterView::Global(s.subrange(pos + 3, find_char(s, pos + 3, '>'))))),
        s[pos + 1] == '<' && !(pos + 2 < s.len() && s[pos + 2] == '_') && find_char(s, pos + 2, '>') < s.len()
            ==> spec_parameter(s, pos) == Ok::<(int, ParameterView), Fail>((find_char(s, pos + 2, '>') + 1, ParameterView::Local(s.subrange(pos + 2, find_char(s, pos + 2, '>'))))),
        pos + 1 < d <= s.len() && (forall|k: int| pos + 1 <= k < d ==> is_digit(#[trigger] s[k])) && (d == s.len() || !is_digit(s[d]))
            && crate::number::digits_value(s.subrange(pos + 1, d)) <= usize::MAX
            ==> spec_parameter(s, pos) == Ok::<(int, ParameterView), Fail>((d, ParameterView::Index(crate::number::digits_value(s.subrange(pos + 1, d)) as usize))),
{
    if pos + 1 < d <= s.len() && (forall|k: int| pos + 1 <= k < d ==> is_digit(#[trigger] s[k])) && (d == s.len() || !is_digit(s[d])) {
        crate::text::lemma_digit_end_at(s, pos + 1, d);
        let t = s.subrange(pos + 1, d);
        assert(crate::number::unsigned_digits(t) == t);
        assert(crate::number::all_digits(t)) by {
            assert forall|i: int| 0 <= i < t.len() implies is_digit(#[trigger] t[i]) by {
                assert(t[i] == s[pos + 1 + i]);
            }
        }
    }
}

} // verus!
