//! Expressions in square brackets: numbers, operators, parameters and nested expressions.
use crate::clean_slate::const_generics_test::{float, spec_float};
use crate::error::{err, map_value, or_else, ErrorKind, Fail, PResult, ParseError, SResult};
use crate::number::{parse_unsigned, parse_unsigned_exec, string_of, Number};
use crate::text::{blank_end, digit, digit_end, find, find_char, is_digit, lemma_blank_end, lemma_digit_end, lemma_find_char, skip_blanks, skip_digits};
use vstd::prelude::*;

verus! {

#[derive(Debug, PartialEq, Eq, Clone, Copy)]
pub enum TokenErrorKind {
    OpeningParen,
    ClosingParen,
    Other,
}

/// Why an expression could not be read: the parse failure that stopped it, and a kind.
#[derive(Debug, PartialEq, Eq, Clone, Copy)]
pub struct TokenError {
    pub context: Option<Fail>,
    pub kind: TokenErrorKind,
}

#[derive(Debug, PartialEq, Eq, Copy, Clone)]
pub enum Operator {
    Add,
    Subtract,
    Multiply,
    Divide,
}

/// Parameter.
///
/// Nested parameteres (e.g. `##2`) are not supported.
#[derive(Debug, PartialEq, Eq, Clone)]
pub enum Parameter {
    /// LinuxCNC-specific: params local to a function.
    Local(String),
    /// Global parameters
    Global(String),
    /// Numbered parameters
    Numbered(u16),
}

pub enum ParameterView {
    Local(Seq<char>),
    Global(Seq<char>),
    Numbered(u16),
}

impl View for Parameter {
    type V = ParameterView;

    open spec fn view(&self) -> ParameterView {
        match self {
            Parameter::Local(n) => ParameterView::Local(n@),
            Parameter::Global(n) => ParameterView::Global(n@),
            Parameter::Numbered(i) => ParameterView::Numbered(*i),
        }
    }
}

#[derive(Debug, PartialEq)]
pub enum Token {
    /// A number, as written.
    Value(Number),
    Parameter(Parameter),
    Operator(Operator),
    Expression(Expression),
}

/// The tokens of an expression, in order.
#[derive(Debug, PartialEq)]
pub struct Expression {
    pub tokens: Vec<Token>,
}

pub enum TokenView {
    Value(Seq<char>),
    Parameter(ParameterView),
    Operator(Operator),
    Expression(Seq<TokenView>),
}

/// The view of a token.
pub open spec fn token_view(t: Token) -> TokenView
    decreases t,
{
    match t {
        Token::Value(n) => TokenView::Value(n@),
        Token::Parameter(p) => TokenView::Parameter(p@),
        Token::Operator(o) => TokenView::Operator(o),
        Token::Expression(e) => TokenView::Expression(tokens_view(e.tokens@)),
    }
}

/// The views of a sequence of tokens.
pub open spec fn tokens_view(ts: Seq<Token>) -> Seq<TokenView>
    decreases ts,
{
    if ts.len() == 0 {
        seq![]
    } else {
        tokens_view(ts.subrange(0, ts.len() - 1)).push(token_view(ts[ts.len() - 1]))
    }
}

impl View for Token {
    type V = TokenView;

    open spec fn view(&self) -> TokenView {
        token_view(*self)
    }
}

impl View for Expression {
    type V = Seq<TokenView>;

    open spec fn view(&self) -> Seq<TokenView> {
        tokens_view(self.tokens@)
    }
}

proof fn lemma_tokens_view_push(ts: Seq<Token>, t: Token)
    ensures
        tokens_view(ts.push(t)) == tokens_view(ts).push(token_view(t)),
{
    assert(ts.push(t).subrange(0, ts.len() as int) == ts);
}

/// `+`, `-`, `/` or `*`; anything else is a `OneOf` error at `pos`.
pub open spec fn spec_operator(s: Seq<char>, pos: int) -> SResult<Operator> {
    if !(0 <= pos < s.len()) {
        err(pos, ErrorKind::OneOf)
    } else if s[pos] == '+' {
        Ok((pos + 1, Operator::Add))
    } else if s[pos] == '-' {
        Ok((pos + 1, Operator::Subtract))
    } else if s[pos] == '/' {
        Ok((pos + 1, Operator::Divide))
    } else if s[pos] == '*' {
        Ok((pos + 1, Operator::Multiply))
    } else {
        err(pos, ErrorKind::OneOf)
    }
}

/// `#`, blanks, then the first of: digits whose value fits a `u16` (a numbered parameter); `<`,
/// a name, `>` (a local parameter); `<_`, a name, `>` (a global one, which the local one always
/// reads first). A name is everything up to the first `>`. Without `#` the error is `Char` at
/// `pos`; otherwise, where none of the three reads, the error is that of the last: `TakeUntil`
/// after a `<_` with no `>` after it, else `Tag` where the `<_` was looked for.
pub open spec fn spec_parameter(s: Seq<char>, pos: int) -> SResult<ParameterView> {
    let q = blank_end(s, pos + 1);
    if !(0 <= pos < s.len() && s[pos] == '#') {
        err(pos, ErrorKind::Char)
    } else if q < s.len() && is_digit(s[q]) && parse_unsigned(s.subrange(q, digit_end(s, q)), 65535) is Some {
        Ok((digit_end(s, q), ParameterView::Numbered(parse_unsigned(s.subrange(q, digit_end(s, q)), 65535)->0 as u16)))
    } else if q < s.len() && s[q] == '<' && find_char(s, q + 1, '>') < s.len() {
        let e = find_char(s, q + 1, '>');
        Ok((e + 1, ParameterView::Local(s.subrange(q + 1, e))))
    } else if q + 1 < s.len() && s[q] == '<' && s[q + 1] == '_' {
        err(q + 2, ErrorKind::TakeUntil)
    } else {
        err(q, ErrorKind::Tag)
    }
}

/// A token: the first of a number, an operator, a parameter and a nested expression.
pub open spec fn spec_token(s: Seq<char>, pos: int) -> SResult<TokenView>
    decreases s.len(), 2int, 0int,
{
    or_else(map_value(spec_float(s, pos), |t: Seq<char>| TokenView::Value(t)),
    or_else(map_value(spec_operator(s, pos), |o: Operator| TokenView::Operator(o)),
    or_else(map_value(spec_parameter(s, pos), |p: ParameterView| TokenView::Parameter(p)),
        map_value(spec_expression(s, pos), |ts: Seq<TokenView>| TokenView::Expression(ts)))))
}

/// Tokens of `t` from `k` on, each followed by blanks, after the tokens `acc`; they stop before
/// the first token that fails with a recoverable error, and a failure ends them.
pub open spec fn spec_tokens(t: Seq<char>, k: int, acc: Seq<TokenView>) -> SResult<Seq<TokenView>>
    decreases t.len() + 1, 0int, t.len() - k,
{
    if k < 0 || k > t.len() {
        Ok((k, acc))
    } else {
        match spec_token(t, k) {
            Ok((p, v)) => {
                let k2 = blank_end(t, p);
                if k2 <= k || k2 > t.len() {
                    Ok((k, acc.push(v)))
                } else {
                    spec_tokens(t, k2, acc.push(v))
                }
            },
            Err(Fail::Error(_)) => Ok((k, acc)),
            Err(Fail::Failure(e)) => Err(Fail::Failure(e)),
        }
    }
}

/// `[`, blanks, the text up to the first `]`, `]`: the tokens read from that text on its own.
/// Without `[` the error is `Char` at `pos`; without `]` it is `TakeUntil` after the blanks. A
/// failure while reading the tokens ends the expression (its position is within that text).
pub open spec fn spec_expression(s: Seq<char>, pos: int) -> SResult<Seq<TokenView>>
    decreases s.len(), 1int, 0int,
{
    if !(0 <= pos < s.len() && s[pos] == '[') {
        err(pos, ErrorKind::Char)
    } else {
        let q = blank_end(s, pos + 1);
        let e = find_char(s, q, ']');
        if e >= s.len() {
            err(q, ErrorKind::TakeUntil)
        } else {
            proof {
                lemma_blank_end(s, pos + 1);
                lemma_find_char(s, q, ']');
            }
            match spec_tokens(s.subrange(q, e), 0, seq![]) {
                Ok((_, ts)) => Ok((e + 1, ts)),
                Err(x) => Err(x),
            }
        }
    }
}

/// The `char`s of `s` from `a` up to `b`.
fn copy_chars(s: &[char], a: usize, b: usize) -> (r: Vec<char>)
    requires
        a <= b <= s@.len(),
    ensures
        r@ == s@.subrange(a as int, b as int),
{
    let mut r: Vec<char> = Vec::new();
    let mut i = a;
    while i < b
        invariant
            a <= i <= b <= s@.len(),
            r@ == s@.subrange(a as int, i as int),
        decreases b - i,
    {
        r.push(s[i]);
        i = i + 1;
    }
    r
}

/// A token consumes at least one `char` and stays inside the input.
pub proof fn lemma_token(s: Seq<char>, pos: int)
    requires
        0 <= pos <= s.len(),
        s.len() <= usize::MAX,
    ensures
        spec_token(s, pos) matches Ok((p, _)) ==> pos < p <= s.len(),
{
    if pos < s.len() {
        lemma_blank_end(s, pos + 1);
        let q = blank_end(s, pos + 1);
        lemma_digit_end(s, q);
        if q < s.len() {
            lemma_find_char(s, q + 1, '>');
        }
        lemma_find_char(s, q, ']');
        crate::number::lemma_recognize_float(s, pos);
    }
}

impl Operator {
    /// See [`spec_operator`].
    pub fn parse(s: &[char], pos: usize) -> (r: PResult<Operator>)
        requires
            pos <= s@.len(),
        ensures
            match (r, spec_operator(s@, pos as int)) {
                (Ok((p, o)), Ok((q, v))) => p == q && o == v,
                (Err(e), Err(f)) => e == f,
                _ => false,
            },
    {
        if pos >= s.len() {
            return Err(Fail::Error(ParseError { position: pos, kind: ErrorKind::OneOf }));
        }
        let c = s[pos];
        if c == '+' {
            Ok((pos + 1, Operator::Add))
        } else if c == '-' {
            Ok((pos + 1, Operator::Subtract))
        } else if c == '/' {
            Ok((pos + 1, Operator::Divide))
        } else if c == '*' {
            Ok((pos + 1, Operator::Multiply))
        } else {
            Err(Fail::Error(ParseError { position: pos, kind: ErrorKind::OneOf }))
        }
    }
}

impl Parameter {
    /// See [`spec_parameter`].
    pub fn parse(s: &[char], pos: usize) -> (r: PResult<Parameter>)
        requires
            pos <= s@.len(),
        ensures
            match (r, spec_parameter(s@, pos as int)) {
                (Ok((p, v)), Ok((q, w))) => p == q && v@ == w,
                (Err(e), Err(f)) => e == f,
                _ => false,
            },
    {
        if !(pos < s.len() && s[pos] == '#') {
            return Err(Fail::Error(ParseError { position: pos, kind: ErrorKind::Char }));
        }
        proof {
            lemma_blank_end(s@, pos as int + 1);
        }
        let q = skip_blanks(s, pos + 1);
        if q < s.len() && digit(s[q]) {
            let d = skip_digits(s, q);
            if let Some(v) = parse_unsigned_exec(s, q, d, 65535) {
                return Ok((d, Parameter::Numbered(v as u16)));
            }
        }
        if q < s.len() && s[q] == '<' {
            let e = find(s, q + 1, '>');
            if e < s.len() {
                return Ok((e + 1, Parameter::Local(string_of(s, q + 1, e))));
            }
        }
        if q < s.len() && q + 1 < s.len() && s[q] == '<' && s[q + 1] == '_' {
            Err(Fail::Error(ParseError { position: q + 2, kind: ErrorKind::TakeUntil }))
        } else {
            Err(Fail::Error(ParseError { position: q, kind: ErrorKind::Tag }))
        }
    }
}

impl Token {
    /// See [`spec_token`].
    pub fn parse(s: &[char], pos: usize) -> (r: PResult<Token>)
        requires
            pos <= s@.len(),
        ensures
            match (r, spec_token(s@, pos as int)) {
                (Ok((p, t)), Ok((q, v))) => p == q && t@ == v,
                (Err(e), Err(f)) => e == f,
                _ => false,
            },
        decreases s@.len(), 2int, 0int,
    {
        match float(s, pos) {
            Ok((p, n)) => { return Ok((p, Token::Value(n))); },
            Err(Fail::Failure(e)) => { return Err(Fail::Failure(e)); },
            _ => {},
        }
        match Operator::parse(s, pos) {
            Ok((p, o)) => { return Ok((p, Token::Operator(o))); },
            _ => {},
        }
        match Parameter::parse(s, pos) {
            Ok((p, v)) => { return Ok((p, Token::Parameter(v))); },
            _ => {},
        }
        match Expression::parse_at(s, pos) {
            Ok((p, e)) => Ok((p, Token::Expression(e))),
            Err(e) => Err(e),
        }
    }
}

impl Expression {
    /// See [`spec_expression`].
    #[verifier::loop_isolation(false)]
    pub fn parse_at(s: &[char], pos: usize) -> (r: PResult<Expression>)
        requires
            pos <= s@.len(),
        ensures
            match (r, spec_expression(s@, pos as int)) {
                (Ok((p, x)), Ok((q, v))) => p == q && x@ == v,
                (Err(e), Err(f)) => e == f,
                _ => false,
            },
        decreases s@.len(), 1int, 0int,
    {
        if !(pos < s.len() && s[pos] == '[') {
            return Err(Fail::Error(ParseError { position: pos, kind: ErrorKind::Char }));
        }
        proof {
            lemma_blank_end(s@, pos as int + 1);
        }
        let q = skip_blanks(s, pos + 1);
        let e = find(s, q, ']');
        if e >= s.len() {
            return Err(Fail::Error(ParseError { position: q, kind: ErrorKind::TakeUntil }));
        }
        let inner = copy_chars(s, q, e);
        let m = inner.len();
        let mut k: usize = 0;
        let mut tokens: Vec<Token> = Vec::new();
        let ghost goal = spec_tokens(inner@, 0, seq![]);
        assert(tokens_view(tokens@) =~= seq![]);
        loop
            invariant
                k <= inner@.len(),
                inner@.len() == m,
                m < s@.len(),
                inner@ == s@.subrange(q as int, e as int),
                spec_tokens(inner@, k as int, tokens_view(tokens@)) == goal,
            decreases inner@.len() - k,
        {
            proof {
                lemma_token(inner@, k as int);
            }
            match Token::parse(inner.as_slice(), k) {
                Ok((p, t)) => {
                    proof {
                        lemma_blank_end(inner@, p as int);
                        lemma_tokens_view_push(tokens@, t);
                    }
                    tokens.push(t);
                    k = skip_blanks(inner.as_slice(), p);
                },
                Err(Fail::Error(_)) => {
                    break;
                },
                Err(Fail::Failure(f)) => {
                    return Err(Fail::Failure(f));
                },
            }
        }
        Ok((e + 1, Expression { tokens }))
    }

    /// An expression at `pos` (see [`spec_expression`]); an expression that cannot be read is
    /// reported with the parse failure that stopped it.
    pub fn parse(s: &[char], pos: usize) -> (r: Result<(usize, Expression), TokenError>)
        requires
            pos <= s@.len(),
        ensures
            match (r, spec_expression(s@, pos as int)) {
                (Ok((p, x)), Ok((q, v))) => p == q && x@ == v,
                (Err(e), Err(f)) => e.context == Some(f) && e.kind == TokenErrorKind::Other,
                _ => false,
            },
    {
        match Expression::parse_at(s, pos) {
            Ok((p, x)) => Ok((p, x)),
            Err(f) => Err(TokenError { context: Some(f), kind: TokenErrorKind::Other }),
        }
    }
}

/// The operators are the `char`s `+` (add), `-` (subtract), `*` (multiply) and `/` (divide),
/// each read alone; anything else, or the end of the input, is no operator.
pub proof fn law_operator_chars(s: Seq<char>, pos: int)
    requires
        0 <= pos <= s.len(),
    ensures
        pos < s.len() && s[pos] == '+' ==> spec_operator(s, pos) == Ok::<(int, Operator), Fail>((pos + 1, Operator::Add)),
        pos < s.len() && s[pos] == '-' ==> spec_operator(s, pos) == Ok::<(int, Operator), Fail>((pos + 1, Operator::Subtract)),
        pos < s.len() && s[pos] == '*' ==> spec_operator(s, pos) == Ok::<(int, Operator), Fail>((pos + 1, Operator::Multiply)),
        pos < s.len() && s[pos] == '/' ==> spec_operator(s, pos) == Ok::<(int, Operator), Fail>((pos + 1, Operator::Divide)),
        !(pos < s.len() && (s[pos] == '+' || s[pos] == '-' || s[pos] == '*' || s[pos] == '/')) ==> spec_operator(s, pos) is Err,
{
}

} // verus!
