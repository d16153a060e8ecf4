//! Whole programs: blocks separated by line endings.
use crate::error::{Fail, PResult, SResult};
use crate::gcode_parser::block::{block_at, lemma_tokens, spec_block, tokens_view, Block, BlockView};
use crate::gcode_parser::token::{Token, TokenView};
use crate::gcode_parser::word::lemma_word;
use crate::location::{byte_offset, advance, fits, location_at, location_of, Location};
use crate::number::string_of;
use crate::text::{chars, find, find_char, decimal, is_multispace, lemma_blank_end, lemma_multispace_end, line_ending, line_ending_end, multispace_end, push_decimal, skip_multispace};
use vstd::prelude::*;

verus! {

/// The views of a sequence of blocks.
pub open spec fn blocks_view(bs: Seq<Block>) -> Seq<BlockView> {
    bs.map_values(|b: Block| b@)
}

/// A block ends where it starts or later, and never with a recoverable error.
pub proof fn lemma_block(s: Seq<char>, pos: int)
    requires
        0 <= pos <= s.len(),
        s.len() <= usize::MAX,
    ensures
        spec_block(s, pos) matches Ok((p, _)) ==> pos <= p <= s.len(),
        !(spec_block(s, pos) matches Err(Fail::Error(_))),
        spec_block(s, pos) matches Err(Fail::Failure(e)) ==> e.position <= s.len(),
{
    crate::text::lemma_blank_end(s, pos);
    let p0 = crate::text::blank_end(s, pos);
    let has_delete = p0 < s.len() && s[p0] == '/';
    let p1 = if has_delete { p0 + 1 } else { p0 };
    let head: Seq<TokenView> = if has_delete {
        seq![TokenView { start_pos: location_at(s, p0), end_pos: location_at(s, p1), token: crate::gcode_parser::token::TokenTypeView::BlockDelete }]
    } else {
        seq![]
    };
    lemma_blank_end(s, p1);
    let p2 = crate::text::blank_end(s, p1);
    lemma_word::<u32>(s, p2, 'N');
    match crate::gcode_parser::word::spec_word::<u32>(s, p2, 'N') {
        Ok((p3, w)) => {
            lemma_blank_end(s, p3);
            let head2 = head.push(TokenView { start_pos: location_at(s, p2), end_pos: location_at(s, p3), token: crate::gcode_parser::token::TokenTypeView::LineNumber(w.value) });
            lemma_tokens(s, crate::text::blank_end(s, p3), head2);
        },
        Err(Fail::Error(_)) => {
            lemma_blank_end(s, p2);
            lemma_tokens(s, crate::text::blank_end(s, p2), head);
        },
        _ => {},
    }
}

/// The tokens of all the blocks, in order.
pub open spec fn all_tokens(bs: Seq<BlockView>) -> Seq<TokenView>
    decreases bs.len(),
{
    if bs.len() == 0 {
        seq![]
    } else {
        all_tokens(bs.drop_last()) + bs.last().tokens
    }
}

/// Further blocks from `pos` (just after a block), each after a line ending, following the
/// blocks `acc` already read. Without a line ending, or where the block after it fails with a
/// recoverable error, the list ends at `pos`.
pub open spec fn spec_more_blocks(s: Seq<char>, pos: int, acc: Seq<BlockView>) -> SResult<Seq<BlockView>>
    decreases s.len() - pos,
{
    match line_ending_end(s, pos) {
        None => Ok((pos, acc)),
        Some(q) => match spec_block(s, q) {
            Ok((p, b)) => if p < q || p > s.len() || q <= pos {
                Ok((pos, acc))
            } else {
                spec_more_blocks(s, p, acc.push(b))
            },
            Err(Fail::Error(_)) => Ok((pos, acc)),
            Err(Fail::Failure(e)) => Err(Fail::Failure(e)),
        },
    }
}

/// The list ends inside the input, never with a recoverable error, and a failure lies inside
/// the input.
pub proof fn lemma_more_blocks(s: Seq<char>, pos: int, acc: Seq<BlockView>)
    requires
        0 <= pos <= s.len(),
        s.len() <= usize::MAX,
    ensures
        spec_more_blocks(s, pos, acc) matches Ok((p, _)) ==> pos <= p <= s.len(),
        !(spec_more_blocks(s, pos, acc) matches Err(Fail::Error(_))),
        spec_more_blocks(s, pos, acc) matches Err(Fail::Failure(e)) ==> e.position <= s.len(),
    decreases s.len() - pos,
{
    if let Some(q) = line_ending_end(s, pos) {
        lemma_block(s, q);
        if let Ok((p, b)) = spec_block(s, q) {
            if !(p < q || p > s.len() || q <= pos) {
                lemma_more_blocks(s, p, acc.push(b));
            }
        }
    }
}

/// Blocks separated by line endings, from `pos`.
pub open spec fn spec_blocks(s: Seq<char>, pos: int) -> SResult<Seq<BlockView>> {
    match spec_block(s, pos) {
        Ok((p, b)) => spec_more_blocks(s, p, seq![b]),
        Err(Fail::Error(_)) => Ok((pos, seq![])),
        Err(Fail::Failure(e)) => Err(Fail::Failure(e)),
    }
}

/// A program: blanks and line breaks, blocks separated by line endings, blanks and line breaks,
/// and nothing else. Where parsing stops early, the error is the index where it stopped.
pub open spec fn spec_program(s: Seq<char>) -> Result<Seq<BlockView>, int> {
    match spec_blocks(s, multispace_end(s, 0)) {
        Ok((p, bs)) => if multispace_end(s, p) == s.len() {
            Ok(bs)
        } else {
            Err(multispace_end(s, p))
        },
        Err(Fail::Error(e)) => Err(e.position as int),
        Err(Fail::Failure(e)) => Err(e.position as int),
    }
}

/// A program consumes all of its text. Reading blocks never ends in a recoverable error. On
/// success the blocks end where only blanks and line breaks are left. On failure the index is
/// where parsing stopped: the start of the text left over after the blocks and the blanks and
/// line breaks after them (a `char` that is neither), or else where a number failed for good
/// (which may be the end of the input, as in `X1e`).
pub proof fn law_program_consumes_all(s: Seq<char>)
    requires
        s.len() <= usize::MAX,
    ensures
        !(spec_blocks(s, multispace_end(s, 0)) matches Err(Fail::Error(_))),
        spec_program(s) is Ok ==> (spec_blocks(s, multispace_end(s, 0)) matches Ok((p, _)) && {
            &&& multispace_end(s, 0) <= p <= s.len()
            &&& forall|j: int| p <= j < s.len() ==> is_multispace(#[trigger] s[j])
        }),
        spec_program(s) matches Err(i) ==> 0 <= i <= s.len() && match spec_blocks(s, multispace_end(s, 0)) {
            Ok((p, _)) => {
                &&& i == multispace_end(s, p)
                &&& i < s.len()
                &&& !is_multispace(s[i])
                &&& forall|j: int| p <= j < i ==> is_multispace(#[trigger] s[j])
            },
            Err(Fail::Failure(e)) => i == e.position,
            _ => false,
        },
{
    lemma_multispace_end(s, 0);
    let m0 = multispace_end(s, 0);
    lemma_block(s, m0);
    if let Ok((p, b)) = spec_block(s, m0) {
        lemma_more_blocks(s, p, seq![b]);
    }
    if let Ok((p, _)) = spec_blocks(s, m0) {
        lemma_multispace_end(s, p);
    }
}

#[derive(Debug, Clone)]
pub struct GcodeProgram<'a> {
    pub text: &'a str,
    pub blocks: Vec<Block>,
}

/// A program that could not be parsed: where parsing stopped, and the whole input.
#[derive(Debug)]
pub struct ProgramParseError<'a> {
    /// Failure point
    pub failure_point: Location,
    /// Complete file input
    pub input: &'a str,
}

/// The text from `pos` (the start of a line) up to the next `'\n'`; when a `'\n'` ends it, a
/// final `'\r'` is left out.
pub open spec fn line_text(s: Seq<char>, pos: int) -> Seq<char> {
    let e = find_char(s, pos, '\n');
    if e < s.len() && e > pos && s[e - 1] == '\r' {
        s.subrange(pos, e - 1)
    } else {
        s.subrange(pos, e)
    }
}

/// Line `k` (0-based) of the text from `pos` (the start of a line) on, as `str::lines` gives it:
/// lines end at `'\n'` (or `"\r\n"`), and there is no line after a final `'\n'`.
pub open spec fn nth_line(s: Seq<char>, pos: int, k: nat) -> Option<Seq<char>>
    decreases s.len() - pos, k,
{
    if pos < 0 || pos >= s.len() {
        None
    } else if k == 0 {
        Some(line_text(s, pos))
    } else {
        let e = find_char(s, pos, '\n');
        if e < pos || e >= s.len() {
            None
        } else {
            nth_line(s, e + 1, (k - 1) as nat)
        }
    }
}

/// `count` spaces.
pub open spec fn spaces(count: int) -> Seq<char> {
    Seq::new(if count > 0 { count as nat } else { 0 }, |i: int| ' ')
}

/// The message for a parse error: the line number, the text of the line, and a `^` under the
/// column where parsing stopped.
pub open spec fn error_message(input: Seq<char>, at: Location) -> Seq<char> {
    let code = match nth_line(input, 0, (at.line - 1) as nat) {
        Some(l) => l,
        None => seq!['(', ' ', 'u', 'n', 'k', 'n', 'o', 'w', 'n', ' ', 'i', 'n', 'p', 'u', 't', ' ', ')'],
    };
    seq!['E', 'r', 'r', 'o', 'r', ' ', 'o', 'n', ' ', 'l', 'i', 'n', 'e', ' '] + decimal(at.line as nat)
        + seq![':', '\n', '\n'] + code + seq!['\n'] + spaces(at.column as int - 1) + seq!['^']
}

/// Append the `char`s of `t` to `out`.
fn push_str(out: &mut Vec<char>, t: &str)
    ensures
        final(out)@ == old(out)@ + t@,
{
    let cs = chars(t);
    push_chars(out, &cs, 0, cs.len());
}

/// Append `s[a..b]` to `out`.
fn push_chars(out: &mut Vec<char>, s: &[char], a: usize, b: usize)
    requires
        a <= b <= s@.len(),
    ensures
        final(out)@ == old(out)@ + s@.subrange(a as int, b as int),
{
    let mut i = a;
    while i < b
        invariant
            a <= i <= b <= s@.len(),
            out@ == old(out)@ + s@.subrange(a as int, i as int),
        decreases b - i,
    {
        out.push(s[i]);
        assert(s@.subrange(a as int, i + 1) == s@.subrange(a as int, i as int).push(s@[i as int]));
        i = i + 1;
    }
}

/// Line `k` (0-based) of `s`; see [`nth_line`].
fn find_nth_line(s: &[char], k: u32) -> (r: Option<(usize, usize)>)
    ensures
        match r {
            Some((a, b)) => a <= b <= s@.len() && nth_line(s@, 0, k as nat) == Some(s@.subrange(a as int, b as int)),
            None => nth_line(s@, 0, k as nat).is_none(),
        },
{
    let mut pos: usize = 0;
    let mut left = k;
    loop
        invariant
            pos <= s@.len(),
            nth_line(s@, pos as int, left as nat) == nth_line(s@, 0, k as nat),
        decreases left,
    {
        if pos >= s.len() {
            return None;
        }
        proof {
            crate::text::lemma_find_char(s@, pos as int, '\n');
        }
        let e = find(s, pos, '\n');
        if left == 0 {
            if e < s.len() && e > pos && s[e - 1] == '\r' {
                return Some((pos, e - 1));
            } else {
                return Some((pos, e));
            }
        }
        if e >= s.len() {
            return None;
        }
        pos = e + 1;
        left = left - 1;
    }
}

/// The longer message for a parse error (what `Debug` shows): the message, then how many bytes
/// of the input remain and how many were consumed.
pub open spec fn debug_message_text(input: Seq<char>, at: Location) -> Seq<char> {
    let all = byte_offset(input, input.len() as int);
    seq!['F', 'a', 'i', 'l', 'e', 'd', ' ', 't', 'o', ' ', 'p', 'a', 'r', 's', 'e', ' ', 'p', 'r', 'o', 'g', 'r', 'a', 'm', '.', '\n', '\n']
        + error_message(input, at) + seq!['\n', '\n'] + decimal((all - at.offset) as nat)
        + seq![' ', 'o', 'f', ' '] + decimal(all as nat)
        + seq![' ', 'b', 'y', 't', 'e', 's', ' ', 'r', 'e', 'm', 'a', 'i', 'n', 'i', 'n', 'g', ' ', '(']
        + decimal(at.offset as nat)
        + seq![' ', 'b', 'y', 't', 'e', 's', ' ', 'c', 'o', 'n', 's', 'u', 'm', 'e', 'd', ')']
}

impl<'a> ProgramParseError<'a> {
    /// The longer message for the error; see [`debug_message_text`].
    pub fn debug_message(&self) -> (r: String)
        requires
            1 <= self.failure_point.line,
            fits(self.input@),
            self.failure_point.offset <= byte_offset(self.input@, self.input@.len() as int),
        ensures
            r@ == debug_message_text(self.input@, self.failure_point),
    {
        let s = chars(self.input);
        let all = location_of(&s, s.len()).offset;
        let message = self.message();
        let m = chars(message.as_str());
        let mut out: Vec<char> = Vec::new();
        proof {
            reveal_strlit("Failed to parse program.\n\n");
            reveal_strlit("\n\n");
            reveal_strlit(" of ");
            reveal_strlit(" bytes remaining (");
            reveal_strlit(" bytes consumed)");
        }
        push_str(&mut out, "Failed to parse program.\n\n");
        push_chars(&mut out, &m, 0, m.len());
        push_str(&mut out, "\n\n");
        push_decimal(&mut out, (all - self.failure_point.offset) as u64);
        push_str(&mut out, " of ");
        push_decimal(&mut out, all as u64);
        push_str(&mut out, " bytes remaining (");
        push_decimal(&mut out, self.failure_point.offset as u64);
        push_str(&mut out, " bytes consumed)");
        assert(m@.subrange(0, m@.len() as int) == m@);
        assert(out@ =~= debug_message_text(self.input@, self.failure_point));
        string_of(&out, 0, out.len())
    }

    /// The message for the error (what `Display` shows); see [`error_message`].
    pub fn message(&self) -> (r: String)
        requires
            1 <= self.failure_point.line,
        ensures
            r@ == error_message(self.input@, self.failure_point),
    {
        let s = chars(self.input);
        let mut out: Vec<char> = Vec::new();
        proof {
            reveal_strlit("Error on line ");
            reveal_strlit(":\n\n");
            reveal_strlit("( unknown input )");
            reveal_strlit("\n");
            reveal_strlit("^");
        }
        push_str(&mut out, "Error on line ");
        push_decimal(&mut out, self.failure_point.line as u64);
        push_str(&mut out, ":\n\n");
        match find_nth_line(&s, self.failure_point.line - 1) {
            Some((a, b)) => push_chars(&mut out, &s, a, b),
            None => push_str(&mut out, "( unknown input )"),
        }
        push_str(&mut out, "\n");
        let ghost before = out@;
        let mut i: usize = 1;
        while i < self.failure_point.column
            invariant
                1 <= i,
                i <= self.failure_point.column || (self.failure_point.column == 0 && i == 1),
                out@ == before + spaces(i - 1),
            decreases self.failure_point.column - i,
        {
            out.push(' ');
            assert(spaces(i as int) == spaces(i - 1).push(' '));
            i = i + 1;
        }
        assert(spaces(i - 1) =~= spaces(self.failure_point.column as int - 1));
        push_str(&mut out, "^");
        assert(out@ =~= error_message(self.input@, self.failure_point));
        string_of(&out, 0, out.len())
    }
}

/// The blocks after the first one; see [`spec_more_blocks`].
#[verifier::loop_isolation(false)]
fn more_blocks(s: &[char], pos: usize, at: Location, acc: Vec<Block>) -> (r: PResult<Vec<Block>>)
    requires
        pos <= s@.len(),
        fits(s@),
        at == location_at(s@, pos as int),
    ensures
        match (r, spec_more_blocks(s@, pos as int, blocks_view(acc@))) {
            (Ok((p, bs)), Ok((q, vs))) => p == q && blocks_view(bs@) == vs,
            (Err(e), Err(f)) => e == f,
            _ => false,
        },
        r matches Ok((p, _)) ==> pos <= p <= s@.len(),
        !(r matches Err(Fail::Error(_))),
        r matches Err(Fail::Failure(e)) ==> e.position <= s@.len(),
{
    let n = s.len();
    proof {
        lemma_more_blocks(s@, pos as int, blocks_view(acc@));
    }
    let mut i = pos;
    let mut loc = at;
    let mut acc = acc;
    let ghost goal = spec_more_blocks(s@, pos as int, blocks_view(acc@));
    loop
        invariant
            pos <= i <= s@.len(),
            s@.len() == n,
            fits(s@),
            loc == location_at(s@, i as int),
            spec_more_blocks(s@, i as int, blocks_view(acc@)) == goal,
        decreases s@.len() - i,
    {
        match line_ending(s, i) {
            None => {
                return Ok((i, acc));
            },
            Some(q) => {
                proof {
                    lemma_block(s@, q as int);
                }
                let qloc = advance(s, i, loc, q);
                match block_at(s, q, qloc) {
                    Ok((p, b)) => {
                        if p < q || p > s.len() || q <= i {
                            return Ok((i, acc));
                        }
                        let ghost before = acc@;
                        acc.push(b);
                        assert(blocks_view(acc@) == blocks_view(before).push(acc@.last()@));
                        loc = advance(s, q, qloc, p);
                        i = p;
                    },
                    Err(Fail::Error(e)) => {
                        return Ok((i, acc));
                    },
                    Err(Fail::Failure(e)) => {
                        return Err(Fail::Failure(e));
                    },
                }
            },
        }
    }
}

impl<'a> GcodeProgram<'a> {
    /// Parse a whole program; see [`spec_program`].
    pub fn from_str(text: &'a str) -> (r: Result<Self, ProgramParseError<'a>>)
        requires
            fits(text@),
        ensures
            match (r, spec_program(text@)) {
                (Ok(p), Ok(bs)) => p.text == text && blocks_view(p.blocks@) == bs,
                (Err(e), Err(i)) => e.input == text && e.failure_point == location_at(text@, i),
                _ => false,
            },
    {
        let s = chars(text);
        let n = s.len();
        proof {
            lemma_multispace_end(s@, 0);
        }
        let p0 = skip_multispace(&s, 0);
        let loc0 = location_of(&s, p0);
        proof {
            lemma_block(s@, p0 as int);
        }
        let blocks = match block_at(&s, p0, loc0) {
            Err(Fail::Failure(e)) => {
                let failure_point = location_of(&s, e.position);
                return Err(ProgramParseError { failure_point, input: text });
            },
            Err(Fail::Error(e)) => {
                Ok((p0, Vec::new()))
            },
            Ok((p, b)) => {
                let loc = advance(&s, p0, loc0, p);
                let mut acc: Vec<Block> = Vec::new();
                acc.push(b);
                assert(blocks_view(acc@) == seq![acc@[0]@]);
                more_blocks(&s, p, loc, acc)
            },
        };
        match blocks {
            Ok((p, bs)) => {
                let e = skip_multispace(&s, p);
                if e == s.len() {
                    Ok(GcodeProgram { text, blocks: bs })
                } else {
                    Err(ProgramParseError { failure_point: location_of(&s, e), input: text })
                }
            },
            Err(Fail::Error(e)) => Err(ProgramParseError { failure_point: location_of(&s, e.position), input: text }),
            Err(Fail::Failure(e)) => Err(ProgramParseError { failure_point: location_of(&s, e.position), input: text }),
        }
    }

    /// Every block (line) in the program
    pub fn block_iter(&self) -> (r: &[Block])
        ensures
            r@ == self.blocks@,
    {
        self.blocks.as_slice()
    }

    /// Every token in the program, block by block
    pub fn token_iter(&self) -> (r: Vec<&Token>)
        ensures
            r@.map_values(|t: &Token| t@) == all_tokens(blocks_view(self.blocks@)),
    {
        let mut r: Vec<&Token> = Vec::new();
        let mut i: usize = 0;
        while i < self.blocks.len()
            invariant
                i <= self.blocks@.len(),
                r@.map_values(|t: &Token| t@) == all_tokens(blocks_view(self.blocks@).take(i as int)),
            decreases self.blocks@.len() - i,
        {
            let b = &self.blocks[i];
            let mut j: usize = 0;
            let ghost before = r@.map_values(|t: &Token| t@);
            while j < b.tokens.len()
                invariant
                    j <= b.tokens@.len(),
                    r@.map_values(|t: &Token| t@) == before + tokens_view(b.tokens@).take(j as int),
                decreases b.tokens@.len() - j,
            {
                let ghost old_r = r@;
                r.push(&b.tokens[j]);
                assert(r@.map_values(|t: &Token| t@) =~= old_r.map_values(|t: &Token| t@).push(b.tokens@[j as int]@));
                assert(tokens_view(b.tokens@).take(j + 1) == tokens_view(b.tokens@).take(j as int).push(b.tokens@[j as int]@));
                assert(r@.map_values(|t: &Token| t@) =~= before + tokens_view(b.tokens@).take(j + 1));
                j = j + 1;
            }
            assert(tokens_view(b.tokens@).take(j as int) == tokens_view(b.tokens@));
            assert(blocks_view(self.blocks@).take(i + 1).drop_last() == blocks_view(self.blocks@).take(i as int));
            i = i + 1;
        }
        assert(blocks_view(self.blocks@).take(i as int) == blocks_view(self.blocks@));
        r
    }
}

} // verus!
