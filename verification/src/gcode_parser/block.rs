//! Blocks: one line of G-code.
use crate::error::{agrees, err, ErrorKind, Fail, PResult, ParseError, SResult};
use crate::gcode_parser::token::{lemma_token_type, spec_token, spec_token_type, token_type, Token, TokenType, TokenTypeView, TokenView};
use crate::gcode_parser::word::{lemma_word, spec_word, word};
use crate::location::{advance, fits, location_at, location_of, Location};
use crate::text::{blank_end, lemma_blank_end, skip_blanks};
use vstd::prelude::*;

verus! {

#[derive(Debug, Clone, PartialEq)]
pub struct Block {
    /// Whether the line has a leading `/` block delete character present
    pub block_delete: bool,
    /// All tokens in this block, including optional block delete and line numbers
    pub tokens: Vec<Token>,
}

pub struct BlockView {
    pub block_delete: bool,
    pub tokens: Seq<TokenView>,
}

/// The views of a sequence of tokens.
pub open spec fn tokens_view(ts: Seq<Token>) -> Seq<TokenView> {
    ts.map_values(|t: Token| t@)
}

impl View for Block {
    type V = BlockView;

    open spec fn view(&self) -> BlockView {
        BlockView { block_delete: self.block_delete, tokens: tokens_view(self.tokens@) }
    }
}

/// Tokens from `pos` on, each followed by blanks, after the tokens `acc` already read; stops
/// before the first token that fails with a recoverable error.
pub open spec fn spec_tokens(s: Seq<char>, pos: int, acc: Seq<TokenView>) -> SResult<Seq<TokenView>>
    decreases s.len() - pos,
{
    match spec_token(s, pos) {
        Ok((p, t)) => {
            let q = blank_end(s, p);
            if q <= pos || q > s.len() {
                err(pos, ErrorKind::Many0)
            } else {
                spec_tokens(s, q, acc.push(t))
            }
        },
        Err(Fail::Error(_)) => Ok((pos, acc)),
        Err(Fail::Failure(e)) => Err(Fail::Failure(e)),
    }
}

/// A block at `pos`: blanks, an optional `/` (block delete), blanks, an optional `N` word (line
/// number), blanks, then tokens each followed by blanks. The tokens of the block are the block
/// delete, the line number and the others, in that order.
pub open spec fn spec_block(s: Seq<char>, pos: int) -> SResult<BlockView> {
    let p0 = blank_end(s, pos);
    let has_delete = p0 < s.len() && s[p0] == '/';
    let p1 = if has_delete { p0 + 1 } else { p0 };
    let head: Seq<TokenView> = if has_delete {
        seq![TokenView { start_pos: location_at(s, p0), end_pos: location_at(s, p1), token: TokenTypeView::BlockDelete }]
    } else {
        seq![]
    };
    let p2 = blank_end(s, p1);
    match spec_word::<u32>(s, p2, 'N') {
        Err(Fail::Failure(e)) => Err(Fail::Failure(e)),
        r => {
            let (p3, head2) = match r {
                Ok((p3, w)) => (p3, head.push(TokenView { start_pos: location_at(s, p2), end_pos: location_at(s, p3), token: TokenTypeView::LineNumber(w.value) })),
                _ => (p2, head),
            };
            match spec_tokens(s, blank_end(s, p3), head2) {
                Ok((p4, ts)) => Ok((p4, BlockView { block_delete: has_delete, tokens: ts })),
                Err(e) => Err(e),
            }
        },
    }
}

/// Tokens never end in a recoverable error: consuming nothing cannot happen.
pub proof fn lemma_tokens(s: Seq<char>, pos: int, acc: Seq<TokenView>)
    requires
        0 <= pos <= s.len(),
        s.len() <= usize::MAX,
    ensures
        spec_tokens(s, pos, acc) matches Ok((p, _)) ==> pos <= p <= s.len(),
        !(spec_tokens(s, pos, acc) matches Err(Fail::Error(_))),
        spec_tokens(s, pos, acc) matches Err(Fail::Failure(e)) ==> e.position <= s.len(),
    decreases s.len() - pos,
{
    lemma_token_type(s, pos);
    if let Ok((p, t)) = spec_token(s, pos) {
        lemma_blank_end(s, p);
        let q = blank_end(s, p);
        if !(q <= pos || q > s.len()) {
            lemma_tokens(s, q, acc.push(t));
        }
    }
}

/// Tokens from `pos` (whose location is `at`) after those in `acc`; see [`spec_tokens`].
#[verifier::loop_isolation(false)]
fn tokens(s: &[char], pos: usize, at: Location, acc: Vec<Token>) -> (r: PResult<Vec<Token>>)
    requires
        pos <= s@.len(),
        fits(s@),
        at == location_at(s@, pos as int),
    ensures
        match (r, spec_tokens(s@, pos as int, tokens_view(acc@))) {
            (Ok((p, ts)), Ok((q, vs))) => p == q && tokens_view(ts@) == vs,
            (Err(e), Err(f)) => e == f,
            _ => false,
        },
{
    let n = s.len();
    let mut i = pos;
    let mut loc = at;
    let mut acc = acc;
    let ghost goal = spec_tokens(s@, pos as int, tokens_view(acc@));
    loop
        invariant
            pos <= i <= s@.len(),
            s@.len() == n,
            fits(s@),
            loc == location_at(s@, i as int),
            spec_tokens(s@, i as int, tokens_view(acc@)) == goal,
        decreases s@.len() - i,
    {
        proof {
            lemma_token_type(s@, i as int);
        }
        let r = token_type(s, i);
        match r {
            Ok((p, k)) => {
                let end_pos = advance(s, i, loc, p);
                let t = Token { start_pos: loc, end_pos, token: k };
                let q = skip_blanks(s, p);
                if q <= i || q > s.len() {
                    return Err(Fail::Error(ParseError { position: i, kind: ErrorKind::Many0 }));
                }
                let ghost before = acc@;
                acc.push(t);
                assert(tokens_view(acc@) == tokens_view(before).push(t@));
                loc = advance(s, p, end_pos, q);
                i = q;
            },
            Err(Fail::Error(e)) => {
                assert(spec_token_type(s@, i as int) == Err::<(int, TokenTypeView), Fail>(Fail::Error(e)));
                assert(spec_tokens(s@, i as int, tokens_view(acc@)) == Ok::<(int, Seq<TokenView>), Fail>((i as int, tokens_view(acc@))));
                return Ok((i, acc));
            },
            Err(Fail::Failure(e)) => {
                assert(spec_token_type(s@, i as int) == Err::<(int, TokenTypeView), Fail>(Fail::Failure(e)));
                return Err(Fail::Failure(e));
            },
        }
    }
}

/// A block at `pos`, whose location is `at`; see [`spec_block`].
pub fn block_at(s: &[char], pos: usize, at: Location) -> (r: PResult<Block>)
    requires
        pos <= s@.len(),
        fits(s@),
        at == location_at(s@, pos as int),
    ensures
        agrees(r, spec_block(s@, pos as int)),
{
    let n = s.len();
    proof {
        lemma_blank_end(s@, pos as int);
    }
    let p0 = skip_blanks(s, pos);
    let loc0 = advance(s, pos, at, p0);
    let mut head: Vec<Token> = Vec::new();
    let has_delete = p0 < s.len() && s[p0] == '/';
    let mut p1 = p0;
    let mut loc1 = loc0;
    if has_delete {
        p1 = p0 + 1;
        loc1 = advance(s, p0, loc0, p1);
        head.push(Token { start_pos: loc0, end_pos: loc1, token: TokenType::BlockDelete });
    }
    let ghost head_spec: Seq<TokenView> = if has_delete {
        seq![TokenView { start_pos: location_at(s@, p0 as int), end_pos: location_at(s@, p1 as int), token: TokenTypeView::BlockDelete }]
    } else {
        seq![]
    };
    assert(tokens_view(head@) =~= head_spec);
    proof {
        lemma_blank_end(s@, p1 as int);
    }
    let p2 = skip_blanks(s, p1);
    let loc2 = advance(s, p1, loc1, p2);
    proof {
        lemma_word::<u32>(s@, p2 as int, 'N');
    }
    let ghost head2: Seq<TokenView>;
    let (p3, loc3) = match word::<u32>(s, p2, 'N') {
        Err(Fail::Failure(e)) => {
            return Err(Fail::Failure(e));
        },
        Ok((p3, w)) => {
            let loc3 = advance(s, p2, loc2, p3);
            let t = Token { start_pos: loc2, end_pos: loc3, token: TokenType::LineNumber(w.value) };
            proof {
                head2 = head_spec.push(t@);
            }
            head.push(t);
            assert(tokens_view(head@) =~= head2);
            (p3, loc3)
        },
        Err(Fail::Error(_)) => {
            proof {
                head2 = head_spec;
            }
            (p2, loc2)
        },
    };
    proof {
        lemma_blank_end(s@, p3 as int);
    }
    let p4 = skip_blanks(s, p3);
    let loc4 = advance(s, p3, loc3, p4);
    match tokens(s, p4, loc4, head) {
        Ok((p5, ts)) => Ok((p5, Block { block_delete: has_delete, tokens: ts })),
        Err(e) => Err(e),
    }
}

/// Parse a block (single line of gcode); see [`spec_block`].
pub fn block(s: &[char], pos: usize) -> (r: PResult<Block>)
    requires
        pos <= s@.len(),
        fits(s@),
    ensures
        agrees(r, spec_block(s@, pos as int)),
{
    let at = location_of(s, pos);
    block_at(s, pos, at)
}

} // verus!
