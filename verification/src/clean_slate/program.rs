//! Parse a whole program: blocks separated by line endings.
use crate::clean_slate::block::{lemma_words, spec_block, Block, BlockView};
use crate::error::{agrees, err, ErrorKind, Fail, PResult, ParseError, SResult};
use crate::location::fits;
use crate::text::{line_ending, line_ending_end};
use vstd::prelude::*;

verus! {

#[derive(Debug, Clone)]
pub struct Program {
    blocks: Vec<Block>,
}

impl View for Program {
    type V = Seq<BlockView>;

    closed spec fn view(&self) -> Seq<BlockView> {
        blocks_view(self.blocks@)
    }
}

/// The views of a sequence of blocks.
pub open spec fn blocks_view(bs: Seq<Block>) -> Seq<BlockView> {
    bs.map_values(|b: Block| b@)
}

/// More blocks after the blocks `acc` that end at `pos`: a line ending, then a block, as long
/// as both parse; the blocks stop before the line ending of the first pair that does not.
pub open spec fn spec_more_blocks(s: Seq<char>, pos: int, acc: Seq<BlockView>) -> SResult<Seq<BlockView>>
    decreases s.len() - pos,
{
    match line_ending_end(s, pos) {
        None => Ok((pos, acc)),
        Some(q) => match spec_block(s, q) {
            Ok((p, b)) => if p <= pos || p > s.len() {
                Ok((pos, acc))
            } else {
                spec_more_blocks(s, p, acc.push(b))
            },
            Err(Fail::Error(_)) => Ok((pos, acc)),
            Err(Fail::Failure(e)) => Err(Fail::Failure(e)),
        },
    }
}

/// A program at `pos`: blocks separated by line endings (none where the first block does not
/// parse), which must reach the end of the input; what is left over is an `Eof` error where it
/// starts.
pub open spec fn spec_program(s: Seq<char>, pos: int) -> SResult<Seq<BlockView>> {
    let r = match spec_block(s, pos) {
        Ok((p, b)) => spec_more_blocks(s, p, seq![b]),
        Err(Fail::Error(_)) => Ok((pos, seq![])),
        Err(Fail::Failure(e)) => Err(Fail::Failure(e)),
    };
    match r {
        Ok((p, bs)) => if p == s.len() {
            Ok((p, bs))
        } else {
            err(p, ErrorKind::Eof)
        },
        Err(e) => Err(e),
    }
}

proof fn lemma_block(s: Seq<char>, pos: int)
    requires
        0 <= pos <= s.len(),
        s.len() <= usize::MAX,
    ensures
        spec_block(s, pos) matches Ok((p, _)) ==> pos <= p <= s.len(),
{
    lemma_words(s, pos, seq![]);
}

impl Program {
    /// The blocks of the program, in order.
    pub fn blocks(&self) -> (r: &[Block])
        ensures
            blocks_view(r@) == self@,
    {
        self.blocks.as_slice()
    }

    /// Parse a program; see [`spec_program`].
    #[verifier::loop_isolation(false)]
    pub fn parse(s: &[char], pos: usize) -> (r: PResult<Program>)
        requires
            pos <= s@.len(),
            fits(s@),
        ensures
            agrees(r, spec_program(s@, pos as int)),
    {
        let n = s.len();
        let mut blocks: Vec<Block> = Vec::new();
        let mut i: usize;
        let mut first_ok = false;
        proof {
            lemma_block(s@, pos as int);
        }
        match Block::parse(s, pos) {
            Ok((p, b)) => {
                i = p;
                blocks.push(b);
                first_ok = true;
            },
            Err(Fail::Error(_)) => {
                i = pos;
            },
            Err(Fail::Failure(e)) => {
                return Err(Fail::Failure(e));
            },
        }
        let ghost goal = match spec_block(s@, pos as int) {
            Ok((p, b)) => spec_more_blocks(s@, p, seq![b]),
            _ => Ok((pos as int, Seq::<BlockView>::empty())),
        };
        assert(blocks_view(blocks@) =~= match spec_block(s@, pos as int) {
            Ok((p, b)) => seq![b],
            _ => Seq::<BlockView>::empty(),
        });
        assert(first_ok == spec_block(s@, pos as int) is Ok);
        loop
            invariant
                i <= s@.len(),
                s@.len() == n,
                fits(s@),
                first_ok ==> spec_more_blocks(s@, i as int, blocks_view(blocks@)) == goal,
                !first_ok ==> i == pos && blocks@.len() == 0 && goal == Ok::<(int, Seq<BlockView>), Fail>((pos as int, Seq::<BlockView>::empty())),
            decreases s@.len() - i,
        {
            if !first_ok {
                break;
            }
            match line_ending(s, i) {
                None => {
                    break;
                },
                Some(q) => {
                    proof {
                        lemma_block(s@, q as int);
                    }
                    match Block::parse(s, q) {
                        Ok((p, b)) => {
                            let ghost before = blocks@;
                            let ghost bv = b@;
                            blocks.push(b);
                            assert(blocks_view(blocks@) =~= blocks_view(before).push(bv));
                            i = p;
                        },
                        Err(Fail::Error(_)) => {
                            break;
                        },
                        Err(Fail::Failure(e)) => {
                            return Err(Fail::Failure(e));
                        },
                    }
                },
            }
        }
        if i == s.len() {
            Ok((i, Program { blocks }))
        } else {
            Err(Fail::Error(ParseError { position: i, kind: ErrorKind::Eof }))
        }
    }
}

} // verus!
