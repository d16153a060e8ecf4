//! Parse a block (line) populated with [`Word`]s.
use crate::clean_slate::spanned_word::{lemma_word, spec_word_spanned, Spanned, SpannedView, Word, WordView};
use crate::error::{agrees, err, ErrorKind, Fail, PResult, SResult};
use crate::location::{advance, fits, location_at, location_of, Location};
use crate::text::{blank_end, lemma_blank_end, skip_blanks};
use vstd::prelude::*;

verus! {

#[derive(Debug, Clone)]
pub struct Block {
    words: Vec<Spanned<Word>>,
}

/// The words of a block.
pub struct BlockView {
    pub words: Seq<SpannedView<WordView>>,
}

/// The views of a sequence of spanned words.
pub open spec fn words_view(ws: Seq<Spanned<Word>>) -> Seq<SpannedView<WordView>> {
    ws.map_values(|w: Spanned<Word>| w@)
}

impl View for Block {
    type V = BlockView;

    closed spec fn view(&self) -> BlockView {
        BlockView { words: words_view(self.words@) }
    }
}

/// Words from `pos` on, each after blanks, following the words `acc` already read; the words stop
/// before the first one that fails with a recoverable error (and before the blanks in front of
/// it). A word that consumes nothing is a `Many0` error at `pos`.
pub open spec fn spec_words(s: Seq<char>, pos: int, acc: Seq<SpannedView<WordView>>) -> SResult<Seq<SpannedView<WordView>>>
    decreases s.len() - pos,
{
    match spec_word_spanned(s, blank_end(s, pos)) {
        Ok((p, w)) => if p <= pos || p > s.len() {
            err(pos, ErrorKind::Many0)
        } else {
            spec_words(s, p, acc.push(w))
        },
        Err(Fail::Error(_)) => Ok((pos, acc)),
        Err(Fail::Failure(e)) => Err(Fail::Failure(e)),
    }
}

/// A block at `pos`: its words, each after blanks.
pub open spec fn spec_block(s: Seq<char>, pos: int) -> SResult<BlockView> {
    match spec_words(s, pos, seq![]) {
        Ok((p, ws)) => Ok((p, BlockView { words: ws })),
        Err(e) => Err(e),
    }
}

/// The words stay inside the input, and never end in a recoverable error.
pub proof fn lemma_words(s: Seq<char>, pos: int, acc: Seq<SpannedView<WordView>>)
    requires
        0 <= pos <= s.len(),
        s.len() <= usize::MAX,
    ensures
        spec_words(s, pos, acc) matches Ok((p, _)) ==> pos <= p <= s.len(),
        !(spec_words(s, pos, acc) matches Err(Fail::Error(_))),
    decreases s.len() - pos,
{
    lemma_blank_end(s, pos);
    lemma_word(s, blank_end(s, pos));
    if let Ok((p, w)) = spec_word_spanned(s, blank_end(s, pos)) {
        lemma_words(s, p, acc.push(w));
    }
}

impl Block {
    /// The words of the block, in order.
    pub fn words(&self) -> (r: &[Spanned<Word>])
        ensures
            words_view(r@) == self@.words,
    {
        self.words.as_slice()
    }

    /// A block at `pos`, whose location is `at`; see [`spec_block`].
    pub fn parse_at(s: &[char], pos: usize, at: Location) -> (r: PResult<Block>)
        requires
            pos <= s@.len(),
            fits(s@),
            at == location_at(s@, pos as int),
        ensures
            agrees(r, spec_block(s@, pos as int)),
    {
        let n = s.len();
        let mut i = pos;
        let mut loc = at;
        let mut words: Vec<Spanned<Word>> = Vec::new();
        proof {
            lemma_words(s@, pos as int, seq![]);
        }
        assert(words_view(words@) =~= seq![]);
        let ghost goal = spec_words(s@, pos as int, seq![]);
        loop
            invariant
                pos <= i <= s@.len(),
                s@.len() == n,
                fits(s@),
                loc == location_at(s@, i as int),
                spec_words(s@, i as int, words_view(words@)) == goal,
                goal == spec_words(s@, pos as int, seq![]),
            decreases s@.len() - i,
        {
            proof {
                lemma_blank_end(s@, i as int);
            }
            let q = skip_blanks(s, i);
            let at_q = advance(s, i, loc, q);
            match Word::parse_spanned_at(s, q, at_q) {
                Ok((p, w)) => {
                    let ghost before = words@;
                    let ghost wv = w@;
                    loc = w.end;
                    words.push(w);
                    assert(words_view(words@) =~= words_view(before).push(wv));
                    i = p;
                },
                Err(Fail::Error(_)) => {
                    return Ok((i, Block { words }));
                },
                Err(Fail::Failure(e)) => {
                    return Err(Fail::Failure(e));
                },
            }
        }
    }

    /// Parse a block; see [`spec_block`].
    pub fn parse(s: &[char], pos: usize) -> (r: PResult<Block>)
        requires
            pos <= s@.len(),
            fits(s@),
        ensures
            agrees(r, spec_block(s@, pos as int)),
    {
        let at = location_of(s, pos);
        Block::parse_at(s, pos, at)
    }
}

} // verus!
