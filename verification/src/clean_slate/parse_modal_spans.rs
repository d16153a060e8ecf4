//! The motion and non-modal groups, read with the words and literals of
//! [`const_generics_test`](crate::clean_slate::const_generics_test).
use crate::clean_slate::const_generics_test::{literal, recognise_word, spec_literal, spec_recognise_word};
use crate::error::{agrees, map_value, PResult, SResult};
use crate::location::Location;
use crate::number::Number;
use crate::text::{blank_end, lemma_blank_end, lemma_digit_end, skip_blanks};
use vstd::prelude::*;

verus! {

/// A parsed word with its input position.
#[derive(Debug, PartialEq, Clone)]
pub struct Word {
    pub position: Location,
    pub word: ModalGroup,
}

/// Modal groups.
#[derive(Debug, PartialEq, Clone)]
pub enum ModalGroup {
    NonModal(NonModal),
    Motion(Motion),
}

/// Group 1: Motion.
#[derive(Debug, PartialEq, Eq, Clone, Copy)]
pub enum Motion {
    // `G0`.
    Rapid,
}

impl View for Motion {
    type V = Motion;

    open spec fn view(&self) -> Motion {
        *self
    }
}

/// Group 0: Non-modal.
#[derive(Debug, PartialEq, Clone)]
pub enum NonModal {
    // `G4 Pn`: the duration in seconds, as written.
    Dwell { duration: Number },
}

pub enum NonModalView {
    Dwell { duration: Seq<char> },
}

impl View for NonModal {
    type V = NonModalView;

    open spec fn view(&self) -> NonModalView {
        match self {
            NonModal::Dwell { duration } => NonModalView::Dwell { duration: duration@ },
        }
    }
}

/// `G0`: a rapid motion.
pub open spec fn spec_motion(s: Seq<char>, pos: int) -> SResult<Motion> {
    map_value(spec_recognise_word(s, pos, 'G', 0, false), |u: ()| Motion::Rapid)
}

/// `G4`, blanks, then a `P` literal: a dwell for that many seconds.
pub open spec fn spec_non_modal(s: Seq<char>, pos: int) -> SResult<NonModalView> {
    match spec_recognise_word(s, pos, 'G', 4, false) {
        Ok((p, _)) => map_value(spec_literal(s, blank_end(s, p), 'P', false), |d: Seq<char>| NonModalView::Dwell { duration: d }),
        Err(e) => Err(e),
    }
}

impl Motion {
    /// See [`spec_motion`].
    pub fn parse(s: &[char], pos: usize) -> (r: PResult<Motion>)
        requires
            pos <= s@.len(),
        ensures
            agrees(r, spec_motion(s@, pos as int)),
    {
        match recognise_word('G', 0, s, pos) {
            Ok((p, _)) => Ok((p, Motion::Rapid)),
            Err(e) => Err(e),
        }
    }
}

impl NonModal {
    /// See [`spec_non_modal`].
    pub fn parse(s: &[char], pos: usize) -> (r: PResult<NonModal>)
        requires
            pos <= s@.len(),
        ensures
            agrees(r, spec_non_modal(s@, pos as int)),
    {
        match recognise_word('G', 4, s, pos) {
            Ok((p, _)) => {
                proof {
                    lemma_blank_end(s@, pos as int + 1);
                    lemma_digit_end(s@, blank_end(s@, pos as int + 1));
                }
                let q = skip_blanks(s, p);
                match literal('P', s, q) {
                    Ok((e, d)) => Ok((e, NonModal::Dwell { duration: d })),
                    Err(e) => Err(e),
                }
            },
            Err(e) => Err(e),
        }
    }
}

} // verus!
