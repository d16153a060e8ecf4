//! Gcodes from [modal group 0 (non modal codes)](http://linuxcnc.org/docs/html/gcode/overview.html#_modal_groups)
use crate::error::{agrees, err, or_else, ErrorKind, Fail, PResult, ParseError, SResult};
use crate::gcode_parser::coord::{coord, spec_coord, Coord};
use crate::gcode_parser::word::{spec_word, word};
use crate::number::{text_negative, Number};
use crate::text::{blank_end, skip_blanks};
use vstd::prelude::*;

verus! {

#[derive(Debug, PartialEq, Clone)]
pub enum NonModal {
    /// G4
    Dwell { duration: Number },
    /// G92
    CoordinateSystemOffset { position: Coord },
}

pub enum NonModalView {
    Dwell { duration: Seq<char> },
    CoordinateSystemOffset { position: Seq<Option<Seq<char>>> },
}

impl View for NonModal {
    type V = NonModalView;

    open spec fn view(&self) -> NonModalView {
        match self {
            NonModal::Dwell { duration } => NonModalView::Dwell { duration: duration@ },
            NonModal::CoordinateSystemOffset { position } => NonModalView::CoordinateSystemOffset { position: position@ },
        }
    }
}

/// A `G` word of integer value `code`; another value is a `Verify` error at `pos`. Gives the
/// position after the word.
pub open spec fn spec_g_code(s: Seq<char>, pos: int, code: u8) -> SResult<()> {
    match spec_word::<u8>(s, pos, 'G') {
        Ok((p, w)) => if w.value == code {
            Ok((p, ()))
        } else {
            err(pos, ErrorKind::Verify)
        },
        Err(e) => Err(e),
    }
}

/// `G4`, blanks, then a `P` word whose number has no minus sign: the dwell time in seconds.
pub open spec fn spec_dwell(s: Seq<char>, pos: int) -> SResult<NonModalView> {
    match spec_g_code(s, pos, 4) {
        Ok((p, _)) => {
            let q = blank_end(s, p);
            match spec_word::<crate::number::Number>(s, q, 'P') {
                Ok((r, w)) => if text_negative(w.value) {
                    err(q, ErrorKind::Verify)
                } else {
                    Ok((r, NonModalView::Dwell { duration: w.value }))
                },
                Err(e) => Err(e),
            }
        },
        Err(e) => Err(e),
    }
}

/// `G92`, blanks, then a coordinate.
pub open spec fn spec_coord_system_offset(s: Seq<char>, pos: int) -> SResult<NonModalView> {
    match spec_g_code(s, pos, 92) {
        Ok((p, _)) => match spec_coord(s, blank_end(s, p)) {
            Ok((r, c)) => Ok((r, NonModalView::CoordinateSystemOffset { position: c })),
            Err(e) => Err(e),
        },
        Err(e) => Err(e),
    }
}

/// A coordinate system offset, or else a dwell.
pub open spec fn spec_non_modal(s: Seq<char>, pos: int) -> SResult<NonModalView> {
    or_else(spec_coord_system_offset(s, pos), spec_dwell(s, pos))
}

fn g_code(s: &[char], pos: usize, code: u8) -> (r: PResult<()>)
    requires
        pos <= s@.len(),
    ensures
        agrees(r, spec_g_code(s@, pos as int, code)),
        r matches Ok((p, _)) ==> p <= s@.len(),
{
    let n = s.len();
    proof {
        crate::gcode_parser::word::lemma_word::<u8>(s@, pos as int, 'G');
    }
    match word::<u8>(s, pos, 'G') {
        Ok((p, w)) => if w.value == code {
            Ok((p, ()))
        } else {
            Err(Fail::Error(ParseError { position: pos, kind: ErrorKind::Verify }))
        },
        Err(e) => Err(e),
    }
}

fn dwell(s: &[char], pos: usize) -> (r: PResult<NonModal>)
    requires
        pos <= s@.len(),
    ensures
        agrees(r, spec_dwell(s@, pos as int)),
{
    match g_code(s, pos, 4) {
        Ok((p, _)) => {
            let q = skip_blanks(s, p);
            match word::<Number>(s, q, 'P') {
                Ok((r, w)) => if w.value.is_negative() {
                    Err(Fail::Error(ParseError { position: q, kind: ErrorKind::Verify }))
                } else {
                    Ok((r, NonModal::Dwell { duration: w.value }))
                },
                Err(e) => Err(e),
            }
        },
        Err(e) => Err(e),
    }
}

fn coord_system_offset(s: &[char], pos: usize) -> (r: PResult<NonModal>)
    requires
        pos <= s@.len(),
    ensures
        agrees(r, spec_coord_system_offset(s@, pos as int)),
{
    match g_code(s, pos, 92) {
        Ok((p, _)) => match coord(s, skip_blanks(s, p)) {
            Ok((r, c)) => Ok((r, NonModal::CoordinateSystemOffset { position: c })),
            Err(e) => Err(e),
        },
        Err(e) => Err(e),
    }
}

/// A non-modal code at `pos`; see [`spec_non_modal`].
pub fn non_modal(s: &[char], pos: usize) -> (r: PResult<NonModal>)
    requires
        pos <= s@.len(),
    ensures
        agrees(r, spec_non_modal(s@, pos as int)),
{
    match coord_system_offset(s, pos) {
        Err(Fail::Error(_)) => dwell(s, pos),
        r => r,
    }
}

} // verus!
