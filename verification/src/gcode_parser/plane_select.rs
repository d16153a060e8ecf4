//! Gcodes from [modal group 2 (plane select)](http://linuxcnc.org/docs/html/gcode/overview.html#_modal_groups)
use crate::error::{agrees, ErrorKind, Fail, PResult, ParseError, SResult};
use crate::gcode_parser::code::{is_text2, is_text4, text2, text4, word_code};
use crate::gcode_parser::word::{spec_word, word};
use vstd::prelude::*;

verus! {

#[derive(Debug, PartialEq, Eq, Copy, Clone)]
pub enum PlaneSelect {
    /// G17
    XY,
    /// G18
    ZX,
    /// G19
    YZ,
    /// G17.1
    UV,
    /// G18.1
    WU,
    /// G19.1
    VW,
}

impl View for PlaneSelect {
    type V = PlaneSelect;

    open spec fn view(&self) -> PlaneSelect {
        *self
    }
}

/// The plane that a `G` number's text selects: exactly `17`, `18`, `19`, `17.1`, `18.1` or `19.1`.
pub open spec fn plane_code(t: Seq<char>) -> Option<PlaneSelect> {
    if text2(t, '1', '7') {
        Some(PlaneSelect::XY)
    } else if text2(t, '1', '8') {
        Some(PlaneSelect::ZX)
    } else if text2(t, '1', '9') {
        Some(PlaneSelect::YZ)
    } else if text4(t, '1', '7', '.', '1') {
        Some(PlaneSelect::UV)
    } else if text4(t, '1', '8', '.', '1') {
        Some(PlaneSelect::WU)
    } else if text4(t, '1', '9', '.', '1') {
        Some(PlaneSelect::VW)
    } else {
        None
    }
}

impl PlaneSelect {
    /// The plane that the number text `s[start..end]` selects (`TryFrom<String>`).
    pub fn from_text(s: &[char], start: usize, end: usize) -> (r: Result<Self, ()>)
        requires
            start <= end <= s@.len(),
        ensures
            match r {
                Ok(v) => plane_code(s@.subrange(start as int, end as int)) == Some(v),
                Err(_) => plane_code(s@.subrange(start as int, end as int)).is_none(),
            },
    {
        if is_text2(s, start, end, '1', '7') {
            Ok(PlaneSelect::XY)
        } else if is_text2(s, start, end, '1', '8') {
            Ok(PlaneSelect::ZX)
        } else if is_text2(s, start, end, '1', '9') {
            Ok(PlaneSelect::YZ)
        } else if is_text4(s, start, end, '1', '7', '.', '1') {
            Ok(PlaneSelect::UV)
        } else if is_text4(s, start, end, '1', '8', '.', '1') {
            Ok(PlaneSelect::WU)
        } else if is_text4(s, start, end, '1', '9', '.', '1') {
            Ok(PlaneSelect::VW)
        } else {
            Err(())
        }
    }
}

/// A `G` word whose number text selects a plane; other text is a `MapOpt` error at `pos`.
pub open spec fn spec_plane_select(s: Seq<char>, pos: int) -> SResult<PlaneSelect> {
    word_code(spec_word::<String>(s, pos, 'G'), pos, |t: Seq<char>| plane_code(t), ErrorKind::MapOpt)
}

pub fn plane_select(s: &[char], pos: usize) -> (r: PResult<PlaneSelect>)
    requires
        pos <= s@.len(),
    ensures
        agrees(r, spec_plane_select(s@, pos as int)),
{
    match word::<String>(s, pos, 'G') {
        Ok((p, w)) => {
            let t = crate::text::chars(w.value.as_str());
            match PlaneSelect::from_text(&t, 0, t.len()) {
                Ok(v) => Ok((p, v)),
                Err(_) => Err(Fail::Error(ParseError { position: pos, kind: ErrorKind::MapOpt })),
            }
        },
        Err(e) => Err(e),
    }
}

} // verus!
