//! Coordinates read with at most nine attempts, one axis word at a time.
pub use crate::gcode_parser::coord::Coord;
use crate::clean_slate::const_generics_test::{float, spec_float};
use crate::error::{agrees, err, ErrorKind, Fail, PResult, ParseError, SResult};
use crate::gcode_interpreter::{axes_view, zero_text};
use crate::gcode_parser::coord::{axis_index, axis_of, empty_coord};
use crate::number::{string_of, Number};
use crate::text::{blank_end, lemma_blank_end, skip_blanks, to_upper, upper};
use vstd::prelude::*;

verus! {

/// The rest of a coordinate after attempt `k` (of nine), from `pos`, with the axes in `c` set.
///
/// An attempt reads blanks, a `char`, blanks and a number. An axis letter (either case) whose
/// axis is not set yet sets it; one whose axis is set ends the coordinate before the attempt;
/// any other `char` is skipped over without consuming anything. A failed attempt ends the
/// coordinate before it, unless no axis is set, when its error is the outcome: `Eof` where the
/// `char` is missing, or the number's error. After nine attempts, a coordinate with no axis set
/// is a `ManyMN` error.
pub open spec fn spec_coord_from(s: Seq<char>, pos: int, c: Seq<Option<Seq<char>>>, k: nat) -> SResult<Seq<Option<Seq<char>>>>
    decreases 9 - k,
{
    if k >= 9 {
        if c != empty_coord() {
            Ok((pos, c))
        } else {
            err(pos, ErrorKind::ManyMN)
        }
    } else {
        let q = blank_end(s, pos);
        if q >= s.len() {
            if c == empty_coord() {
                err(q, ErrorKind::Eof)
            } else {
                Ok((pos, c))
            }
        } else {
            match spec_float(s, blank_end(s, q + 1)) {
                Err(Fail::Failure(e)) => Err(Fail::Failure(e)),
                Err(Fail::Error(e)) => if c == empty_coord() {
                    Err(Fail::Error(e))
                } else {
                    Ok((pos, c))
                },
                Ok((p, t)) => match axis_index(upper(s[q])) {
                    Some(i) => if c[i] is None {
                        spec_coord_from(s, p, c.update(i, Some(t)), k + 1)
                    } else {
                        Ok((pos, c))
                    },
                    None => spec_coord_from(s, pos, c, k + 1),
                },
            }
        }
    }
}

/// Parse a coordinate.
pub open spec fn spec_coord(s: Seq<char>, pos: int) -> SResult<Seq<Option<Seq<char>>>> {
    spec_coord_from(s, pos, empty_coord(), 0)
}

/// The attempt at `pos` reads an axis word: blanks, an axis letter (either case), blanks and a
/// number. Its axis, the number's text and where the number ends.
pub open spec fn axis_word(s: Seq<char>, pos: int) -> Option<(int, Seq<char>, int)> {
    let q = blank_end(s, pos);
    if q < s.len() {
        match spec_float(s, blank_end(s, q + 1)) {
            Ok((p, t)) => match axis_index(upper(s[q])) {
                Some(k) => Some((k, t, p)),
                None => None,
            },
            _ => None,
        }
    } else {
        None
    }
}

/// The attempt at `pos` reads a `char` that is no axis letter, then a number.
pub open spec fn other_word(s: Seq<char>, pos: int) -> bool {
    let q = blank_end(s, pos);
    q < s.len() && spec_float(s, blank_end(s, q + 1)) is Ok && axis_index(upper(s[q])) is None
}

/// The number of axes set among the first `n`.
pub open spec fn count_set(c: Seq<Option<Seq<char>>>, n: int) -> int
    decreases n,
{
    if n <= 0 {
        0
    } else {
        count_set(c, n - 1) + if c[n - 1] is Some { 1int } else { 0int }
    }
}

proof fn lemma_count_update(c: Seq<Option<Seq<char>>>, i: int, t: Seq<char>, n: int)
    requires
        0 <= i < c.len(),
        c[i] is None,
        0 <= n <= c.len(),
    ensures
        count_set(c.update(i, Some(t)), n) == count_set(c, n) + if i < n { 1int } else { 0int },
    decreases n,
{
    if n > 0 {
        lemma_count_update(c, i, t, n - 1);
    }
}

proof fn lemma_count_full(c: Seq<Option<Seq<char>>>, n: int)
    requires
        0 <= n <= c.len(),
    ensures
        count_set(c, n) <= n,
        count_set(c, n) >= n ==> forall|i: int| 0 <= i < n ==> #[trigger] c[i] is Some,
    decreases n,
{
    if n > 0 {
        lemma_count_full(c, n - 1);
    }
}

/// A number read by [`spec_float`] ends after it starts and inside the input.
proof fn lemma_float(s: Seq<char>, pos: int)
    requires
        0 <= pos <= s.len(),
        s.len() <= usize::MAX,
    ensures
        spec_float(s, pos) matches Ok((p, _)) ==> pos < p <= s.len(),
{
    crate::number::lemma_recognize_float(s, pos);
}

/// The attempt at `j` reads an axis word for axis `k` with number `t`, ending by `to`.
pub open spec fn sets_axis(s: Seq<char>, j: int, k: int, t: Seq<char>, to: int) -> bool {
    axis_word(s, j) matches Some((kk, tt, e)) && kk == k && tt == t && e <= to
}

/// Every axis set in `c` was set by an axis word that starts at or after `from` and ends by `to`.
pub open spec fn witnessed(s: Seq<char>, c: Seq<Option<Seq<char>>>, from: int, to: int) -> bool {
    forall|k: int| 0 <= k < 9 && #[trigger] c[k] is Some ==> exists|j: int| from <= j < to && #[trigger] sets_axis(s, j, k, c[k]->Some_0, to)
}

proof fn lemma_coord_from(s: Seq<char>, pos0: int, pos: int, c: Seq<Option<Seq<char>>>, k: nat)
    requires
        0 <= pos0 <= pos <= s.len(),
        s.len() <= usize::MAX,
        c.len() == 9,
        k <= 9,
        witnessed(s, c, pos0, pos),
        count_set(c, 9) >= k || other_word(s, pos),
    ensures
        spec_coord_from(s, pos, c, k) matches Ok((p, d)) ==> {
            &&& pos <= p <= s.len()
            &&& d.len() == 9
            &&& d != empty_coord()
            &&& witnessed(s, d, pos0, p)
            &&& !(axis_word(s, p) matches Some((i, _, _)) && d[i] is None)
        },
        c != empty_coord() ==> !(spec_coord_from(s, pos, c, k) matches Err(Fail::Error(_))),
        c == empty_coord() && other_word(s, pos) ==> spec_coord_from(s, pos, c, k) is Err,
    decreases 9 - k,
{
    lemma_blank_end(s, pos);
    let q = blank_end(s, pos);
    if k >= 9 {
        lemma_count_full(c, 9);
        if let Some((i, _, _)) = axis_word(s, pos) {
            assert(!other_word(s, pos));
            assert(c[i] is Some);
        }
    } else if q < s.len() {
        lemma_blank_end(s, q + 1);
        let r = blank_end(s, q + 1);
        lemma_float(s, r);
        if let Ok((p, t)) = spec_float(s, r) {
            if let Some(i) = axis_index(upper(s[q])) {
                assert(axis_word(s, pos) == Some((i, t, p)));
                if c[i] is None {
                    let c2 = c.update(i, Some(t));
                    lemma_count_update(c, i, t, 9);
                    assert(!other_word(s, pos));
                    assert forall|kk: int| 0 <= kk < 9 && #[trigger] c2[kk] is Some implies exists|j: int| pos0 <= j < p && #[trigger] sets_axis(s, j, kk, c2[kk]->Some_0, p) by {
                        if kk == i {
                            assert(sets_axis(s, pos, kk, c2[kk]->Some_0, p));
                        } else {
                            assert(c[kk] == c2[kk]);
                            let j = choose|j: int| pos0 <= j < pos && #[trigger] sets_axis(s, j, kk, c[kk]->Some_0, pos);
                            assert(sets_axis(s, j, kk, c2[kk]->Some_0, p));
                        }
                    }
                    assert(c2 != empty_coord()) by {
                        assert(c2[i] is Some);
                        assert(empty_coord()[i] is None);
                    }
                    lemma_coord_from(s, pos0, p, c2, k + 1);
                } else {
                    assert(c != empty_coord()) by {
                        assert(empty_coord()[i] is None);
                    }
                }
            } else {
                assert(other_word(s, pos));
                lemma_coord_from(s, pos0, pos, c, k + 1);
            }
        }
    }
}

/// A coordinate is one to nine axis words, one per axis: every axis it sets takes the number
/// of an axis word read in the text it consumed, and it stops before an axis word for an axis it
/// already has or a word for no axis. What is left is a suffix of the input. It fails with a
/// recoverable error exactly when the input (after blanks) does not start with an axis word and
/// its number does not fail for good.
pub proof fn law_coord(s: Seq<char>, pos: int)
    requires
        0 <= pos <= s.len(),
        s.len() <= usize::MAX,
    ensures
        spec_coord(s, pos) matches Ok((p, c)) ==> {
            &&& pos < p <= s.len()
            &&& c != empty_coord()
            &&& witnessed(s, c, pos, p)
            &&& !(axis_word(s, p) matches Some((i, _, _)) && c[i] is None)
        },
        axis_word(s, pos) is Some ==> !(spec_coord(s, pos) matches Err(Fail::Error(_))),
        axis_word(s, pos) is None ==> spec_coord(s, pos) is Err,
{
    assert(witnessed(s, empty_coord(), pos, pos));
    assert(count_set(empty_coord(), 9) >= 0) by {
        lemma_count_full(empty_coord(), 9);
        assert(count_set(empty_coord(), 0) == 0);
        lemma_count_nonneg(empty_coord(), 9);
    }
    lemma_coord_from(s, pos, pos, empty_coord(), 0);
    lemma_blank_end(s, pos);
    let q = blank_end(s, pos);
    if let Ok((p, c)) = spec_coord(s, pos) {
        assert(exists|i: int| 0 <= i < 9 && #[trigger] c[i] is Some) by {
            if forall|i: int| 0 <= i < 9 ==> !(#[trigger] c[i] is Some) {
                assert(c =~= empty_coord());
            }
        }
        let i = choose|i: int| 0 <= i < 9 && #[trigger] c[i] is Some;
        let j = choose|j: int| pos <= j < p && #[trigger] sets_axis(s, j, i, c[i]->Some_0, p);
    }
    if q < s.len() {
        lemma_blank_end(s, q + 1);
        lemma_float(s, blank_end(s, q + 1));
        if let Ok((p, t)) = spec_float(s, blank_end(s, q + 1)) {
            if let Some(i) = axis_index(upper(s[q])) {
                assert(empty_coord()[i] is None);
                let c2 = empty_coord().update(i, Some(t));
                assert(c2 != empty_coord()) by {
                    assert(c2[i] is Some);
                }
                lemma_count_update(empty_coord(), i, t, 9);
                lemma_count_nonneg(empty_coord(), 9);
                assert forall|kk: int| 0 <= kk < 9 && #[trigger] c2[kk] is Some implies exists|j: int| pos <= j < p && #[trigger] sets_axis(s, j, kk, c2[kk]->Some_0, p) by {
                    assert(axis_word(s, pos) == Some((i, t, p)));
                    assert(kk == i);
                    assert(sets_axis(s, pos, kk, c2[kk]->Some_0, p));
                }
                lemma_coord_from(s, pos, p, c2, 1);
            }
        }
    }
}

proof fn lemma_count_nonneg(c: Seq<Option<Seq<char>>>, n: int)
    ensures
        count_set(c, n) >= 0,
    decreases n,
{
    if n > 0 {
        lemma_count_nonneg(c, n - 1);
    }
}

/// The axis values in the order `X Y Z A B C U V W`, with zero for an axis that is not set.
pub open spec fn axes_of(c: Seq<Option<Seq<char>>>) -> Seq<Seq<char>> {
    Seq::new(9, |i: int| match c[i] {
        Some(t) => t,
        None => zero_text(),
    })
}

/// Whether no axis of the coordinate is set.
fn is_unset(c: &Coord) -> (r: bool)
    ensures
        r == (c@ == empty_coord()),
{
    let r = c.x.is_none() && c.y.is_none() && c.z.is_none() && c.a.is_none() && c.b.is_none()
        && c.c.is_none() && c.u.is_none() && c.v.is_none() && c.w.is_none();
    if r {
        assert(c@ =~= empty_coord());
    } else {
        assert(c@ != empty_coord()) by {
            if c@ == empty_coord() {
                assert(c@[0] is None && c@[1] is None && c@[2] is None && c@[3] is None && c@[4] is None);
                assert(c@[5] is None && c@[6] is None && c@[7] is None && c@[8] is None);
            }
        }
    }
    r
}

impl Coord {
    /// Convert the coordinate into its nine axis values
    ///
    /// Any components that are `None` will be set to zero
    pub fn into_axes(self) -> (r: Vec<Number>)
        ensures
            axes_view(r@) == axes_of(self@),
    {
        let mut r: Vec<Number> = Vec::new();
        let mut i: usize = 0;
        while i < 9
            invariant
                i <= 9,
                axes_view(r@) =~= axes_of(self@).take(i as int),
            decreases 9 - i,
        {
            let v = match self.index(i) {
                Some(n) => n.duplicate(),
                None => {
                    let z = ['0'];
                    assert(z@.subrange(0, 1) =~= zero_text());
                    Number { text: string_of(&z, 0, 1) }
                },
            };
            let ghost before = r@;
            r.push(v);
            assert(axes_view(r@) =~= axes_view(before).push(v@));
            i = i + 1;
        }
        r
    }
}

/// Parse a coordinate; see [`spec_coord`].
pub fn coord(s: &[char], pos: usize) -> (r: PResult<Coord>)
    requires
        pos <= s@.len(),
    ensures
        agrees(r, spec_coord(s@, pos as int)),
{
    let n = s.len();
    let mut c = Coord::default();
    let mut input = pos;
    let mut k: usize = 0;
    while k < 9
        invariant
            k <= 9,
            input <= s@.len(),
            s@.len() == n,
            spec_coord_from(s@, input as int, c@, k as nat) == spec_coord(s@, pos as int),
        decreases 9 - k,
    {
        proof {
            lemma_blank_end(s@, input as int);
        }
        let q = skip_blanks(s, input);
        if q >= s.len() {
            if is_unset(&c) {
                return Err(Fail::Error(ParseError { position: q, kind: ErrorKind::Eof }));
            } else {
                return Ok((input, c));
            }
        }
        proof {
            lemma_blank_end(s@, q as int + 1);
        }
        let r = skip_blanks(s, q + 1);
        match float(s, r) {
            Err(Fail::Failure(e)) => {
                return Err(Fail::Failure(e));
            },
            Err(Fail::Error(e)) => {
                if is_unset(&c) {
                    return Err(Fail::Error(e));
                } else {
                    return Ok((input, c));
                }
            },
            Ok((p, t)) => {
                proof {
                    crate::number::lemma_recognize_float(s@, r as int);
                }
                match axis_of(to_upper(s[q])) {
                    Some(i) => {
                        if c.is_set(i) {
                            return Ok((input, c));
                        }
                        c.set(i, t);
                        input = p;
                    },
                    None => {},
                }
            },
        }
        k = k + 1;
    }
    if !is_unset(&c) {
        Ok((input, c))
    } else {
        Err(Fail::Error(ParseError { position: input, kind: ErrorKind::ManyMN }))
    }
}

} // verus!
