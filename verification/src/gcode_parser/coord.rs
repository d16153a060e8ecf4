//! Coordinates: up to one value for each of the nine axes `X Y Z A B C U V W`.
use crate::error::{agrees, err, ErrorKind, Fail, PResult, ParseError, SResult};
use crate::number::{lemma_recognize_float, recognize_float, spec_recognize_float, string_of, Number};
use crate::text::{blank_end, lemma_blank_end, skip_blanks, to_upper, upper};
use vstd::prelude::*;

verus! {

/// The view of an optional number.
pub open spec fn opt_view(o: Option<Number>) -> Option<Seq<char>> {
    match o {
        Some(n) => Some(n@),
        None => None,
    }
}

/// A copy of an optional number.
pub fn opt_duplicate(o: &Option<Number>) -> (r: Option<Number>)
    ensures
        opt_view(r) == opt_view(*o),
{
    match o {
        Some(n) => Some(n.duplicate()),
        None => None,
    }
}

#[derive(Debug, PartialEq, Clone)]
pub struct Coord {
    pub x: Option<Number>,
    pub y: Option<Number>,
    pub z: Option<Number>,
    pub a: Option<Number>,
    pub b: Option<Number>,
    pub c: Option<Number>,
    pub u: Option<Number>,
    pub v: Option<Number>,
    pub w: Option<Number>,
}

/// The nine axis values, in the order `X Y Z A B C U V W`.
impl View for Coord {
    type V = Seq<Option<Seq<char>>>;

    open spec fn view(&self) -> Seq<Option<Seq<char>>> {
        seq![
            opt_view(self.x),
            opt_view(self.y),
            opt_view(self.z),
            opt_view(self.a),
            opt_view(self.b),
            opt_view(self.c),
            opt_view(self.u),
            opt_view(self.v),
            opt_view(self.w),
        ]
    }
}

/// A coordinate with no axis set.
pub open spec fn empty_coord() -> Seq<Option<Seq<char>>> {
    Seq::new(9, |i: int| None)
}

/// The index of an axis letter (upper case) in `X Y Z A B C U V W`.
pub open spec fn axis_index(c: char) -> Option<int> {
    if c == 'X' {
        Some(0)
    } else if c == 'Y' {
        Some(1)
    } else if c == 'Z' {
        Some(2)
    } else if c == 'A' {
        Some(3)
    } else if c == 'B' {
        Some(4)
    } else if c == 'C' {
        Some(5)
    } else if c == 'U' {
        Some(6)
    } else if c == 'V' {
        Some(7)
    } else if c == 'W' {
        Some(8)
    } else {
        None
    }
}

impl Default for Coord {
    fn default() -> (r: Self)
        ensures
            r@ == empty_coord(),
    {
        let r = Coord { x: None, y: None, z: None, a: None, b: None, c: None, u: None, v: None, w: None };
        assert(r@ =~= empty_coord());
        r
    }
}

impl Coord {
    /// Create a coord where all components are `Some`
    pub fn all(x: Number, y: Number, z: Number, a: Number, b: Number, c: Number, u: Number, v: Number, w: Number) -> (r: Self)
        ensures
            r@ == seq![Some(x@), Some(y@), Some(z@), Some(a@), Some(b@), Some(c@), Some(u@), Some(v@), Some(w@)],
    {
        Self { x: Some(x), y: Some(y), z: Some(z), a: Some(a), b: Some(b), c: Some(c), u: Some(u), v: Some(v), w: Some(w) }
    }

    /// A coord with only `X` set.
    pub fn with_x(x: Number) -> (r: Self)
        ensures
            r@ == empty_coord().update(0, Some(x@)),
    {
        let r = Self { x: Some(x), ..Self::default() };
        assert(r@ =~= empty_coord().update(0, Some(x@)));
        r
    }

    /// A coord with only `X` and `Y` set.
    pub fn with_xy(x: Number, y: Number) -> (r: Self)
        ensures
            r@ == empty_coord().update(0, Some(x@)).update(1, Some(y@)),
    {
        let r = Self { x: Some(x), y: Some(y), ..Self::default() };
        assert(r@ =~= empty_coord().update(0, Some(x@)).update(1, Some(y@)));
        r
    }

    /// The value of axis `idx` (`X Y Z A B C U V W` are 0 to 8).
    pub fn index(&self, idx: usize) -> (r: &Option<Number>)
        requires
            idx < 9,
        ensures
            opt_view(*r) == self@[idx as int],
    {
        match idx {
            0 => &self.x,
            1 => &self.y,
            2 => &self.z,
            3 => &self.a,
            4 => &self.b,
            5 => &self.c,
            6 => &self.u,
            7 => &self.v,
            _ => &self.w,
        }
    }

    /// Whether axis `idx` has a value.
    pub fn is_set(&self, idx: usize) -> (r: bool)
        requires
            idx < 9,
        ensures
            r == (self@[idx as int] is Some),
    {
        self.index(idx).is_some()
    }

    /// Give axis `idx` the value `n`.
    pub fn set(&mut self, idx: usize, n: Number)
        requires
            idx < 9,
        ensures
            final(self)@ == old(self)@.update(idx as int, Some(n@)),
    {
        match idx {
            0 => self.x = Some(n),
            1 => self.y = Some(n),
            2 => self.z = Some(n),
            3 => self.a = Some(n),
            4 => self.b = Some(n),
            5 => self.c = Some(n),
            6 => self.u = Some(n),
            7 => self.v = Some(n),
            _ => self.w = Some(n),
        }
        assert(self@ =~= old(self)@.update(idx as int, Some(n@)));
    }

    /// A copy of the coordinate.
    pub fn duplicate(&self) -> (r: Self)
        ensures
            r@ == self@,
    {
        let r = Coord {
            x: opt_duplicate(&self.x),
            y: opt_duplicate(&self.y),
            z: opt_duplicate(&self.z),
            a: opt_duplicate(&self.a),
            b: opt_duplicate(&self.b),
            c: opt_duplicate(&self.c),
            u: opt_duplicate(&self.u),
            v: opt_duplicate(&self.v),
            w: opt_duplicate(&self.w),
        };
        assert(r@ =~= self@);
        r
    }
}

/// One axis word and the blanks after it: what trying a word for each of the letters
/// `X Y Z A B C U V W` in turn gives. The value is the axis index and the number's text.
pub open spec fn spec_axis_word(s: Seq<char>, pos: int) -> SResult<(int, Seq<char>)> {
    if pos >= s.len() {
        err(pos, ErrorKind::Eof)
    } else {
        let q = blank_end(s, pos + 1);
        match spec_recognize_float(s, q) {
            Err(e) => Err(e),
            Ok((r, _)) => match axis_index(upper(s[pos])) {
                Some(k) => Ok((blank_end(s, r), (k, s.subrange(q, r)))),
                None => err(pos, ErrorKind::Verify),
            },
        }
    }
}

/// The rest of a coordinate from `pos`, with the axes in `c` already set by `count` words.
///
/// A word for an axis that is already set ends the coordinate before that word; an error ends
/// it before the failing word, unless no word was read yet.
pub open spec fn spec_coord_from(s: Seq<char>, pos: int, c: Seq<Option<Seq<char>>>, count: nat) -> SResult<Seq<Option<Seq<char>>>>
    decreases s.len() - pos,
{
    match spec_axis_word(s, pos) {
        Ok((p, (k, t))) => if p <= pos || p > s.len() {
            Ok((p, c))
        } else if c[k] is Some {
            Ok((pos, c))
        } else {
            spec_coord_from(s, p, c.update(k, Some(t)), count + 1)
        },
        Err(Fail::Error(e)) => if count == 0 {
            Err(Fail::Error(e))
        } else {
            Ok((pos, c))
        },
        Err(Fail::Failure(e)) => Err(Fail::Failure(e)),
    }
}

/// A coordinate: axis words, each followed by blanks, each axis at most once.
pub open spec fn spec_coord(s: Seq<char>, pos: int) -> SResult<Seq<Option<Seq<char>>>> {
    spec_coord_from(s, pos, empty_coord(), 0)
}

pub proof fn lemma_axis_word(s: Seq<char>, pos: int)
    requires
        0 <= pos <= s.len(),
        s.len() <= usize::MAX,
    ensures
        spec_axis_word(s, pos) matches Ok((p, (k, _))) ==> pos + 2 <= p <= s.len() && 0 <= k < 9,
        spec_axis_word(s, pos) matches Err(Fail::Failure(e)) ==> e.position <= s.len(),
{
    if pos < s.len() {
        lemma_blank_end(s, pos + 1);
        let q = blank_end(s, pos + 1);
        lemma_recognize_float(s, q);
        if let Ok((r, _)) = spec_recognize_float(s, q) {
            lemma_blank_end(s, r);
        }
    }
}

pub fn axis_of(c: char) -> (r: Option<usize>)
    ensures
        match r {
            Some(k) => axis_index(c) == Some(k as int),
            None => axis_index(c).is_none(),
        },
{
    match c {
        'X' => Some(0),
        'Y' => Some(1),
        'Z' => Some(2),
        'A' => Some(3),
        'B' => Some(4),
        'C' => Some(5),
        'U' => Some(6),
        'V' => Some(7),
        'W' => Some(8),
        _ => None,
    }
}

fn axis_word(s: &[char], pos: usize) -> (r: PResult<(usize, Number)>)
    requires
        pos <= s@.len(),
    ensures
        match (r, spec_axis_word(s@, pos as int)) {
            (Ok((p, (k, n))), Ok((q, (j, t)))) => p == q && k == j && n@ == t,
            (Err(e), Err(f)) => e == f,
            _ => false,
        },
{
    if pos >= s.len() {
        return Err(Fail::Error(ParseError { position: pos, kind: ErrorKind::Eof }));
    }
    let q = skip_blanks(s, pos + 1);
    match recognize_float(s, q) {
        Err(e) => Err(e),
        Ok((r, _)) => {
            proof {
                lemma_recognize_float(s@, q as int);
            }
            match axis_of(to_upper(s[pos])) {
                Some(k) => {
                    let n = Number { text: string_of(s, q, r) };
                    Ok((skip_blanks(s, r), (k, n)))
                },
                None => Err(Fail::Error(ParseError { position: pos, kind: ErrorKind::Verify })),
            }
        },
    }
}

/// Parse a coordinate; see [`spec_coord`].
pub fn coord(s: &[char], pos: usize) -> (r: PResult<Coord>)
    requires
        pos <= s@.len(),
    ensures
        agrees(r, spec_coord(s@, pos as int)),
{
    let n = s.len();
    let mut i = pos;
    let mut matched_count: usize = 0;
    let mut c = Coord::default();
    loop
        invariant
            pos <= i <= s@.len(),
            2 * matched_count <= i - pos,
            s@.len() == n,
            spec_coord_from(s@, i as int, c@, matched_count as nat) == spec_coord(s@, pos as int),
            (matched_count == 0) == (c@ == empty_coord()),
        decreases s@.len() - i,
    {
        proof {
            lemma_axis_word(s@, i as int);
        }
        match axis_word(s, i) {
            Ok((i1, (k, n))) => {
                if i1 <= i || i1 > s.len() {
                    return Ok((i1, c));
                }
                if c.is_set(k) {
                    return Ok((i, c));
                }
                c.set(k, n);
                assert(c@[k as int] is Some);
                assert(c@ != empty_coord()) by {
                    assert(empty_coord()[k as int] is None);
                }
                matched_count = matched_count + 1;
                i = i1;
            },
            Err(Fail::Error(e)) => {
                if matched_count == 0 {
                    return Err(Fail::Error(e));
                } else {
                    return Ok((i, c));
                }
            },
            Err(Fail::Failure(e)) => {
                return Err(Fail::Failure(e));
            },
        }
    }
}

} // verus!

verus! {

/// A coordinate stays inside the input, and one that starts with no axis set consumes input.
pub proof fn lemma_coord_from(s: Seq<char>, pos: int, c: Seq<Option<Seq<char>>>, count: nat)
    requires
        0 <= pos <= s.len(),
        s.len() <= usize::MAX,
        count == 0 ==> c == empty_coord(),
    ensures
        spec_coord_from(s, pos, c, count) matches Ok((q, _)) ==> pos <= q <= s.len() && (count == 0 ==> pos < q),
        spec_coord_from(s, pos, c, count) matches Err(Fail::Failure(e)) ==> e.position <= s.len(),
    decreases s.len() - pos,
{
    lemma_axis_word(s, pos);
    if let Ok((p, (k, t))) = spec_axis_word(s, pos) {
        if !(p <= pos || p > s.len()) && !(c[k] is Some) {
            lemma_coord_from(s, p, c.update(k, Some(t)), count + 1);
        }
        if count == 0 {
            assert(empty_coord()[k] is None);
        }
    }
}

} // verus!
