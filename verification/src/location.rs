//! Positions in the program text: byte offset, line and column.
use vstd::prelude::*;

verus! {

/// The number of bytes that `c` takes in UTF-8 (`char::len_utf8`).
pub open spec fn utf8_len(c: char) -> int {
    if (c as u32) < 0x80 {
        1
    } else if (c as u32) < 0x800 {
        2
    } else if (c as u32) < 0x10000 {
        3
    } else {
        4
    }
}

/// The byte offset of the `char` at index `pos`: the UTF-8 length of everything before it.
pub open spec fn byte_offset(s: Seq<char>, pos: int) -> int
    decreases pos,
{
    if pos <= 0 {
        0
    } else {
        byte_offset(s, pos - 1) + utf8_len(s[pos - 1])
    }
}

/// The 1-based line of index `pos`: one more than the number of `'\n'` before it.
pub open spec fn line_at(s: Seq<char>, pos: int) -> int
    decreases pos,
{
    if pos <= 0 {
        1
    } else if s[pos - 1] == '\n' {
        line_at(s, pos - 1) + 1
    } else {
        line_at(s, pos - 1)
    }
}

/// The 1-based column of index `pos`: one more than the number of `char`s between the last
/// `'\n'` before it (or the start) and it.
pub open spec fn column_at(s: Seq<char>, pos: int) -> int
    decreases pos,
{
    if pos <= 0 {
        1
    } else if s[pos - 1] == '\n' {
        1
    } else {
        column_at(s, pos - 1) + 1
    }
}

/// The program's size is within what the position counters hold: its UTF-8 length is below
/// `usize::MAX` and its line count at most `u32::MAX`.
pub open spec fn fits(s: Seq<char>) -> bool {
    byte_offset(s, s.len() as int) < usize::MAX && line_at(s, s.len() as int) <= u32::MAX
}

/// A span of text within the program
///
/// It does not hold a reference to the input.
#[derive(Debug, Clone, Copy, PartialEq, Eq)]
pub struct Location {
    /// Offset in bytes from the beginning of the input
    pub offset: usize,
    /// Line, 1-indexed
    pub line: u32,
    /// Column, 1-indexed, counted in `char`s
    pub column: usize,
}

/// The location of index `pos` of `s`.
pub open spec fn location_at(s: Seq<char>, pos: int) -> Location {
    Location {
        offset: byte_offset(s, pos) as usize,
        line: line_at(s, pos) as u32,
        column: column_at(s, pos) as usize,
    }
}

impl Location {
    pub fn new(offset: usize, line: u32, column: usize) -> (r: Self)
        ensures
            r.offset == offset,
            r.line == line,
            r.column == column,
    {
        Self { offset, line, column }
    }
}

/// The counters grow with the index, and the column never passes the byte offset plus one.
pub proof fn lemma_location_bounds(s: Seq<char>, p: int, q: int)
    requires
        0 <= p <= q <= s.len(),
    ensures
        byte_offset(s, p) <= byte_offset(s, q),
        1 <= line_at(s, p) <= line_at(s, q),
        p <= byte_offset(s, p),
        1 <= column_at(s, p) <= p + 1,
    decreases q,
{
    if q > p {
        lemma_location_bounds(s, p, q - 1);
    } else if p > 0 {
        lemma_location_bounds(s, p - 1, p - 1);
    }
}

/// `char::len_utf8`.
pub fn utf8_width(c: char) -> (r: usize)
    ensures
        r == utf8_len(c),
{
    let u = c as u32;
    if u < 0x80 {
        1
    } else if u < 0x800 {
        2
    } else if u < 0x10000 {
        3
    } else {
        4
    }
}

/// The location of index `to`, found by moving forward from the known location of `from`.
pub fn advance(s: &[char], from: usize, at: Location, to: usize) -> (r: Location)
    requires
        from <= to <= s@.len(),
        fits(s@),
        at == location_at(s@, from as int),
    ensures
        r == location_at(s@, to as int),
{
    let mut i = from;
    let mut offset = at.offset;
    let mut line = at.line;
    let mut column = at.column;
    proof {
        lemma_location_bounds(s@, from as int, s@.len() as int);
    }
    while i < to
        invariant
            from <= i <= to <= s@.len(),
            fits(s@),
            offset == byte_offset(s@, i as int),
            line == line_at(s@, i as int),
            column == column_at(s@, i as int),
        decreases to - i,
    {
        proof {
            lemma_location_bounds(s@, i + 1, s@.len() as int);
        }
        let c = s[i];
        offset = offset + utf8_width(c);
        if c == '\n' {
            line = line + 1;
            column = 1;
        } else {
            column = column + 1;
        }
        i = i + 1;
    }
    Location { offset, line, column }
}

/// The location of index `pos` of `s`.
pub fn location_of(s: &[char], pos: usize) -> (r: Location)
    requires
        pos <= s@.len(),
        fits(s@),
    ensures
        r == location_at(s@, pos as int),
{
    advance(s, 0, Location { offset: 0, line: 1, column: 1 }, pos)
}

/// Whether every location in `s` can be counted: see [`fits`].
pub fn chars_fit(s: &[char]) -> (r: bool)
    ensures
        r == fits(s@),
{
    let mut i: usize = 0;
    let mut offset: usize = 0;
    let mut line: u64 = 1;
    while i < s.len()
        invariant
            i <= s@.len(),
            offset == byte_offset(s@, i as int),
            line == line_at(s@, i as int),
            offset < usize::MAX,
            line <= u32::MAX,
        decreases s@.len() - i,
    {
        proof {
            lemma_location_bounds(s@, i + 1, s@.len() as int);
        }
        let c = s[i];
        let w = utf8_width(c);
        if w >= usize::MAX - offset {
            return false;
        }
        offset = offset + w;
        if c == '\n' {
            if line == 0xffff_ffffu64 {
                return false;
            }
            line = line + 1;
        }
        i = i + 1;
    }
    true
}

/// Whether every location in the text can be counted: see [`fits`].
pub fn text_fits(text: &str) -> (r: bool)
    ensures
        r == fits(text@),
{
    let s = crate::text::chars(text);
    chars_fit(&s)
}

} // verus!
