//! Properties of the parser that hold for every input.
use crate::error::Fail;
use crate::gcode_parser::block::{spec_block, spec_tokens, BlockView};
use crate::gcode_parser::comment::{spec_comment, CommentType};
use crate::gcode_parser::plane_select::{spec_plane_select, PlaneSelect};
use crate::gcode_parser::coord::{empty_coord, spec_axis_word, spec_coord, spec_coord_from};
use crate::gcode_parser::token::{lemma_token_type, spec_token, spec_token_type, TokenTypeView, TokenView};
use crate::gcode_parser::word::spec_word;
use crate::number::{after_sign, all_digits, digits_value, ends_number, law_float_integer, law_float_leading_point, parse_unsigned, spec_recognize_float, Number, WordValue};
use crate::location::{byte_offset, fits, lemma_location_bounds, location_at};
use crate::text::{is_digit, blank_end, find_char, find_eol, is_whitespace, lemma_blank_end, lemma_find_char, lemma_find_eol, lemma_trimmed_ends, same_ignoring_case, upper};
use vstd::prelude::*;

verus! {

/// A word's letter is matched ignoring ASCII case: searching for `a` or for `b` gives the same
/// outcome when they differ only in case, and the parsed letter is the upper-case search letter.
pub proof fn law_word_ignores_case<V: WordValue>(s: Seq<char>, pos: int, a: char, b: char)
    requires
        same_ignoring_case(a, b),
    ensures
        spec_word::<V>(s, pos, a) == spec_word::<V>(s, pos, b),
        spec_word::<V>(s, pos, a) matches Ok((_, w)) ==> w.letter == upper(a),
{
}

/// Leading zeros do not change the value of an integer: `00`, `01` and `1` read the same.
pub proof fn law_leading_zeros(t: Seq<char>, max: nat)
    requires
        t.len() > 0,
        all_digits(t),
    ensures
        parse_unsigned(seq!['0'] + t, max) == parse_unsigned(t, max),
{
    lemma_leading_zero_value(t);
    let z = seq!['0'] + t;
    assert(z[0] == '0');
    assert(all_digits(z)) by {
        assert forall|i: int| 0 <= i < z.len() implies crate::text::is_digit(#[trigger] z[i]) by {
            if i > 0 {
                assert(z[i] == t[i - 1]);
            }
        }
    }
}

proof fn lemma_leading_zero_value(t: Seq<char>)
    ensures
        digits_value(seq!['0'] + t) == digits_value(t),
    decreases t.len(),
{
    if t.len() > 0 {
        lemma_leading_zero_value(t.drop_last());
        assert((seq!['0'] + t).drop_last() == seq!['0'] + t.drop_last());
        assert((seq!['0'] + t).last() == t.last());
        assert(digits_value(seq!['0'] + t) == digits_value(seq!['0'] + t.drop_last()) * 10 + crate::text::digit_value(t.last()));
    } else {
        assert(seq!['0'] + t == seq!['0']);
        assert(seq!['0'].drop_last() == Seq::<char>::empty());
        assert(digits_value(seq!['0']) == digits_value(Seq::<char>::empty()) * 10 + crate::text::digit_value('0'));
    }
}

/// A coordinate ends only at the end of what it can read: where the word after it is an axis
/// word, that axis is already set in the coordinate (the repeated axis starts the next one).
pub proof fn law_coord_stops_at_repeated_axis(s: Seq<char>, pos: int)
    requires
        0 <= pos <= s.len(),
        s.len() <= usize::MAX,
    ensures
        spec_coord(s, pos) matches Ok((p, c)) ==> (spec_axis_word(s, p) matches Ok((_, (k, _))) ==> c[k] is Some),
{
    lemma_coord_from_stops(s, pos, empty_coord(), 0);
}

proof fn lemma_coord_from_stops(s: Seq<char>, pos: int, c: Seq<Option<Seq<char>>>, count: nat)
    requires
        0 <= pos <= s.len(),
        s.len() <= usize::MAX,
        c.len() == 9,
    ensures
        spec_coord_from(s, pos, c, count) matches Ok((p, d)) ==> (spec_axis_word(s, p) matches Ok((_, (k, _))) ==> d[k] is Some),
    decreases s.len() - pos,
{
    crate::gcode_parser::coord::lemma_axis_word(s, pos);
    match spec_axis_word(s, pos) {
        Ok((p, (k, t))) => {
            if !(p <= pos || p > s.len()) && !(c[k] is Some) {
                lemma_coord_from_stops(s, p, c.update(k, Some(t)), count + 1);
            }
        },
        _ => {},
    }
}

/// The axis word at `j` is for axis `k` with number `t` and ends by `to`.
pub open spec fn sets_axis(s: Seq<char>, j: int, k: int, t: Seq<char>, to: int) -> bool {
    spec_axis_word(s, j) matches Ok((e, (kk, tt))) && kk == k && tt == t && e <= to
}

/// Every axis set in `c` was set by an axis word that starts at or after `from` and ends by `to`.
pub open spec fn witnessed(s: Seq<char>, c: Seq<Option<Seq<char>>>, from: int, to: int) -> bool {
    forall|k: int| 0 <= k < 9 && #[trigger] c[k] is Some ==> exists|j: int| from <= j < to && #[trigger] sets_axis(s, j, k, c[k]->Some_0, to)
}

proof fn lemma_coord_words(s: Seq<char>, pos0: int, pos: int, c: Seq<Option<Seq<char>>>, count: nat)
    requires
        0 <= pos0 <= pos <= s.len(),
        s.len() <= usize::MAX,
        c.len() == 9,
        witnessed(s, c, pos0, pos),
        count == 0 ==> c == empty_coord(),
        count > 0 ==> c != empty_coord(),
    ensures
        spec_coord_from(s, pos, c, count) matches Ok((p, d)) ==> {
            &&& pos <= p <= s.len()
            &&& d.len() == 9
            &&& d != empty_coord()
            &&& witnessed(s, d, pos0, p)
        },
        count > 0 ==> !(spec_coord_from(s, pos, c, count) matches Err(Fail::Error(_))),
    decreases s.len() - pos,
{
    crate::gcode_parser::coord::lemma_axis_word(s, pos);
    if let Ok((p, (k, t))) = spec_axis_word(s, pos) {
        if !(p <= pos || p > s.len()) && !(c[k] is Some) {
            let c2 = c.update(k, Some(t));
            assert forall|kk: int| 0 <= kk < 9 && #[trigger] c2[kk] is Some implies exists|j: int| pos0 <= j < p && #[trigger] sets_axis(s, j, kk, c2[kk]->Some_0, p) by {
                if kk == k {
                    assert(sets_axis(s, pos, kk, c2[kk]->Some_0, p));
                } else {
                    assert(c[kk] == c2[kk]);
                    let j = choose|j: int| pos0 <= j < pos && #[trigger] sets_axis(s, j, kk, c[kk]->Some_0, pos);
                    assert(sets_axis(s, j, kk, c2[kk]->Some_0, p));
                }
            }
            assert(c2 != empty_coord()) by {
                assert(c2[k] is Some);
                assert(empty_coord()[k] is None);
            }
            lemma_coord_words(s, pos0, p, c2, count + 1);
        } else if c[k] is Some {
            assert(c != empty_coord()) by {
                assert(empty_coord()[k] is None);
            }
        }
    }
}

/// A coordinate is axis words, at most one per axis: every axis it sets takes the number of an
/// axis word in the text it consumed, and it stops before an axis word for an axis it already
/// has (or where no axis word follows). What is left is a suffix of the input. It fails with a
/// recoverable error exactly when the input does not start with an axis word.
pub proof fn law_coord_words(s: Seq<char>, pos: int)
    requires
        0 <= pos <= s.len(),
        s.len() <= usize::MAX,
    ensures
        spec_coord(s, pos) matches Ok((p, c)) ==> {
            &&& pos < p <= s.len()
            &&& c != empty_coord()
            &&& witnessed(s, c, pos, p)
            &&& (spec_axis_word(s, p) matches Ok((_, (k, _))) ==> c[k] is Some)
        },
        (spec_coord(s, pos) matches Err(Fail::Error(_))) <==> (spec_axis_word(s, pos) matches Err(Fail::Error(_))),
{
    assert(witnessed(s, empty_coord(), pos, pos));
    lemma_coord_words(s, pos, pos, empty_coord(), 0);
    crate::gcode_parser::coord::lemma_coord_from(s, pos, empty_coord(), 0);
    law_coord_stops_at_repeated_axis(s, pos);
    crate::gcode_parser::coord::lemma_axis_word(s, pos);
    if let Ok((p, (k, t))) = spec_axis_word(s, pos) {
        assert(empty_coord()[k] is None);
        let c2 = empty_coord().update(k, Some(t));
        assert(c2 != empty_coord()) by {
            assert(c2[k] is Some);
        }
        assert forall|kk: int| 0 <= kk < 9 && #[trigger] c2[kk] is Some implies exists|j: int| pos <= j < p && #[trigger] sets_axis(s, j, kk, c2[kk]->Some_0, p) by {
            assert(kk == k);
            assert(sets_axis(s, pos, kk, c2[kk]->Some_0, p));
        }
        lemma_coord_words(s, pos, p, c2, 1);
    }
}

/// A block delete flag is set exactly when the block's first token is a block delete, and no
/// other token is one.
pub proof fn law_block_delete_first(s: Seq<char>, pos: int)
    requires
        0 <= pos <= s.len(),
    ensures
        spec_block(s, pos) matches Ok((_, b)) ==> {
            &&& b.block_delete <==> (b.tokens.len() > 0 && b.tokens[0].token is BlockDelete)
            &&& forall|i: int| 0 < i < b.tokens.len() ==> !(#[trigger] b.tokens[i].token is BlockDelete)
        },
{
    let p0 = blank_end(s, pos);
    lemma_blank_end(s, pos);
    let has_delete = p0 < s.len() && s[p0] == '/';
    let p1 = if has_delete { p0 + 1 } else { p0 };
    lemma_blank_end(s, p1);
    let p2 = blank_end(s, p1);
    let head: Seq<TokenView> = if has_delete {
        seq![TokenView { start_pos: location_at(s, p0), end_pos: location_at(s, p1), token: TokenTypeView::BlockDelete }]
    } else {
        seq![]
    };
    match spec_word::<u32>(s, p2, 'N') {
        Err(Fail::Failure(_)) => {},
        r => {
            let (p3, head2) = match r {
                Ok((p3, w)) => (p3, head.push(TokenView { start_pos: location_at(s, p2), end_pos: location_at(s, p3), token: TokenTypeView::LineNumber(w.value) })),
                _ => (p2, head),
            };
            lemma_tokens_keep_head(s, blank_end(s, p3), head2);
            if let Ok((_, ts)) = spec_tokens(s, blank_end(s, p3), head2) {
                assert forall|i: int| 0 <= i < head2.len() implies #[trigger] ts[i] == head2[i] by {
                    assert(ts.subrange(0, head2.len() as int)[i] == ts[i]);
                }
                assert(spec_block(s, pos) == Ok::<(int, BlockView), Fail>((spec_tokens(s, blank_end(s, p3), head2)->Ok_0.0, BlockView { block_delete: has_delete, tokens: ts })));
            }
        },
    }
}

/// The tokens read after `acc` keep `acc` in front, and none of those read is a block delete or
/// a line number.
proof fn lemma_tokens_keep_head(s: Seq<char>, pos: int, acc: Seq<TokenView>)
    ensures
        spec_tokens(s, pos, acc) matches Ok((_, ts)) ==> {
            &&& acc.len() <= ts.len()
            &&& ts.subrange(0, acc.len() as int) == acc
            &&& forall|i: int| acc.len() <= i < ts.len() ==> !(#[trigger] ts[i].token is BlockDelete)
            &&& forall|i: int| acc.len() <= i < ts.len() ==> !(#[trigger] ts[i].token is LineNumber)
        },
    decreases s.len() - pos,
{
    lemma_token_type_not_block_delete(s, pos);
    if let Ok((p, t)) = spec_token(s, pos) {
        let q = blank_end(s, p);
        if !(q <= pos || q > s.len()) {
            lemma_tokens_keep_head(s, q, acc.push(t));
            if let Ok((_, ts)) = spec_tokens(s, q, acc.push(t)) {
                assert(ts.subrange(0, acc.len() as int) == acc.push(t).subrange(0, acc.len() as int));
                assert(ts[acc.len() as int] == acc.push(t)[acc.len() as int]);
            }
        }
    }
}

/// No token kind read from the text is a block delete or a line number.
proof fn lemma_token_type_not_block_delete(s: Seq<char>, pos: int)
    ensures
        spec_token_type(s, pos) matches Ok((_, t)) ==> !(t is BlockDelete) && !(t is LineNumber),
{
}

/// Each token starts no later than it ends, and ends no later than any later token starts.
pub open spec fn spans_in_order(ts: Seq<TokenView>) -> bool {
    &&& forall|i: int| 0 <= i < ts.len() ==> #[trigger] ts[i].start_pos.offset <= ts[i].end_pos.offset
    &&& forall|i: int, j: int| #![trigger ts[i], ts[j]] 0 <= i < j < ts.len() ==> ts[i].end_pos.offset <= ts[j].start_pos.offset
}

/// The tokens read after `acc` are in text order, after those of `acc` (which end by `pos`).
proof fn lemma_tokens_in_order(s: Seq<char>, pos: int, acc: Seq<TokenView>)
    requires
        0 <= pos <= s.len(),
        fits(s),
        spans_in_order(acc),
        forall|i: int| 0 <= i < acc.len() ==> #[trigger] acc[i].end_pos.offset <= byte_offset(s, pos),
    ensures
        spec_tokens(s, pos, acc) matches Ok((_, ts)) ==> spans_in_order(ts),
    decreases s.len() - pos,
{
    lemma_location_bounds(s, s.len() as int, s.len() as int);
    lemma_location_bounds(s, pos, s.len() as int);
    lemma_token_type(s, pos);
    if let Ok((p, t)) = spec_token(s, pos) {
        let q = blank_end(s, p);
        lemma_blank_end(s, p);
        if !(q <= pos || q > s.len()) {
            lemma_location_bounds(s, pos, p);
            lemma_location_bounds(s, p, q);
            lemma_location_bounds(s, q, s.len() as int);
            let acc2 = acc.push(t);
            assert(t.start_pos.offset == byte_offset(s, pos));
            assert(t.end_pos.offset == byte_offset(s, p));
            assert forall|i: int| 0 <= i < acc2.len() implies #[trigger] acc2[i].end_pos.offset <= byte_offset(s, q) by {
                if i < acc.len() {
                    assert(acc2[i] == acc[i]);
                }
            }
            assert forall|i: int, j: int| #![trigger acc2[i], acc2[j]] 0 <= i < j < acc2.len() implies acc2[i].end_pos.offset <= acc2[j].start_pos.offset by {
                assert(acc2[i] == acc[i]);
                if j < acc.len() {
                    assert(acc2[j] == acc[j]);
                    assert(acc[i].end_pos.offset <= acc[j].start_pos.offset);
                }
            }
            assert forall|i: int| 0 <= i < acc2.len() implies #[trigger] acc2[i].start_pos.offset <= acc2[i].end_pos.offset by {
                if i < acc.len() {
                    assert(acc2[i] == acc[i]);
                }
            }
            lemma_tokens_in_order(s, q, acc2);
        }
    }
}

/// A block either parses or fails for good (a number's exponent with no digits, as in `X1e`);
/// never with a recoverable error. Of its tokens, a line number can only come first, or
/// second after a block delete, so there is at most one; and the tokens are in text order.
pub proof fn law_block_tokens(s: Seq<char>, pos: int)
    requires
        0 <= pos <= s.len(),
        fits(s),
    ensures
        !(spec_block(s, pos) matches Err(Fail::Error(_))),
        spec_block(s, pos) matches Ok((_, b)) ==> {
            &&& forall|i: int| 0 <= i < b.tokens.len() && (#[trigger] b.tokens[i].token is LineNumber) ==> i == if b.block_delete { 1int } else { 0int }
            &&& spans_in_order(b.tokens)
        },
{
    lemma_location_bounds(s, s.len() as int, s.len() as int);
    lemma_location_bounds(s, 0, s.len() as int);
    crate::gcode_parser::program::lemma_block(s, pos);
    let p0 = blank_end(s, pos);
    lemma_blank_end(s, pos);
    let has_delete = p0 < s.len() && s[p0] == '/';
    let p1 = if has_delete { p0 + 1 } else { p0 };
    lemma_blank_end(s, p1);
    let p2 = blank_end(s, p1);
    crate::gcode_parser::word::lemma_word::<u32>(s, p2, 'N');
    let head: Seq<TokenView> = if has_delete {
        seq![TokenView { start_pos: location_at(s, p0), end_pos: location_at(s, p1), token: TokenTypeView::BlockDelete }]
    } else {
        seq![]
    };
    lemma_location_bounds(s, p0, p1);
    lemma_location_bounds(s, p1, p2);
    lemma_location_bounds(s, p2, s.len() as int);
    match spec_word::<u32>(s, p2, 'N') {
        Err(Fail::Failure(_)) => {},
        r => {
            let (p3, head2) = match r {
                Ok((p3, w)) => (p3, head.push(TokenView { start_pos: location_at(s, p2), end_pos: location_at(s, p3), token: TokenTypeView::LineNumber(w.value) })),
                _ => (p2, head),
            };
            lemma_blank_end(s, p3);
            lemma_location_bounds(s, p2, p3);
            lemma_location_bounds(s, p3, blank_end(s, p3));
            lemma_location_bounds(s, blank_end(s, p3), s.len() as int);
            assert(spans_in_order(head2));
            assert forall|i: int| 0 <= i < head2.len() implies #[trigger] head2[i].end_pos.offset <= byte_offset(s, blank_end(s, p3)) by {}
            lemma_tokens_keep_head(s, blank_end(s, p3), head2);
            lemma_tokens_in_order(s, blank_end(s, p3), head2);
            if let Ok((_, ts)) = spec_tokens(s, blank_end(s, p3), head2) {
                assert forall|i: int| 0 <= i < head2.len() implies #[trigger] ts[i] == head2[i] by {
                    assert(ts.subrange(0, head2.len() as int)[i] == ts[i]);
                }
            }
        },
    }
}

/// The text of a comment is trimmed: it neither starts nor ends with whitespace.
pub proof fn law_comment_trimmed(s: Seq<char>, pos: int)
    requires
        0 <= pos <= s.len(),
    ensures
        spec_comment(s, pos) matches Ok((_, c)) ==> (c.text.len() > 0 ==> !is_whitespace(c.text[0]) && !is_whitespace(c.text.last())),
{
    if pos < s.len() {
        lemma_find_char(s, pos + 1, ')');
        lemma_find_eol(s, pos + 1);
        let e = find_char(s, pos + 1, ')');
        if e < s.len() {
            lemma_trimmed_ends(s, pos + 1, e);
        }
        lemma_trimmed_ends(s, pos + 1, find_eol(s, pos + 1));
    }
}

/// A word whose number starts with a point: the letter (`c` in either case), `.`, then digits up
/// to `d`, followed by the end of the input or a `char` that is not a digit or an exponent
/// marker, is read through `d`, its value being the text from the point (`X.5` reads as `X`
/// with `.5`).
pub proof fn law_word_leading_point(s: Seq<char>, pos: int, c: char, d: int)
    requires
        0 <= pos,
        pos + 2 < d <= s.len(),
        same_ignoring_case(s[pos], c),
        s[pos + 1] == '.',
        forall|k: int| pos + 2 <= k < d ==> is_digit(#[trigger] s[k]),
        d == s.len() || (!is_digit(s[d]) && s[d] != 'e' && s[d] != 'E'),
    ensures
        spec_word::<Number>(s, pos, c) == Ok::<(int, crate::gcode_parser::word::Word<Seq<char>>), Fail>((d, crate::gcode_parser::word::Word { letter: upper(s[pos]), value: s.subrange(pos + 1, d) })),
{
    assert(blank_end(s, pos + 1) == pos + 1);
    assert(after_sign(s, pos + 1) == pos + 1);
    law_float_leading_point(s, pos + 1, d);
}

/// The plane that the `G` code at `pos` selects, given by its digits: `G17` XY, `G18` ZX,
/// `G19` YZ, each followed by the end of the input or a `char` that cannot continue a number;
/// `G17.1` UV, `G18.1` WU, `G19.1` VW, each followed by the end of the input or a `char` that is
/// not a digit or an exponent marker. The letter may be `G` or `g`.
pub proof fn law_plane_select_codes(s: Seq<char>, pos: int)
    requires
        0 <= pos,
        pos + 3 <= s.len(),
        s[pos] == 'G' || s[pos] == 'g',
        s[pos + 1] == '1',
        s[pos + 2] == '7' || s[pos + 2] == '8' || s[pos + 2] == '9',
    ensures
        pos + 3 == s.len() || ends_number(s[pos + 3]) ==> spec_plane_select(s, pos) == Ok::<(int, PlaneSelect), Fail>((pos + 3,
            if s[pos + 2] == '7' { PlaneSelect::XY } else if s[pos + 2] == '8' { PlaneSelect::ZX } else { PlaneSelect::YZ })),
        pos + 5 <= s.len() && s[pos + 3] == '.' && s[pos + 4] == '1' && (pos + 5 == s.len() || (!is_digit(s[pos + 5]) && s[pos + 5] != 'e' && s[pos + 5] != 'E'))
            ==> spec_plane_select(s, pos) == Ok::<(int, PlaneSelect), Fail>((pos + 5,
            if s[pos + 2] == '7' { PlaneSelect::UV } else if s[pos + 2] == '8' { PlaneSelect::WU } else { PlaneSelect::VW })),
{
    assert(blank_end(s, pos + 1) == pos + 1);
    assert(after_sign(s, pos + 1) == pos + 1);
    assert(same_ignoring_case(s[pos], 'G'));
    if pos + 3 == s.len() || ends_number(s[pos + 3]) {
        law_float_integer(s, pos + 1, pos + 3);
        let t = s.subrange(pos + 1, pos + 3);
        assert(t[0] == '1' && t[1] == s[pos + 2]);
    }
    if pos + 5 <= s.len() && s[pos + 3] == '.' && s[pos + 4] == '1' && (pos + 5 == s.len() || (!is_digit(s[pos + 5]) && s[pos + 5] != 'e' && s[pos + 5] != 'E')) {
        crate::number::law_float_fraction(s, pos + 1, pos + 3, pos + 5);
        let t = s.subrange(pos + 1, pos + 5);
        assert(t[0] == '1' && t[1] == s[pos + 2] && t[2] == '.' && t[3] == '1');
    }
}

/// The axis of an axis letter, in either case: `X Y Z A B C U V W` are 0 to 8.
pub open spec fn axis_of_letter(c: char) -> Option<int> {
    if c == 'X' || c == 'x' {
        Some(0)
    } else if c == 'Y' || c == 'y' {
        Some(1)
    } else if c == 'Z' || c == 'z' {
        Some(2)
    } else if c == 'A' || c == 'a' {
        Some(3)
    } else if c == 'B' || c == 'b' {
        Some(4)
    } else if c == 'C' || c == 'c' {
        Some(5)
    } else if c == 'U' || c == 'u' {
        Some(6)
    } else if c == 'V' || c == 'v' {
        Some(7)
    } else if c == 'W' || c == 'w' {
        Some(8)
    } else {
        None
    }
}

/// An axis word is an axis letter in either case, blanks, then a number (and the blanks after
/// it): it gives the letter's axis and the number's text. Any other `char` before a number is no
/// axis word.
pub proof fn law_axis_letters_any_case(s: Seq<char>, pos: int)
    requires
        0 <= pos < s.len(),
    ensures
        spec_recognize_float(s, blank_end(s, pos + 1)) matches Ok((r, _)) ==> match axis_of_letter(s[pos]) {
            Some(k) => spec_axis_word(s, pos) == Ok::<(int, (int, Seq<char>)), Fail>((blank_end(s, r), (k, s.subrange(blank_end(s, pos + 1), r)))),
            None => spec_axis_word(s, pos) is Err,
        },
{
    let c = s[pos];
    assert(crate::gcode_parser::coord::axis_index(upper(c)) == axis_of_letter(c)) by {
        if crate::text::is_lower(c) {
            assert(upper(c) == ((c as u32 - 32) as char));
        }
    }
}

/// What a coordinate already has, it keeps.
proof fn lemma_coord_keeps(s: Seq<char>, pos: int, c: Seq<Option<Seq<char>>>, count: nat)
    requires
        0 <= pos <= s.len(),
        s.len() <= usize::MAX,
        c.len() == 9,
    ensures
        spec_coord_from(s, pos, c, count) matches Ok((_, d)) ==> forall|i: int| 0 <= i < 9 && #[trigger] c[i] is Some ==> d[i] == c[i],
    decreases s.len() - pos,
{
    crate::gcode_parser::coord::lemma_axis_word(s, pos);
    if let Ok((p, (k, t))) = spec_axis_word(s, pos) {
        if !(p <= pos || p > s.len()) && !(c[k] is Some) {
            lemma_coord_keeps(s, p, c.update(k, Some(t)), count + 1);
            if let Ok((_, d)) = spec_coord_from(s, p, c.update(k, Some(t)), count + 1) {
                assert forall|i: int| 0 <= i < 9 && #[trigger] c[i] is Some implies d[i] == c[i] by {
                    assert(c.update(k, Some(t))[i] == c[i]);
                }
            }
        }
    }
}

/// A coordinate that starts with an axis letter in either case and a number sets that axis to
/// that number's text, and never fails with a recoverable error (`x1 y2` reads as `X1 Y2`).
pub proof fn law_coord_first_axis_any_case(s: Seq<char>, pos: int)
    requires
        0 <= pos < s.len(),
        s.len() <= usize::MAX,
    ensures
        spec_recognize_float(s, blank_end(s, pos + 1)) matches Ok((r, _)) ==> match axis_of_letter(s[pos]) {
            Some(k) => {
                &&& !(spec_coord(s, pos) matches Err(Fail::Error(_)))
                &&& spec_coord(s, pos) matches Ok((_, c)) ==> c[k] == Some(s.subrange(blank_end(s, pos + 1), r))
            },
            None => true,
        },
{
    law_axis_letters_any_case(s, pos);
    law_coord_words(s, pos);
    crate::gcode_parser::coord::lemma_axis_word(s, pos);
    if let Ok((p, (k, t))) = spec_axis_word(s, pos) {
        assert(empty_coord()[k] is None);
        let c2 = empty_coord().update(k, Some(t));
        lemma_coord_keeps(s, p, c2, 1);
        assert(c2[k] is Some);
    }
}

/// A `;` comment ends at the first line break: the position after it is the end of the input or
/// a `'\r'` or `'\n'`, and no line break lies between; the line break is left for what follows.
pub proof fn law_line_comment_stops_at_line_break(s: Seq<char>, pos: int)
    requires
        0 <= pos < s.len(),
        s[pos] == ';',
    ensures
        spec_comment(s, pos) matches Ok((p, c)) ==> {
            &&& pos < p <= s.len()
            &&& p < s.len() ==> (s[p] == '\n' || s[p] == '\r')
            &&& forall|j: int| pos <= j < p ==> #[trigger] s[j] != '\n' && s[j] != '\r'
            &&& c.comment_type == CommentType::LineEnd
        },
        !(spec_comment(s, pos) matches Err(Fail::Failure(_))),
{
    lemma_find_eol(s, pos + 1);
}

} // verus!
