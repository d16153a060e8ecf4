use gcode::error::{ErrorKind, Fail, ParseError};
use gcode::clean_slate::const_generics_spanned;
use gcode::clean_slate::const_generics_test::{literal, recognise_word, recognise_word_decimal};
use gcode::clean_slate::block::Block;
use gcode::clean_slate::parse_modal;
use gcode::clean_slate::parse_modal_spans;
use gcode::clean_slate::program::Program;
use gcode::clean_slate::spanned_word::{Comment, CommentKind, Motion, NonModal, Word};
use gcode::number::Number;
use gcode::text::chars;
use std::time::Duration;

fn seconds(n: &Number) -> f32 {
    n.as_str().parse::<f32>().unwrap()
}

#[test]
fn const_generics_test_const_generics_int_word() {
    assert!(recognise_word('G', 0, &chars("G0"), 0).is_ok());
    assert!(recognise_word('G', 0, &chars("G00"), 0).is_ok());
    assert!(recognise_word('G', 0, &chars("g00"), 0).is_ok());
    assert!(recognise_word('G', 0, &chars("g0"), 0).is_ok());
    assert!(recognise_word('G', 0, &chars("g01"), 0).is_err());

    assert!(recognise_word('G', 4, &chars("G04"), 0).is_ok());
    assert!(recognise_word('G', 4, &chars("G4"), 0).is_ok());
}

#[test]
fn const_generics_test_const_generics_decimal_word() {
    assert!(recognise_word_decimal('G', 17, 1, &chars("G17.1"), 0).is_ok());
    assert!(recognise_word_decimal('G', 17, 1, &chars("g17.1"), 0).is_ok());
    assert!(recognise_word_decimal('G', 17, 1, &chars("g17 . 1"), 0).is_ok());
    assert!(recognise_word_decimal('G', 17, 1, &chars("g   17   .    1"), 0).is_ok());

    assert!(recognise_word_decimal('G', 17, 1, &chars("M17.1"), 0).is_err());
    assert!(recognise_word_decimal('G', 17, 1, &chars("M17"), 0).is_err());
    assert!(recognise_word_decimal('G', 17, 1, &chars("M17."), 0).is_err());
    assert!(recognise_word_decimal('G', 17, 1, &chars("M17.2"), 0).is_err());
    assert!(recognise_word_decimal('G', 17, 1, &chars("M17.1"), 0).is_err());
}

#[test]
fn const_generics_test_literals() {
    let input = chars("p 0.005");
    let (p, n) = literal('P', &input, 0).unwrap();
    assert_eq!(p, input.len());
    assert_eq!(n.as_str().parse::<f32>().unwrap(), 0.005f32);

    // Decimals with spaces in them are not supported.
    let input = chars("p 0 . 005");
    let all_consumed = match literal('P', &input, 0) {
        Ok((p, _)) => p == input.len(),
        Err(_) => false,
    };
    assert!(!all_consumed);
}

#[test]
fn const_generics_spanned_const_generics_int_word() {
    assert!(const_generics_spanned::recognise_word('G', 0, &chars("G0"), 0).is_ok());
    assert!(const_generics_spanned::recognise_word('G', 0, &chars("G00"), 0).is_ok());
    assert!(const_generics_spanned::recognise_word('G', 0, &chars("g00"), 0).is_ok());
    assert!(const_generics_spanned::recognise_word('G', 0, &chars("g0"), 0).is_ok());
    assert!(const_generics_spanned::recognise_word('G', 0, &chars("g01"), 0).is_err());

    assert!(const_generics_spanned::recognise_word('G', 4, &chars("G04"), 0).is_ok());
    assert!(const_generics_spanned::recognise_word('G', 4, &chars("G4"), 0).is_ok());
}

#[test]
fn const_generics_spanned_const_generics_decimal_word() {
    assert!(const_generics_spanned::recognise_word_decimal('G', 17, 1, &chars("G17.1"), 0).is_ok());
    assert!(const_generics_spanned::recognise_word_decimal('G', 17, 1, &chars("g17.1"), 0).is_ok());
    assert!(const_generics_spanned::recognise_word_decimal('G', 17, 1, &chars("g17 . 1"), 0).is_ok());
    assert!(const_generics_spanned::recognise_word_decimal('G', 17, 1, &chars("g   17   .    1"), 0).is_ok());

    assert!(const_generics_spanned::recognise_word_decimal('G', 17, 1, &chars("M17.1"), 0).is_err());
    assert!(const_generics_spanned::recognise_word_decimal('G', 17, 1, &chars("M17"), 0).is_err());
    assert!(const_generics_spanned::recognise_word_decimal('G', 17, 1, &chars("M17."), 0).is_err());
    assert!(const_generics_spanned::recognise_word_decimal('G', 17, 1, &chars("M17.2"), 0).is_err());
    assert!(const_generics_spanned::recognise_word_decimal('G', 17, 1, &chars("M17.1"), 0).is_err());
}

#[test]
fn const_generics_spanned_literals() {
    let input = chars("p 0.005");
    let (p, n) = const_generics_spanned::literal('P', &input, 0).unwrap();
    assert_eq!(p, 7);
    assert_eq!(n.as_str().parse::<f32>().unwrap(), 0.005f32);

    // Decimals with spaces in them are not supported.
    let input = chars("p 0 . 005");
    let all_consumed = match const_generics_spanned::literal('P', &input, 0) {
        Ok((p, _)) => p == input.len(),
        Err(_) => false,
    };
    assert!(!all_consumed);
}

#[test]
fn spanned_word_snapshot_motion() {
    assert_eq!(Motion::parse(&chars("G0"), 0), Ok((2, Motion::Rapid)));
}

#[test]
fn spanned_word_snapshot_non_modal() {
    let (p, m) = NonModal::parse(&chars("G4 P0.1"), 0).unwrap();
    assert_eq!(p, 7);
    let NonModal::Dwell { duration } = m;
    assert_eq!(seconds(&duration), 0.1f32);
    assert_eq!(duration.as_str(), "0.1");
}

#[test]
fn position() {
    let (p, w) = Word::parse(&chars("G4 P0.1"), 0).unwrap();
    assert_eq!(p, 7);
    match w {
        Word::NonModal(NonModal::Dwell { duration }) => assert_eq!(seconds(&duration), 0.1f32),
        other => panic!("unexpected word {:?}", other),
    }
}

#[test]
fn block_comment() {
    let (p, c) = Comment::parse(&chars("; absolute magic"), 0).unwrap();
    assert_eq!(p, 16);
    assert_eq!(c.kind, CommentKind::Block);
    assert_eq!(c.comment, " absolute magic");
}

#[test]
fn inline_comment() {
    let (p, c) = Comment::parse(&chars("(inline comment) G0"), 0).unwrap();
    assert_eq!(p, 16);
    assert_eq!(c.kind, CommentKind::Inline);
    assert_eq!(c.comment, "inline comment");
}

#[test]
fn unclosed_comment_is_a_char_error() {
    let e = Comment::parse(&chars("(no end"), 0).unwrap_err();
    assert_eq!(e, Fail::Error(ParseError { position: 0, kind: ErrorKind::Char }));
}

#[test]
fn block_newline() {
    let input = chars("G0 G4 P2.5 ; line comment");
    let (p, block) = Block::parse(&input, 0).unwrap();
    assert_eq!(p, input.len());
    let words = block.words();
    assert_eq!(words.len(), 3);
    assert_eq!(words[0].item, Word::Motion(Motion::Rapid));
    assert_eq!((words[0].start.offset, words[0].end.offset), (0, 2));
    match &words[1].item {
        Word::NonModal(NonModal::Dwell { duration }) => assert_eq!(seconds(duration), 2.5f32),
        other => panic!("unexpected word {:?}", other),
    }
    assert_eq!((words[1].start.offset, words[1].end.offset), (3, 10));
    assert_eq!(words[2].item, Word::Comment(Comment { kind: CommentKind::Block, comment: " line comment".to_string() }));
    assert_eq!((words[2].start.offset, words[2].end.offset), (11, 25));
    assert_eq!((words[2].start.line, words[2].start.column), (1, 12));
}

#[test]
fn block_stops_before_unknown_word() {
    let input = chars("G0  M3");
    let (p, block) = Block::parse(&input, 0).unwrap();
    assert_eq!(p, 2);
    assert_eq!(block.words().len(), 1);
}

#[test]
fn program_newline() {
    let program = r#"(begin)
        G0
        G4 P2.5
        G0
        ;end"#;
    let input = chars(program);
    let (p, parsed) = Program::parse(&input, 0).unwrap();
    assert_eq!(p, input.len());
    let blocks = parsed.blocks();
    assert_eq!(blocks.len(), 5);
    assert_eq!(blocks[0].words()[0].item, Word::Comment(Comment { kind: CommentKind::Inline, comment: "begin".to_string() }));
    assert_eq!(blocks[1].words()[0].item, Word::Motion(Motion::Rapid));
    assert_eq!((blocks[1].words()[0].start.line, blocks[1].words()[0].start.column), (2, 9));
    match &blocks[2].words()[0].item {
        Word::NonModal(NonModal::Dwell { duration }) => assert_eq!(seconds(duration), 2.5f32),
        other => panic!("unexpected word {:?}", other),
    }
    assert_eq!(blocks[3].words()[0].item, Word::Motion(Motion::Rapid));
    assert_eq!(blocks[4].words()[0].item, Word::Comment(Comment { kind: CommentKind::Block, comment: "end".to_string() }));
}

#[test]
fn program_must_consume_everything() {
    let input = chars("G0\nM3");
    let e = Program::parse(&input, 0).unwrap_err();
    assert_eq!(e, Fail::Error(ParseError { position: 3, kind: ErrorKind::Eof }));
}

#[test]
fn parse_modal_snapshot_motion() {
    assert_eq!(parse_modal::Motion::parse(&chars("G0"), 0), Ok((2, parse_modal::Motion::Rapid)));
}

#[test]
fn parse_modal_snapshot_non_modal() {
    let (p, parse_modal::NonModal::Dwell { duration }) = parse_modal::NonModal::parse(&chars("G4 P0.1"), 0).unwrap();
    assert_eq!(p, 7);
    assert_eq!(seconds(&duration), 0.1f32);
}

#[test]
fn motion() {
    let input = chars("G0");
    assert_eq!(parse_modal_spans::Motion::parse(&input, 0), Ok((input.len(), parse_modal_spans::Motion::Rapid)));
}

#[test]
fn non_modal() {
    let input = chars("G4 P0.1");
    let (p, parse_modal_spans::NonModal::Dwell { duration }) = parse_modal_spans::NonModal::parse(&input, 0).unwrap();
    assert_eq!(p, input.len());
    let exact: f64 = duration.as_str().parse().unwrap();
    assert_eq!(Duration::from_secs_f64(exact), Duration::from_millis(100));
}

#[test]
fn spanned_word_locations() {
    let input = chars("G0\n  G4 P1");
    let w = Word::parse_spanned(&input, 5).unwrap().1;
    assert_eq!((w.start.offset, w.start.line, w.start.column), (5, 2, 3));
    assert_eq!((w.end.offset, w.end.line, w.end.column), (10, 2, 8));
    assert!(matches!(w.item, Word::NonModal(_)));
}

#[test]
fn word_error_kinds() {
    assert_eq!(recognise_word('G', 0, &chars("G300"), 0), Err(Fail::Error(ParseError { position: 1, kind: ErrorKind::MapOpt })));
    assert_eq!(recognise_word('G', 0, &chars("G1"), 0), Err(Fail::Error(ParseError { position: 1, kind: ErrorKind::Verify })));
    assert_eq!(recognise_word('G', 0, &chars("M0"), 0), Err(Fail::Error(ParseError { position: 0, kind: ErrorKind::Verify })));
    assert_eq!(recognise_word('G', 0, &chars(""), 0), Err(Fail::Error(ParseError { position: 0, kind: ErrorKind::Eof })));
    assert_eq!(recognise_word('G', 0, &chars("G"), 0), Err(Fail::Error(ParseError { position: 1, kind: ErrorKind::Digit })));
    assert_eq!(const_generics_spanned::recognise_word('G', 0, &chars("M0"), 0), Err(Fail::Error(ParseError { position: 0, kind: ErrorKind::Satisfy })));
    assert_eq!(const_generics_spanned::recognise_word('G', 0, &chars(""), 0), Err(Fail::Error(ParseError { position: 0, kind: ErrorKind::Satisfy })));
    assert_eq!(recognise_word_decimal('G', 17, 1, &chars("G17"), 0), Err(Fail::Error(ParseError { position: 3, kind: ErrorKind::Char })));
}
