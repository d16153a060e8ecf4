use gcode::gcode_interpreter::{can_apply, GcodeInterpreter, State};
use gcode::gcode_parser::motion::Motion;
use gcode::gcode_parser::program::GcodeProgram;
use gcode::path_viewer::path_lines;

fn axis_values(s: &State) -> Vec<f32> {
    s.next_position.iter().map(|n| n.as_str().parse::<f32>().unwrap()).collect()
}

fn expect(r: Option<Result<State, String>>, motion: Motion, pos: [f32; 9]) {
    let s = r.expect("a block").expect("a state");
    assert_eq!(s.motion, motion);
    assert_eq!(axis_values(&s), pos.to_vec());
}

#[test]
fn lib_rapid() {
    let program = GcodeProgram::from_str("G0").unwrap();

    let interp = GcodeInterpreter::new(&program);

    let mut blocks = interp.block_iter();

    let default = State::default();
    let s = blocks.next().unwrap().unwrap();
    assert_eq!(s.motion, Motion::Rapid);
    assert_eq!(axis_values(&s), axis_values(&default));
    assert!(blocks.next().is_none());
}

#[test]
fn do_some_moves() {
    let program = GcodeProgram::from_str(
        r#"G0 X0 Y0 Z0
            X10 Y20 Z30
            Z10
            G1 Z-2
            X0 Y0
            Z5
            G0 Z30"#,
    )
    .unwrap();

    let interp = GcodeInterpreter::new(&program);

    let mut blocks = interp.block_iter();

    expect(blocks.next(), Motion::Rapid, [0.0; 9]);
    expect(blocks.next(), Motion::Rapid, [10.0, 20.0, 30.0, 0.0, 0.0, 0.0, 0.0, 0.0, 0.0]);
    expect(blocks.next(), Motion::Rapid, [10.0, 20.0, 10.0, 0.0, 0.0, 0.0, 0.0, 0.0, 0.0]);
    expect(blocks.next(), Motion::Feed, [10.0, 20.0, -2.0, 0.0, 0.0, 0.0, 0.0, 0.0, 0.0]);
    expect(blocks.next(), Motion::Feed, [0.0, 0.0, -2.0, 0.0, 0.0, 0.0, 0.0, 0.0, 0.0]);
    expect(blocks.next(), Motion::Feed, [0.0, 0.0, 5.0, 0.0, 0.0, 0.0, 0.0, 0.0, 0.0]);
    expect(blocks.next(), Motion::Rapid, [0.0, 0.0, 30.0, 0.0, 0.0, 0.0, 0.0, 0.0, 0.0]);
    assert!(blocks.next().is_none());
}

#[test]
fn two_motions_on_one_line() {
    let program = GcodeProgram::from_str("G0 X1\nG1 G0 X2\nX3").unwrap();
    let interp = GcodeInterpreter::new(&program);
    let mut blocks = interp.block_iter();
    expect(blocks.next(), Motion::Rapid, [1.0, 0.0, 0.0, 0.0, 0.0, 0.0, 0.0, 0.0, 0.0]);
    assert_eq!(
        blocks.next(),
        Some(Err("Cannot set multiple motion modes on same line".to_string()))
    );
    // The refused block leaves the state as it was
    expect(blocks.next(), Motion::Rapid, [3.0, 0.0, 0.0, 0.0, 0.0, 0.0, 0.0, 0.0, 0.0]);
}

#[test]
fn axes_order() {
    // Positions are kept in the order X Y Z U V W A B C
    let program = GcodeProgram::from_str("X1 Y2 Z3 A4 B5 C6 U7 V8 W9").unwrap();
    let interp = GcodeInterpreter::new(&program);
    let mut blocks = interp.block_iter();
    expect(blocks.next(), Motion::Feed, [1.0, 2.0, 3.0, 7.0, 8.0, 9.0, 4.0, 5.0, 6.0]);
}

#[test]
fn path_lines_join_consecutive_states() {
    let program = GcodeProgram::from_str("G0 X0 Y0 Z0\nX10 Y20 Z30\nG1 Z10").unwrap();
    let interp = GcodeInterpreter::new(&program);
    let mut blocks = interp.block_iter();
    let mut states: Vec<State> = Vec::new();
    while let Some(r) = blocks.next() {
        states.push(r.unwrap());
    }
    let lines = path_lines(&states);
    assert_eq!(lines.len(), 2);
    assert_eq!(lines[0].motion, Motion::Rapid);
    assert_eq!(lines[1].motion, Motion::Rapid);
    let to: Vec<f32> = lines[1].to.iter().map(|n| n.as_str().parse::<f32>().unwrap()).collect();
    assert_eq!(to, vec![10.0, 20.0, 10.0, 0.0, 0.0, 0.0, 0.0, 0.0, 0.0]);
    assert!(path_lines(&[]).is_empty());
}

#[test]
fn two_coordinates_on_one_line() {
    let program = GcodeProgram::from_str("X1 X2").unwrap();
    let interp = GcodeInterpreter::new(&program);
    let mut blocks = interp.block_iter();
    assert_eq!(
        blocks.next(),
        Some(Err("Cannot set multiple coordinates on same line".to_string()))
    );
    assert!(blocks.next().is_none());
}

#[test]
fn refused_before_unsupported_token() {
    let program = GcodeProgram::from_str("G0 G1 F100").unwrap();
    let interp = GcodeInterpreter::new(&program);
    let mut blocks = interp.block_iter();
    assert_eq!(
        blocks.next(),
        Some(Err("Cannot set multiple motion modes on same line".to_string()))
    );
}

#[test]
fn which_blocks_can_be_applied() {
    let program = GcodeProgram::from_str("G0 X1\nG0 G1 F100\nF100 G0\nX1 X2 M3").unwrap();
    let blocks = program.block_iter();
    assert!(can_apply(&blocks[0]));
    assert!(can_apply(&blocks[1]));
    assert!(!can_apply(&blocks[2]));
    assert!(can_apply(&blocks[3]));
}
