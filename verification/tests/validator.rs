use gcode::gcode_parser::program::GcodeProgram;
use gcode::validator::{GcodeValidator, ValidationError};

#[test]
fn end_program() {
    let program = GcodeProgram::from_str(
        r#"F500
        M2"#,
    )
    .unwrap();

    let validator = GcodeValidator::new();

    validator.validate(&program).unwrap();
}

#[test]
fn no_end_program() {
    let program = GcodeProgram::from_str(r#"F500"#).unwrap();

    let validator = GcodeValidator::new();

    validator.validate(&program).unwrap();
}

#[test]
fn message_only_error() {
    let e = ValidationError::message_only("oops");
    assert!(e.block.is_none());
    assert!(e.tokens.is_none());
    assert_eq!(e.message, "oops");
}
