//! A G-code parser and interpreter.
//!
//! The input is handled as a slice of `char`s together with a position into it. Every parser
//! takes `(input, position)` and returns the position just past what it consumed together with
//! the parsed value, or a [`error::Fail`] that tells where and why parsing stopped.
pub mod text;

pub mod error;
pub mod number;
pub mod location;

pub mod gcode_parser;
pub mod gcode_parser_old;
pub mod streaming;
pub mod shunting_yard;
pub mod clean_slate;
pub mod gcode_interpreter;
pub mod validator;
pub mod interpreter;
pub mod path_viewer;
