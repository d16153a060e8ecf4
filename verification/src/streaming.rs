//! A parser that reads statements one at a time, with tags matched ignoring ASCII case.
pub mod spindle;
pub mod motion;
pub mod parameter;
pub mod value;
pub mod statement;
