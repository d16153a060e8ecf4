//! The G-code parser: words, modal groups, coordinates, comments, tokens, blocks and programs.
pub mod word;
pub mod code;
pub mod motion;
pub mod units;
pub mod spindle;
pub mod stopping;
pub mod tool_change;
pub mod distance_mode;
pub mod cutter_compensation;
pub mod plane_select;
pub mod comment;
pub mod coord;
pub mod non_modal;
pub mod token;
pub mod block;
pub mod program;
pub mod laws;
pub mod modal_laws;
