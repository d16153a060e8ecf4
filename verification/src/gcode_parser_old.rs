//! The earlier coordinate parser.
pub mod coord;
