//! Words recognised by a fixed letter and number, and the modal groups and blocks built from them.
pub mod const_generics_test;
pub mod const_generics_spanned;
pub mod spanned_word;
pub mod block;
pub mod program;
pub mod parse_modal_spans;
pub mod parse_modal;
