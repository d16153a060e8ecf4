//! The motion and non-modal groups read with the words and literals of
//! [`const_generics_spanned`](crate::clean_slate::const_generics_spanned): the same groups as
//! those of [`spanned_word`](crate::clean_slate::spanned_word).
pub use crate::clean_slate::spanned_word::{Motion, NonModal};
