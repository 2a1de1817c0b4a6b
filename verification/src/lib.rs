//! A marquee engine: fixed-width cyclic windows over a text.
//!
//! A [`RunningText`] is made of a content, a window width and an ordered list
//! of replacement rules. A [`RunIter`] over it hands out the windows that,
//! shown one after the other, make the text run through the window. What a
//! replacement put into the text is never split by a window.
//!
//! The text is modelled as a sequence of units ([`units`]): single characters
//! and the runs that replacements put in ([`rewrite`]). It is kept as a string
//! with two maps of the runs ([`layout`], [`escape`]). What a running text and
//! its iterators are as mathematical values is said in [`model`], and what
//! holds of all of them in [`laws`].
//!
//! Around the engine stand the fragments of a display and their sources
//! ([`text_iter`], [`text_source`], [`cmd`], [`registry`]), the record by
//! which a later run takes up an earlier one ([`resume`]), the arguments of
//! the program ([`args`]), and the status line of a music player ([`mpd`],
//! [`mpd_args`], [`mpd_format`], [`mpd_line`]).

pub mod args;
pub mod boundary;
pub mod chars;
pub mod cmd;
pub mod decimal;
pub mod error;
pub mod escape;
pub mod laws;
pub mod layout;
pub mod model;
pub mod mpd;
pub mod mpd_args;
pub mod mpd_format;
pub mod mpd_line;
pub mod registry;
pub mod resume;
pub mod rewrite;
pub mod running_text;
pub mod text_iter;
pub mod text_source;
pub mod units;
pub mod utils;

pub use crate::error::{ConstructionError, SourceError};
pub use crate::escape::EscapedText;
pub use crate::running_text::{RunIndex, RunIter, RunningText};
pub use crate::text_iter::TextIter;
pub use crate::text_source::TextSource;
