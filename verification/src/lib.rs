//! The engine of a typing-practice application, with every function
//! verified: the typed-text model and its scrolling, the caret, the
//! words-per-minute sampler, the results chart, the word supply and the
//! tool that builds it, the themes, and the frame of the window.
//!
//! The engine computes in whole numbers: lengths in thousandths of a pixel,
//! time in microseconds or milliseconds, shares in millionths. What draws
//! the window converts at its edge.

pub mod animation;
pub mod counter;
pub mod cursor;
pub mod curve;
pub mod dictionary;
pub mod line_chart;
pub mod ngram;
pub mod over_insertion;
pub mod runs;
pub mod scroll;
pub mod text_state;
pub mod text_view;
pub mod theme;
pub mod unicode;
pub mod window;
