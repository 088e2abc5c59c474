//! A line-oriented text buffer with an incremental syntax highlighter, and
//! the editing session built on it.
//!
//! The buffer is a sparse grid of styled characters. Every insertion and
//! removal is followed by a repaint of the cells round the edit; the
//! highlighter keeps no state of its own. The session adds a cursor, a
//! viewport, the commands of the keyboard and the strokes that draw the
//! window.

pub mod buffer;
pub mod chars;
pub mod editor;
pub mod grid;
pub mod highlight;
pub mod keys;
pub mod laws;
pub mod roundtrip;
pub mod screen;
pub mod sparse;
pub mod syntax;
pub mod text;
