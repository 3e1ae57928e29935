//! Core of a line-oriented text editor: a gap-buffer line, a document made of
//! ordered lines with an active-line pointer and column memory, viewport
//! scroll state, and the text model used by file load and save.

mod chars;
pub mod content;
pub mod line;
pub mod num;
pub mod subeditor;
pub mod viewport;
