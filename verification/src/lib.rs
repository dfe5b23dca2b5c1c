//! Turns a structured code-coverage report into annotated source pages.
//!
//! The core of the crate is the transformation from a file's flat list of
//! coverage segments into well-nested highlighted spans overlaid on the
//! source text: collapsing point segments into closed intervals, inserting
//! textual markers at character (not byte) offsets, and replacing the
//! markers with final markup. Reading the report, templating and file
//! output live outside the library.

pub mod annotate;
pub mod collapse;
pub mod listing;
pub mod model;
pub mod render;
pub mod text;
