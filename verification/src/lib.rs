//! Verified core of handwriting-recognition bookkeeping and text search for a
//! note-taking canvas: search over typed and recognized text, reuse of
//! already recognized lines, greedy decoding of the recognizer's output and
//! rasterisation of stroke segments into the recognizer's input planes.

pub mod geometry;
pub mod text;
pub mod text_line;
pub mod page;
pub mod search;
pub mod recognition;
pub mod raster;
pub mod search_panel;
pub mod laws;
