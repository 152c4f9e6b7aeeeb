//! The markdown table subsystem: model, parsing, serialisation, HTML
//! post-processing and smart paste.

pub mod model;
pub mod parse;
pub mod serialize;
pub mod render;
pub mod paste;
pub mod laws;
