//! A small site generator: it reads a line-oriented `[key = "value"]`
//! directive format and renders an HTML skeleton (head metadata, optional
//! stylesheet and script references, body) from it.

pub mod dom;
pub mod laws;
pub mod scan;
