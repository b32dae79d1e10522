//! A verified parser for plain-text HTTP request files.
//!
//! A request file names a method, a URL, an optional protocol
//! version, a header block and an optional body; the body may declare
//! a `multipart/form-data` payload that is decomposed into named
//! parts. [`parse::parse_request`] turns such a file into a
//! [`model::RequestDescriptor`] that a transport layer can send
//! without further interpretation, and its contract pins the result
//! down to [`parse::spec_parse_request`], a mathematical description
//! of the whole grammar. The guarantees that relate several functions
//! are stated and proved in [`laws`].

pub mod form;
pub mod headers;
pub mod laws;
pub mod model;
pub mod parse;
pub mod text;
pub mod urlparse;
