//! Canonical text for programs of an untyped lambda calculus: a program is
//! turned into a document of text and line breaks, and the document is laid
//! out by the `pretty` crate.

pub mod ast;
pub mod decimal;
pub mod doc;
pub mod hexadecimal;
pub mod integer;
pub mod laws;
pub mod printer;
