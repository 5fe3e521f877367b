//! An IPP (Internet Printing Protocol) message codec: a typed value model,
//! length-bounded strings, and a serializer and parser for the RFC 8010
//! binary attribute encoding.

pub mod attribute;
pub mod cups;
pub mod error;
pub mod message;
pub mod parser;
pub mod roundtrip;
pub mod tags;
pub mod text;
pub mod value;
pub mod wire;
