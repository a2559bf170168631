//! A verified reader/writer pair for the Les Houches Event File format: a
//! line-oriented text format that carries particle-physics event samples
//! between generator programs.
//!
//! The reader pulls the version, header material, run information and then
//! one event per call from a byte stream; the writer pushes the same blocks
//! under a strict call-order protocol with sticky failure. Every parsing and
//! serializing step is specified exactly, and the central law is proved:
//! writing well-formed records and parsing the bytes back returns the same
//! records, byte-for-byte in every numeric field.
//!
//! Floating-point fields are carried as their decimal text tokens, validated
//! against the decimal-float grammar; converting tokens to and from machine
//! floats is the caller's business, outside this crate.
pub mod attr;
pub mod data;
pub mod errors;
pub mod fields;
pub mod floattok;
pub mod lines;
pub mod num;
pub mod pspec;
pub mod reader;
pub mod roundtrip;
pub mod serial;
pub mod syntax;
pub mod tags;
pub mod tokens;
pub mod writer;
pub mod xmlread;
pub mod xmlser;

pub use attr::XmlAttr;
pub use data::HEPEUP;
pub use data::HEPRUP;
pub use data::XmlTree;
pub use errors::BlockKind;
pub use errors::ParseError;
pub use reader::Reader;
pub use writer::ByteSink;
pub use writer::VecSink;
pub use writer::WriteError;
pub use writer::Writer;
pub use writer::WriterOp;
pub use writer::WriterState;
