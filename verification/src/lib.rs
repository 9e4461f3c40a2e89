//! Trace-ingestion and symbol-resolution engine for binary function-call
//! traces captured by a secure-execution runtime.
//!
//! A trace file is an arbitrary textual header, an eight-byte magic marker,
//! and a stream of eight-byte little-endian entries recording function entry
//! and exit events.  This crate locates the marker, decodes the entries,
//! rebuilds the call tree while enforcing the nesting-depth invariants, parses
//! the memory-layout metadata out of the header, and maps raw program-counter
//! values to symbol names via externally supplied debug objects.

pub mod builder;
pub mod cli;
pub mod format;
pub mod ftrace;
pub mod lex;
pub mod region;
pub mod resolver;
pub mod scan;
pub mod symbol_info;
pub mod tree;
