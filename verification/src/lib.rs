//! Decoder for the constant-pool section of a class-file binary.
//!
//! The pool is a 2-byte big-endian count followed by tag-discriminated records of
//! variable length. [`cursor::ByteCursor`] is a forward-only reader over a byte
//! buffer. [`decode::decode_pool`] turns the bytes under the cursor into a
//! [`pool::ConstantPool`], and [`pool::ConstantPool::encode`] writes one back.
//!
//! The byte layout is written down once, as functions on byte sequences, in
//! [`grammar`]; every reader's contract says that it returns what the grammar
//! prescribes and leaves the cursor where the grammar says the read ends. [`laws`]
//! holds what follows for every input: records are numbered in order, encoding
//! inverts decoding, a truncated input is always reported as such.
//!
//! [`extract`] and [`fmt`] render the leading sections of a class file as text.

pub mod cursor;
pub mod decode;
pub mod encode;
pub mod error;
pub mod extract;
pub mod fmt;
pub mod grammar;
pub mod laws;
pub mod pool;
