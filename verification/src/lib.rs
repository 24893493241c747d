//! A bidirectional codec for the JVM class-file binary format: a decoder
//! from raw bytes to an object model and an encoder back to bytes. The
//! decoder is proved to accept exactly the streams its parsing specification
//! describes, and re-encoding what it decoded reproduces the input
//! byte-for-byte.

pub mod decoding;
pub mod deserializer;
pub mod encoding;
pub mod error;
pub mod laws;
pub mod model;
pub mod rw;
pub mod serializer;
pub mod wire;
