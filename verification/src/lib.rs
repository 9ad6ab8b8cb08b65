//! A bidirectional structural codec between a generic structured-value model
//! (booleans, numbers, characters, strings, byte buffers, optionals, units,
//! sequences, tuples, maps, structs, enum variants) and a heap-resident,
//! tagged value store addressed by opaque handles.
//!
//! Encoding walks a structured value and produces one store handle; decoding
//! reads a handle against a requested shape, resolving the store's `List`,
//! `Concatenation` and `Slice` representations into a uniform indexed view.

pub mod codec;
pub mod deserializer;
pub mod error;
pub mod number;
pub mod options;
pub mod serializer;
pub mod store;
