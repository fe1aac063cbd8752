//! A verified codec between flat records and the key-addressable wire
//! representation of an in-memory data-store protocol.
//!
//! Records are described by an immutable field-descriptor table,
//! encoded either as a flat argument stream or as a list of
//! name/value pairs, and reconstructed from an array- or
//! map-shaped wire value with precise error reporting.

pub mod num;
pub mod wire;
pub mod value;
pub mod schema;
pub mod encode;
pub mod decode;
pub mod laws;
