//! Binary wire-format codec for structured protocol messages.
//!
//! Structured record types are encoded to and decoded from a canonical
//! little-endian binary form.  The crate provides the shared machinery every
//! record type builds on: fixed-width scalar encoding, optional sequences,
//! a self-describing polymorphic container, a registry resolving numeric
//! type identifiers to decode routines, and decode-time resource limits
//! that defend against adversarial input.

pub mod arrays;
pub mod codec;
pub mod errors;
pub mod extension_object;
pub mod guid;
pub mod headers;
pub mod limits;
pub mod primitives;
pub mod reader;
pub mod registry;
pub mod service_types;
pub mod status_code;
pub mod strings;
