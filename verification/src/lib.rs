//! A compact, schema-less binary codec for structured values with positional
//! schema evolution.
//!
//! Every value on the wire starts with a tag byte whose low three bits name
//! one of six wire types. Lengths, discriminants and integers are varints
//! whose low nibble rides in the tag byte. Records carry a length prefix, so a
//! reader can drop trailing fields it does not know and report the end of a
//! record that is shorter than it expects.

pub mod de;
pub mod error;
pub mod laws;
pub mod ser;
pub mod wire;

pub use de::Deserializer;
pub use error::Error;
pub use ser::Serializer;
