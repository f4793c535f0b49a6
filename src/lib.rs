//! Interned strings for a zero-copy archive format.
//!
//! Repeated strings are written once into the archive buffer and every other
//! occurrence refers to the shared bytes through a self-relative offset. Short
//! strings are stored inline in their slot.
pub mod adapter;
pub mod archive;
pub mod registry;
pub mod repr;
pub mod string;
pub mod validate;

pub use adapter::{
    ByteWriter, InternSerializeError, InternSerializerAdapter, Positional, WriteError, Writer,
};
pub use archive::{decode_strings, encode_strings, EncodeError};
pub use registry::{InternSerializeMap, InternSerializeMapError, InternSerializeRegistry};
pub use repr::{ReprError, INLINE_CAPACITY, OUT_OF_LINE_CAPACITY, REPR_SIZE};
pub use string::{
    resolve_option_from_str, serialize_option_from_str, ArchivedInternedString, Intern,
    InternedStringResolver,
};
pub use validate::{validate_strings, SharedRegion, ValidationError, ValidationState};
