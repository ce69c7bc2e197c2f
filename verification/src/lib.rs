//! A JSON5 codec: parses JSON5 text into a generic value representation and
//! formats values back to text, preserving round-trip fidelity including an
//! optional comment table keyed by structural paths.

use vstd::prelude::*;

pub mod chars;
pub mod comments;
pub mod de;
pub mod error;
pub mod laws;
pub mod numbers;
pub mod ser;
pub mod value;

pub use chars::{escape, is_json5_identifier, is_json5_identifier_start, is_json5_line_terminator,
    is_json5_whitespace};
pub use comments::{Comments, PathSegment};
pub use de::{from_str, from_str_with_comments, Deserializer};
pub use error::{Error, ErrorCode, Position};
pub use ser::{to_string, to_string_with_options, SerializeCollection, SerializeOptions,
    Serializer};
pub use value::{NumberResult, Value};
