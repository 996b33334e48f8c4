//! Conversions between JSON and TOML value trees.
//!
//! The library models each format's documents as a closed recursive enum,
//! converts between them with pure, verified adapters, and wraps the
//! collaborating parsers behind a small trusted boundary.

pub mod model;
pub mod value;
pub mod convert;
pub mod laws;
pub mod source;

pub use crate::convert::{json_to_toml, toml_to_json};
pub use crate::source::{
    parse_json, parse_toml, Json, JsonParseError, JsonSrc, Toml, TomlParseError, TomlSrc,
};
pub use crate::value::{JsonValue, TomlValue};
