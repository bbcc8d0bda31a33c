//! An encoder from structured values to the textual syntax of the Nix
//! expression language: `true`/`false`, decimal number literals, double-quoted
//! strings with Nix's own escaping rules, `[ e1 e2 ]` lists and
//! `{ k = v; }` attribute sets.
//!
//! The core is [`Value`], a closed model of every value shape the encoder
//! accepts, and [`to_string`], which produces the canonical one-line text of a
//! value or reports exactly why the value cannot be represented.

pub mod escape;
pub mod num;
pub mod ser;
pub mod value;

pub use ser::to_string;
pub use ser::Error;
pub use ser::Serializer;
pub use value::Value;
