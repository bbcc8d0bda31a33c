use vstd::prelude::*;

verus! {

/// The closed model of every value shape the encoder accepts.
///
/// Callers translate their own data into this tree once and hand it to the
/// encoder. Shapes that the Nix expression grammar cannot carry directly are
/// mapped onto ones it can: an absent optional becomes `Null`, a present
/// optional is its inner value, a byte string becomes `Bytes` (a list of
/// integers, since the grammar has no binary literal), and tuples become
/// `List`.
pub enum Value {
    /// Encodes to the literal `null` (unit, unit struct, or an absent value).
    Null,
    /// Encodes to `true` or `false`.
    Bool(bool),
    /// A signed integer, encoded in its minimal decimal form.
    Int(i64),
    /// An unsigned integer, encoded in its minimal decimal form.
    UInt(u64),
    /// A single character, encoded as a one-character string literal.
    Char(char),
    /// Text, encoded as a double-quoted, escaped string literal.
    Str(String),
    /// A byte sequence, encoded as a list of its bytes as decimal integers.
    Bytes(Vec<u8>),
    /// An ordered sequence or tuple, encoded as `[ e1 e2 ]`.
    List(Vec<Value>),
    /// A map with caller-chosen keys, encoded as `{ k1 = v1; k2 = v2; }`.
    /// Every key must be string-like (a string or a character); any other
    /// key shape makes the whole value unencodable.
    Dict(Vec<(Value, Value)>),
    /// A struct with named fields, encoded exactly like a map whose keys are
    /// the field names.
    Record(Vec<(String, Value)>),
    /// An enum variant with no payload, encoded as a string literal of the
    /// variant name (indistinguishable on the wire from that plain string).
    UnitVariant(String),
    /// An enum variant wrapping one value, encoded as `{ "variant" = v; }`.
    NewtypeVariant(String, Box<Value>),
    /// An enum variant wrapping a sequence, encoded as the quoted variant
    /// name immediately followed by the `[ ... ]` form of the payload.
    TupleVariant(String, Vec<Value>),
    /// An enum variant wrapping named fields, encoded as the quoted variant
    /// name immediately followed by the `{ ... }` form of the payload.
    StructVariant(String, Vec<(String, Value)>),
}

/// A map key is string-like exactly when it is a plain string or a single
/// character; every other key shape is rejected by the encoder.
pub open spec fn string_like_key(k: Value) -> bool {
    k is Str || k is Char
}

} // verus!
