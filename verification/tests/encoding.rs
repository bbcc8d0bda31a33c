use serde_nix::escape::{encode_key, escape, escape_char};
use serde_nix::ser::Error;
use serde_nix::{to_string, Serializer, Value};

#[test]
fn null_encodes_to_null_literal() {
    assert_eq!(to_string(&Value::Null).unwrap(), "null");
}

#[test]
fn integers_encode_in_minimal_decimal() {
    assert_eq!(to_string(&Value::Int(0)).unwrap(), "0");
    assert_eq!(to_string(&Value::Int(42)).unwrap(), "42");
    assert_eq!(to_string(&Value::Int(-5)).unwrap(), "-5");
    assert_eq!(
        to_string(&Value::Int(i64::MIN)).unwrap(),
        "-9223372036854775808"
    );
    assert_eq!(
        to_string(&Value::Int(i64::MAX)).unwrap(),
        "9223372036854775807"
    );
    assert_eq!(to_string(&Value::UInt(7)).unwrap(), "7");
    assert_eq!(
        to_string(&Value::UInt(u64::MAX)).unwrap(),
        "18446744073709551615"
    );
}

#[test]
fn chars_encode_as_one_character_strings() {
    assert_eq!(to_string(&Value::Char('a')).unwrap(), r#""a""#);
    assert_eq!(to_string(&Value::Char('$')).unwrap(), r#""$""#);
    assert_eq!(to_string(&Value::Char('"')).unwrap(), r#""\"""#);
}

#[test]
fn nul_char_is_unencodable() {
    assert_eq!(
        to_string(&Value::Char('\0')).unwrap_err(),
        Error::UnencodableNullString
    );
}

#[test]
fn control_characters_take_backslash_escapes() {
    let v = Value::Str("a\nb\tc\rd\"e".to_string());
    assert_eq!(to_string(&v).unwrap(), "\"a\\nb\\tc\\rd\\\"e\"");
}

#[test]
fn dollar_is_escaped_only_before_a_brace() {
    assert_eq!(
        to_string(&Value::Str("${x}".to_string())).unwrap(),
        r#""\${x}""#
    );
    assert_eq!(to_string(&Value::Str("$".to_string())).unwrap(), r#""$""#);
    assert_eq!(
        to_string(&Value::Str("x$y".to_string())).unwrap(),
        r#""x$y""#
    );
    assert_eq!(
        to_string(&Value::Str("$ {".to_string())).unwrap(),
        r#""$ {""#
    );
    assert_eq!(
        to_string(&Value::Str("a$${b}".to_string())).unwrap(),
        r#""a$\${b}""#
    );
}

#[test]
fn nul_in_string_is_unencodable() {
    assert_eq!(
        to_string(&Value::Str("a\0b".to_string())).unwrap_err(),
        Error::UnencodableNullString
    );
}

#[test]
fn empty_collections_keep_their_delimiters() {
    assert_eq!(to_string(&Value::List(vec![])).unwrap(), "[ ]");
    assert_eq!(to_string(&Value::Dict(vec![])).unwrap(), "{ }");
    assert_eq!(to_string(&Value::Record(vec![])).unwrap(), "{ }");
}

#[test]
fn tuples_encode_as_space_separated_lists() {
    let v = Value::List(vec![Value::Int(1), Value::Int(2), Value::Int(3)]);
    assert_eq!(to_string(&v).unwrap(), "[ 1 2 3 ]");
}

#[test]
fn bytes_encode_as_a_list_of_integers() {
    let v = Value::Bytes(vec![0, 255, 7]);
    assert_eq!(to_string(&v).unwrap(), "[ 0 255 7 ]");
}

#[test]
fn unit_variant_encodes_as_its_name() {
    let v = Value::UnitVariant("Foo".to_string());
    assert_eq!(to_string(&v).unwrap(), r#""Foo""#);
}

#[test]
fn newtype_variant_wraps_in_an_attribute_set() {
    let v = Value::NewtypeVariant("Foo".to_string(), Box::new(Value::Int(5)));
    assert_eq!(to_string(&v).unwrap(), r#"{ "Foo" = 5; }"#);
}

#[test]
fn tuple_variant_prefixes_the_list_with_its_name() {
    let v = Value::TupleVariant("Foo".to_string(), vec![Value::Int(1), Value::Int(2)]);
    assert_eq!(to_string(&v).unwrap(), r#""Foo"[ 1 2 ]"#);
}

#[test]
fn struct_variant_prefixes_the_set_with_its_name() {
    let v = Value::StructVariant(
        "Foo".to_string(),
        vec![("a".to_string(), Value::Int(1))],
    );
    assert_eq!(to_string(&v).unwrap(), r#""Foo"{ a = 1; }"#);
}

#[test]
fn nested_values_encode_recursively() {
    let v = Value::Record(vec![
        (
            "xs".to_string(),
            Value::List(vec![Value::Null, Value::Bool(false)]),
        ),
        (
            "m".to_string(),
            Value::Dict(vec![(
                Value::Str("k".to_string()),
                Value::Str("v".to_string()),
            )]),
        ),
    ]);
    assert_eq!(
        to_string(&v).unwrap(),
        r#"{ xs = [ null false ]; m = { k = "v"; }; }"#
    );
}

#[test]
fn nul_in_a_key_fails_before_the_key_gate_of_later_entries() {
    let v = Value::Dict(vec![
        (Value::Str("a\0".to_string()), Value::Int(1)),
        (Value::Int(1), Value::Int(2)),
    ]);
    assert_eq!(to_string(&v).unwrap_err(), Error::UnencodableNullString);
}

#[test]
fn key_gate_fires_before_later_nul_errors() {
    let v = Value::Dict(vec![
        (Value::Int(1), Value::Int(2)),
        (Value::Str("a\0".to_string()), Value::Int(1)),
    ]);
    assert_eq!(to_string(&v).unwrap_err(), Error::MapKeyMustBeAString);
}

#[test]
fn nul_deep_inside_a_list_is_found() {
    let v = Value::List(vec![Value::Int(1), Value::Str("\0".to_string())]);
    assert_eq!(to_string(&v).unwrap_err(), Error::UnencodableNullString);
}

#[test]
fn escape_returns_the_quoted_literal() {
    assert_eq!(escape("a$b").unwrap(), r#""a$b""#);
    assert_eq!(escape("").unwrap(), r#""""#);
    assert_eq!(escape("\n").unwrap(), "\"\\n\"");
    assert_eq!(escape("\0").unwrap_err(), Error::UnencodableNullString);
}

#[test]
fn escape_char_maps_single_characters() {
    assert_eq!(escape_char(&'\n').unwrap(), "\\n");
    assert_eq!(escape_char(&'\t').unwrap(), "\\t");
    assert_eq!(escape_char(&'\r').unwrap(), "\\r");
    assert_eq!(escape_char(&'"').unwrap(), "\\\"");
    assert_eq!(escape_char(&'$').unwrap(), "$");
    assert_eq!(escape_char(&'x').unwrap(), "x");
    assert_eq!(escape_char(&'\0').unwrap_err(), Error::UnencodableNullString);
}

#[test]
fn encode_key_quotes_exactly_the_non_identifiers() {
    assert_eq!(encode_key("foo").unwrap(), "foo");
    assert_eq!(encode_key("a-'_b").unwrap(), "a-'_b");
    assert_eq!(encode_key("_x9").unwrap(), "_x9");
    assert_eq!(encode_key("2x").unwrap(), r#""2x""#);
    assert_eq!(encode_key("foo.bar").unwrap(), r#""foo.bar""#);
    assert_eq!(encode_key("").unwrap(), r#""""#);
    assert_eq!(encode_key("a\0").unwrap_err(), Error::UnencodableNullString);
}

/// Read a double-quoted literal back by the grammar's string-literal rules:
/// a backslash escapes the next character (`n`, `t`, `r` name the controls,
/// anything else stands for itself), an unescaped `${` or `"` means the body
/// is not one plain literal.
fn read_literal(lit: &str) -> Option<String> {
    let chars: Vec<char> = lit.chars().collect();
    if chars.len() < 2 || chars[0] != '"' || chars[chars.len() - 1] != '"' {
        return None;
    }
    let body = &chars[1..chars.len() - 1];
    let mut out = String::new();
    let mut i = 0;
    while i < body.len() {
        match body[i] {
            '\\' => {
                let c = *body.get(i + 1)?;
                out.push(match c {
                    'n' => '\n',
                    't' => '\t',
                    'r' => '\r',
                    other => other,
                });
                i += 2;
            }
            '"' => return None,
            '$' if body.get(i + 1) == Some(&'{') => return None,
            c => {
                out.push(c);
                i += 1;
            }
        }
    }
    Some(out)
}

#[test]
fn escaped_strings_round_trip_through_the_grammar() {
    let cases = [
        "",
        "hello",
        "a\nb\tc\rd\"e",
        "${x}",
        "$",
        "x$y",
        "$ {",
        "a$${b}",
        "foo.bar${baz}",
        "mixed $ quotes \" and ${interp}",
        "unicode çπ and beyond",
        "' -_09AZ",
    ];
    for s in cases {
        let lit = to_string(&Value::Str(s.to_string())).unwrap();
        assert_eq!(read_literal(&lit).as_deref(), Some(s), "literal was {lit}");
    }
}

#[test]
fn serializer_streams_values_into_one_buffer() {
    let mut s = Serializer::new();
    s.encode_value(&Value::Bool(true)).unwrap();
    s.encode_value(&Value::Int(3)).unwrap();
    assert_eq!(s.into_string(), "true3");
}
