use std::collections::HashMap;

use serde_nix::ser::Error;
use serde_nix::{to_string, Value};

#[test]
fn test_write_bool() {
    assert_eq!(to_string(&Value::Bool(true)).unwrap(), "true".to_string());
    assert_eq!(to_string(&Value::Bool(false)).unwrap(), "false".to_string());
}

fn person(name: &str, age: i64) -> Value {
    Value::Record(vec![
        ("name".to_string(), Value::Str(name.to_string())),
        ("age".to_string(), Value::Int(age)),
    ])
}

#[test]
fn test_object() {
    let p = person("foo", 20);
    assert_eq!(
        to_string(&p).unwrap(),
        r#"{ name = "foo"; age = 20; }"#.to_string(),
    );
}

fn str_dict(m: &HashMap<&str, &str>) -> Value {
    Value::Dict(
        m.iter()
            .map(|(k, v)| {
                (
                    Value::Str((*k).to_string()),
                    Value::Str((*v).to_string()),
                )
            })
            .collect(),
    )
}

#[test]
fn test_hashmaps() {
    // default
    let mut m = HashMap::new();
    m.insert("foo", "bar");
    m.insert("bar", "baz");
    let s = to_string(&str_dict(&m)).unwrap();
    let correct = vec![
        r#"{ foo = "bar"; bar = "baz"; }"#.to_string(),
        r#"{ bar = "baz"; foo = "bar"; }"#.to_string(),
    ];
    assert!(correct.contains(&s));

    // bool val
    let m = Value::Dict(vec![(Value::Str("foo".to_string()), Value::Bool(true))]);
    assert_eq!(to_string(&m).unwrap(), r#"{ foo = true; }"#.to_string());

    // key that needs quoting & escaping
    let m = Value::Dict(vec![(
        Value::Str("foo.bar${baz}".to_string()),
        Value::Int(1),
    )]);
    assert_eq!(
        to_string(&m).unwrap(),
        r#"{ "foo.bar\${baz}" = 1; }"#.to_string(),
    );

    // unusual keys that don't need quoting
    let m = Value::Dict(vec![(Value::Str("a-'_b".to_string()), Value::Int(1))]);
    assert_eq!(to_string(&m).unwrap(), r#"{ a-'_b = 1; }"#.to_string());

    // newline value
    let m = Value::Dict(vec![(
        Value::Str("a".to_string()),
        Value::Str("\n".to_string()),
    )]);
    assert_eq!("{ a = \"\\n\"; }".to_string(), to_string(&m).unwrap());

    // char key
    let m = Value::Dict(vec![(Value::Char('c'), Value::Int(1))]);
    assert_eq!(to_string(&m).unwrap(), r#"{ c = 1; }"#.to_string());
    let m = Value::Dict(vec![(Value::Char('$'), Value::Int(1))]);
    assert_eq!(to_string(&m).unwrap(), r#"{ "$" = 1; }"#.to_string());

    // All invalid keys
    let m = Value::Dict(vec![(Value::Int(1), Value::Int(1))]);
    assert_eq!(to_string(&m).unwrap_err(), Error::MapKeyMustBeAString);
    let m = Value::Dict(vec![(Value::Bool(true), Value::Int(1))]);
    assert_eq!(to_string(&m).unwrap_err(), Error::MapKeyMustBeAString);
    let m = Value::Dict(vec![(person("", 0), Value::Int(1))]);
    assert_eq!(to_string(&m).unwrap_err(), Error::MapKeyMustBeAString);
    let m = Value::Dict(vec![(
        Value::List(vec![
            Value::Str("foo".to_string()),
            Value::Str("bar".to_string()),
        ]),
        Value::Int(1),
    )]);
    assert_eq!(to_string(&m).unwrap_err(), Error::MapKeyMustBeAString);
}

#[test]
fn test_arrays() {
    let v = Value::List(vec![
        Value::Str("foo".to_string()),
        Value::Str("bar".to_string()),
    ]);
    assert_eq!(&to_string(&v).unwrap(), r#"[ "foo" "bar" ]"#);
}
