use ravro::{AvroValue, FieldValue};

fn render(v: FieldValue) -> String {
    ravro::render_field(&v)
}

#[test]
fn renders_null_and_absent() {
    assert_eq!(render(FieldValue::Null), "null");
    assert_eq!(AvroValue::na().to_string(), "N/A");
    assert_eq!(AvroValue::from(FieldValue::Null).to_string(), "null");
}

#[test]
fn renders_booleans() {
    assert_eq!(render(FieldValue::Boolean(true)), "true");
    assert_eq!(render(FieldValue::Boolean(false)), "false");
}

#[test]
fn renders_integers() {
    assert_eq!(render(FieldValue::Int(0)), "0");
    assert_eq!(render(FieldValue::Int(42)), "42");
    assert_eq!(render(FieldValue::Int(-7)), "-7");
    assert_eq!(render(FieldValue::Int(i32::MIN)), "-2147483648");
    assert_eq!(render(FieldValue::Long(9007199254740993)), "9007199254740993");
    assert_eq!(render(FieldValue::Long(i64::MIN)), "-9223372036854775808");
    assert_eq!(render(FieldValue::Long(i64::MAX)), "9223372036854775807");
}

#[test]
fn renders_strings_and_floats() {
    assert_eq!(render(FieldValue::Str(String::from("hello"))), "hello");
    assert_eq!(render(FieldValue::Str(String::new())), "");
    assert_eq!(render(FieldValue::Float(String::from("1.5"))), "1.5");
    assert_eq!(render(FieldValue::Double(String::from("-0.25"))), "-0.25");
}

#[test]
fn renders_bytes_as_decimal_list() {
    assert_eq!(render(FieldValue::Bytes(vec![])), "");
    assert_eq!(render(FieldValue::Bytes(vec![0])), "0");
    assert_eq!(render(FieldValue::Bytes(vec![1, 2, 255])), "1, 2, 255");
    assert_eq!(render(FieldValue::Fixed(3, vec![10, 20, 30])), "10, 20, 30");
}

#[test]
fn renders_enum_with_descriptor() {
    assert_eq!(
        render(FieldValue::Enum(2, String::from("CLUBS"))),
        "2 (CLUBS)"
    );
}

#[test]
fn renders_array_joined() {
    assert_eq!(
        render(FieldValue::Array(vec![
            FieldValue::Int(1),
            FieldValue::Str(String::from("two")),
            FieldValue::Null,
        ])),
        "1, two, null"
    );
}

fn ab_entries() -> Vec<(String, FieldValue)> {
    vec![
        (String::from("a"), FieldValue::Int(1)),
        (String::from("b"), FieldValue::Str(String::from("x"))),
    ]
}

#[test]
fn renders_map_and_record_entries() {
    assert_eq!(render(FieldValue::Mapping(ab_entries())), "a: 1, b: x");
    assert_eq!(render(FieldValue::Record(ab_entries())), "a: 1, b: x");
}

#[test]
fn union_unwraps_one_level() {
    assert_eq!(
        render(FieldValue::Union(Box::new(FieldValue::Int(5)))),
        "5"
    );
    assert_eq!(
        render(FieldValue::Union(Box::new(FieldValue::Null))),
        "null"
    );
}

#[test]
fn null_renders_nested_too() {
    let v = FieldValue::Record(vec![
        (String::from("x"), FieldValue::Null),
        (
            String::from("y"),
            FieldValue::Array(vec![FieldValue::Null, FieldValue::Union(Box::new(FieldValue::Null))]),
        ),
    ]);
    assert_eq!(render(v), "x: null, y: null, null");
}

#[test]
fn map_render_roundtrip_recovers_pair_count() {
    let entries = vec![
        (String::from("firstName"), FieldValue::Str(String::from("Marty"))),
        (String::from("lastName"), FieldValue::Str(String::from("McFly"))),
        (String::from("age"), FieldValue::Int(17)),
    ];
    let keys = vec!["firstName", "lastName", "age"];
    let count = entries.len();
    let rendered = render(FieldValue::Mapping(entries));
    let chunks: Vec<&str> = rendered.split(", ").collect();
    assert_eq!(chunks.len(), count);
    for (chunk, key) in chunks.iter().zip(keys.iter()) {
        let mut halves = chunk.splitn(2, ": ");
        assert_eq!(&halves.next().unwrap(), key);
        assert!(halves.next().is_some());
    }
}

#[test]
fn record_render_roundtrip_recovers_pair_count() {
    let entries = vec![
        (String::from("k1"), FieldValue::Int(1)),
        (String::from("k2"), FieldValue::Boolean(true)),
        (String::from("k3"), FieldValue::Str(String::from("v"))),
        (String::from("k4"), FieldValue::Null),
    ];
    let rendered = render(FieldValue::Record(entries));
    assert_eq!(rendered.split(", ").count(), 4);
    assert_eq!(rendered, "k1: 1, k2: true, k3: v, k4: null");
}
