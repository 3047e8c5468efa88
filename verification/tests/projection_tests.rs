use ravro::{
    discover_field_names, project, AvroValue, DecodedEntry, DecodedFile, FieldValue, RavroError,
};

fn err_of<T>(r: Result<T, RavroError>) -> RavroError {
    match r {
        Err(e) => e,
        Ok(_) => panic!("expected an error"),
    }
}


fn person(first: &str, last: &str, age: i32) -> DecodedEntry {
    DecodedEntry::Value(FieldValue::Record(vec![
        (String::from("firstName"), FieldValue::Str(String::from(first))),
        (String::from("lastName"), FieldValue::Str(String::from(last))),
        (String::from("age"), FieldValue::Int(age)),
    ]))
}

fn file(path: &str, entries: Vec<DecodedEntry>) -> DecodedFile {
    DecodedFile { path: String::from(path), entries }
}

fn names(list: &[&str]) -> Vec<String> {
    list.iter().map(|s| String::from(*s)).collect()
}

fn cell_texts(row: &[ravro::AvroColumnarValue]) -> Vec<String> {
    row.iter().map(|c| c.value().to_string()).collect()
}

#[test]
fn discovers_field_names_from_first_record_of_first_file() {
    let files = vec![
        file("a.avro", vec![person("Marty", "McFly", 17)]),
        file("b.avro", vec![person("Emmett", "Brown", 65)]),
    ];
    let found = discover_field_names(&files).unwrap();
    assert_eq!(found, vec!["firstName", "lastName", "age"]);
}

#[test]
fn discovery_fails_on_empty_first_file() {
    let files = vec![file("a.avro", vec![])];
    assert_eq!(discover_field_names(&files), Err(RavroError::EmptyDataset));
}

#[test]
fn discovery_fails_on_non_record_first_entry() {
    let files = vec![file("a.avro", vec![DecodedEntry::Value(FieldValue::Int(3))])];
    assert_eq!(discover_field_names(&files), Err(RavroError::SchemaShape));
}

#[test]
fn discovery_fails_on_corrupt_first_entry() {
    let files = vec![file("a.avro", vec![DecodedEntry::Corrupt])];
    assert_eq!(
        discover_field_names(&files),
        Err(RavroError::RecordDecode(String::from("a.avro"), 0))
    );
}

#[test]
fn projects_requested_fields_across_three_files_in_order() {
    let files = vec![
        file("a.avro", vec![person("Marty", "McFly", 17)]),
        file("b.avro", vec![person("Emmett", "Brown", 65), person("Biff", "Tannen", 18)]),
        file("c.avro", vec![person("Lorraine", "Baines", 17)]),
    ];
    let rows = project(&files, &names(&["firstName", "age"]), None).unwrap();
    assert_eq!(rows.len(), 4);
    assert_eq!(cell_texts(&rows[0]), vec!["Marty", "17"]);
    assert_eq!(cell_texts(&rows[1]), vec!["Emmett", "65"]);
    assert_eq!(cell_texts(&rows[2]), vec!["Biff", "18"]);
    assert_eq!(cell_texts(&rows[3]), vec!["Lorraine", "17"]);
    for row in &rows {
        assert_eq!(row.len(), 2);
        assert_eq!(row[0].name, "firstName");
        assert_eq!(row[1].name, "age");
    }
}

#[test]
fn unknown_field_yields_absent_cell_not_an_error() {
    let files = vec![file("a.avro", vec![person("Marty", "McFly", 17), person("Emmett", "Brown", 65)])];
    let rows = project(&files, &names(&["firstName", "zzz"]), None).unwrap();
    assert_eq!(rows.len(), 2);
    for row in &rows {
        assert_eq!(row.len(), 2);
        assert!(matches!(row[1].value(), AvroValue::Na));
        assert_eq!(row[1].value().to_string(), "N/A");
        assert_eq!(row[1].name, "zzz");
    }
    assert_eq!(cell_texts(&rows[0])[0], "Marty");
}

#[test]
fn row_limit_truncates_scan_before_filtering() {
    let mut entries_a = Vec::new();
    for i in 0..6 {
        entries_a.push(person(&format!("a{}", i), "X", i));
    }
    let mut entries_b = Vec::new();
    for i in 0..4 {
        entries_b.push(person(&format!("b{}", i), "Y", i));
    }
    let files = vec![file("a.avro", entries_a), file("b.avro", entries_b)];
    let rows = project(&files, &names(&["firstName"]), Some(2)).unwrap();
    assert_eq!(rows.len(), 2);
    assert_eq!(cell_texts(&rows[0]), vec!["a0"]);
    assert_eq!(cell_texts(&rows[1]), vec!["a1"]);
}

#[test]
fn row_limit_spans_files() {
    let files = vec![
        file("a.avro", vec![person("one", "A", 1)]),
        file("b.avro", vec![person("two", "B", 2), person("three", "C", 3)]),
    ];
    let rows = project(&files, &names(&["firstName"]), Some(2)).unwrap();
    assert_eq!(rows.len(), 2);
    assert_eq!(cell_texts(&rows[0]), vec!["one"]);
    assert_eq!(cell_texts(&rows[1]), vec!["two"]);
}

#[test]
fn zero_limit_yields_no_rows() {
    let files = vec![file("a.avro", vec![person("Marty", "McFly", 17)])];
    let rows = project(&files, &names(&["firstName"]), Some(0)).unwrap();
    assert_eq!(rows.len(), 0);
}

#[test]
fn corrupt_record_fails_with_file_and_index() {
    let files = vec![
        file("a.avro", vec![person("Marty", "McFly", 17)]),
        file("b.avro", vec![person("Emmett", "Brown", 65), DecodedEntry::Corrupt]),
    ];
    let r = project(&files, &names(&["firstName"]), None);
    assert_eq!(err_of(r), RavroError::RecordDecode(String::from("b.avro"), 1));
}

#[test]
fn corrupt_record_beyond_limit_is_never_examined() {
    let files = vec![file(
        "a.avro",
        vec![person("Marty", "McFly", 17), DecodedEntry::Corrupt],
    )];
    let rows = project(&files, &names(&["firstName"]), Some(1)).unwrap();
    assert_eq!(rows.len(), 1);
}

#[test]
fn non_record_entries_are_passed_over() {
    let files = vec![file(
        "a.avro",
        vec![
            DecodedEntry::Value(FieldValue::Int(1)),
            person("Marty", "McFly", 17),
            DecodedEntry::Value(FieldValue::Str(String::from("stray"))),
        ],
    )];
    let rows = project(&files, &names(&["firstName"]), None).unwrap();
    assert_eq!(rows.len(), 1);
    assert_eq!(cell_texts(&rows[0]), vec!["Marty"]);
}

#[test]
fn duplicate_field_names_take_first_match() {
    let entry = DecodedEntry::Value(FieldValue::Record(vec![
        (String::from("x"), FieldValue::Int(1)),
        (String::from("x"), FieldValue::Int(2)),
    ]));
    let files = vec![file("a.avro", vec![entry])];
    let rows = project(&files, &names(&["x"]), None).unwrap();
    assert_eq!(cell_texts(&rows[0]), vec!["1"]);
}

#[test]
fn error_messages_name_the_offender() {
    assert_eq!(
        RavroError::RecordDecode(String::from("b.avro"), 1).message(),
        "Could not parse row 1 of b.avro"
    );
    assert_eq!(RavroError::NoInputFiles.message(), "No files found");
    assert_eq!(
        RavroError::UnknownCodec(String::from("zip")).message(),
        "Unrecognized codec zip"
    );
    assert_eq!(
        RavroError::InvalidPattern(String::from("(")).message(),
        "Regular expression is invalid: ("
    );
}
