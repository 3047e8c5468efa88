use avro_rs::types::Record;
use avro_rs::{Schema, Writer};
use ravro::{Avro, AvroValue, CliService, RavroError};

fn err_of<T>(r: Result<T, RavroError>) -> RavroError {
    match r {
        Err(e) => e,
        Ok(_) => panic!("expected an error"),
    }
}


const PERSON_SCHEMA: &str = r#"
{
  "type": "record",
  "name": "person",
  "fields": [
    {"name": "firstName", "type": "string"},
    {"name": "lastName", "type": "string"},
    {"name": "age", "type": "int"}
  ]
}
"#;

fn person_avro_bytes(people: &[(&str, &str, i32)]) -> Vec<u8> {
    let schema = Schema::parse_str(PERSON_SCHEMA).unwrap();
    let mut writer = Writer::new(&schema, Vec::new());
    for (first, last, age) in people {
        let mut record = Record::new(writer.schema()).unwrap();
        record.put("firstName", *first);
        record.put("lastName", *last);
        record.put("age", *age);
        writer.append(record).unwrap();
    }
    writer.flush().unwrap();
    writer.into_inner()
}

fn bttf_source() -> (String, Vec<u8>) {
    (
        String::from("./test_assets/bttf.avro"),
        person_avro_bytes(&[
            ("Marty", "McFly", 17),
            ("Emmett", "Brown", 65),
            ("Biff", "Tannen", 18),
        ]),
    )
}

#[test]
fn test_get_all_field_names() {
    println!("asdas");
    let cli = CliService::from(vec![bttf_source()], None).unwrap();
    let field_names = cli.get_all_field_names().unwrap();
    assert_eq!(field_names, vec!["firstName", "lastName", "age"]);
}

#[test]
fn test_get_fields() {
    println!("asdas");
    let _cli = CliService::from(vec![bttf_source()], None).unwrap();
}

#[test]
fn get_fields_projects_values_from_real_container() {
    let cli = CliService::from(vec![bttf_source()], None).unwrap();
    let fields = vec![String::from("firstName"), String::from("age")];
    let rows = cli.get_fields(&fields, None).unwrap();
    assert_eq!(rows.len(), 3);
    let texts: Vec<Vec<String>> = rows
        .iter()
        .map(|row| row.iter().map(|c| c.value().to_string()).collect())
        .collect();
    assert_eq!(texts[0], vec!["Marty", "17"]);
    assert_eq!(texts[1], vec!["Emmett", "65"]);
    assert_eq!(texts[2], vec!["Biff", "18"]);
}

#[test]
fn get_fields_honours_take_across_files() {
    let a = (String::from("a.avro"), person_avro_bytes(&[("one", "A", 1)]));
    let b = (
        String::from("b.avro"),
        person_avro_bytes(&[("two", "B", 2), ("three", "C", 3)]),
    );
    let cli = CliService::from(vec![a, b], None).unwrap();
    let fields = vec![String::from("firstName")];
    let rows = cli.get_fields(&fields, Some(2)).unwrap();
    assert_eq!(rows.len(), 2);
    assert_eq!(rows[0][0].value().to_string(), "one");
    assert_eq!(rows[1][0].value().to_string(), "two");
}

#[test]
fn unknown_requested_field_is_absent_per_row() {
    let cli = CliService::from(vec![bttf_source()], None).unwrap();
    let fields = vec![String::from("zzz")];
    let rows = cli.get_fields(&fields, None).unwrap();
    assert_eq!(rows.len(), 3);
    for row in &rows {
        assert!(matches!(row[0].value(), AvroValue::Na));
        assert_eq!(row[0].value().to_string(), "N/A");
    }
}

#[test]
fn avro_get_fields_returns_rendered_strings() {
    let avro = Avro::from(vec![bttf_source()], None).unwrap();
    let fields = vec![String::from("lastName"), String::from("age")];
    let rows = avro.get_fields(&fields).unwrap();
    assert_eq!(rows.len(), 3);
    assert_eq!(rows[0], vec!["McFly", "17"]);
    assert_eq!(rows[2], vec!["Tannen", "18"]);
}

#[test]
fn empty_source_set_is_rejected() {
    assert_eq!(err_of(CliService::from(Vec::new(), None)), RavroError::NoInputFiles);
}

#[test]
fn unknown_codec_name_fails_fast() {
    let r = CliService::from(vec![bttf_source()], Some(String::from("snappy")));
    assert_eq!(err_of(r), RavroError::UnknownCodec(String::from("snappy")));
}

#[test]
fn deflate_codec_inflates_whole_file_bytes() {
    let (path, mut bytes) = bttf_source();
    avro_rs::Codec::Deflate.compress(&mut bytes).unwrap();
    let cli = CliService::from(vec![(path, bytes)], Some(String::from("deflate"))).unwrap();
    let field_names = cli.get_all_field_names().unwrap();
    assert_eq!(field_names, vec!["firstName", "lastName", "age"]);
}

#[test]
fn garbage_bytes_fail_with_decode_error_naming_the_path() {
    let r = CliService::from(
        vec![(String::from("bad.avro"), vec![1, 2, 3, 4])],
        None,
    );
    assert_eq!(err_of(r), RavroError::Decode(String::from("bad.avro")));
}

#[test]
fn deflate_failure_names_the_path() {
    let r = CliService::from(
        vec![(String::from("bad.avro"), vec![255, 255, 255])],
        Some(String::from("deflate")),
    );
    assert_eq!(err_of(r), RavroError::Decode(String::from("bad.avro")));
}

#[test]
fn union_fields_render_unwrapped() {
    let schema_text = r#"
    {
      "type": "record",
      "name": "person",
      "fields": [{"name": "nickname", "type": ["null", "string"]}]
    }
    "#;
    let schema = Schema::parse_str(schema_text).unwrap();
    let mut writer = Writer::new(&schema, Vec::new());
    let mut with_name = Record::new(writer.schema()).unwrap();
    with_name.put("nickname", Some("Doc"));
    writer.append(with_name).unwrap();
    let mut without_name = Record::new(writer.schema()).unwrap();
    without_name.put("nickname", None::<&str>);
    writer.append(without_name).unwrap();
    writer.flush().unwrap();
    let bytes = writer.into_inner();

    let cli = CliService::from(vec![(String::from("u.avro"), bytes)], None).unwrap();
    let fields = vec![String::from("nickname")];
    let rows = cli.get_fields(&fields, None).unwrap();
    assert_eq!(rows.len(), 2);
    assert_eq!(rows[0][0].value().to_string(), "Doc");
    assert_eq!(rows[1][0].value().to_string(), "null");
}

#[test]
fn map_fields_render_as_keyed_entries() {
    let schema_text = r#"
    {
      "type": "record",
      "name": "person",
      "fields": [{"name": "scores", "type": {"type": "map", "values": "long"}}]
    }
    "#;
    let schema = Schema::parse_str(schema_text).unwrap();
    let mut writer = Writer::new(&schema, Vec::new());
    let mut record = Record::new(writer.schema()).unwrap();
    let mut scores = std::collections::HashMap::new();
    scores.insert("math", 97i64);
    record.put("scores", scores);
    writer.append(record).unwrap();
    writer.flush().unwrap();
    let bytes = writer.into_inner();

    let cli = CliService::from(vec![(String::from("m.avro"), bytes)], None).unwrap();
    let fields = vec![String::from("scores")];
    let rows = cli.get_fields(&fields, None).unwrap();
    assert_eq!(rows[0][0].value().to_string(), "math: 97");
}

#[test]
fn empty_dataset_yields_empty_dataset_error() {
    let cli = CliService {
        files: vec![ravro::DecodedFile { path: String::from("empty.avro"), entries: Vec::new() }],
    };
    assert_eq!(cli.get_all_field_names().unwrap_err(), RavroError::EmptyDataset);
}
