use ravro::{
    filter_rows, parse_codec, parse_output_format, plan_table, project, render_csv, AvroValue,
    Codec, DecodedEntry, DecodedFile, FieldValue, OutputFormat, RavroError,
};


fn err_of<T>(r: Result<T, RavroError>) -> RavroError {
    match r {
        Err(e) => e,
        Ok(_) => panic!("expected an error"),
    }
}

fn record(pairs: &[(&str, &str)]) -> DecodedEntry {
    DecodedEntry::Value(FieldValue::Record(
        pairs
            .iter()
            .map(|(k, v)| (String::from(*k), FieldValue::Str(String::from(*v))))
            .collect(),
    ))
}

fn names(list: &[&str]) -> Vec<String> {
    list.iter().map(|s| String::from(*s)).collect()
}

fn sample_rows() -> Vec<Vec<ravro::AvroColumnarValue>> {
    let files = vec![DecodedFile {
        path: String::from("a.avro"),
        entries: vec![
            record(&[("name", "Marty"), ("town", "Hill Valley")]),
            record(&[("name", "Emmett"), ("town", "Hill Valley")]),
            record(&[("name", "Goldie"), ("town", "Courthouse")]),
        ],
    }];
    project(&files, &names(&["name", "town"]), None).unwrap()
}

fn texts(row: &[ravro::AvroColumnarValue]) -> Vec<String> {
    row.iter().map(|c| c.value().to_string()).collect()
}

#[test]
fn no_pattern_passes_rows_through_unchanged() {
    let rows = sample_rows();
    let kept = filter_rows(rows, &None).unwrap();
    assert_eq!(kept.len(), 3);
    assert_eq!(texts(&kept[0]), vec!["Marty", "Hill Valley"]);
}

#[test]
fn filter_keeps_rows_with_any_matching_cell_in_order() {
    let kept = filter_rows(sample_rows(), &Some(String::from("^E|Court"))).unwrap();
    assert_eq!(kept.len(), 2);
    assert_eq!(texts(&kept[0]), vec!["Emmett", "Hill Valley"]);
    assert_eq!(texts(&kept[1]), vec!["Goldie", "Courthouse"]);
}

#[test]
fn filter_uses_search_semantics_not_full_match() {
    let kept = filter_rows(sample_rows(), &Some(String::from("Valley"))).unwrap();
    assert_eq!(kept.len(), 2);
}

#[test]
fn filter_can_keep_nothing() {
    let kept = filter_rows(sample_rows(), &Some(String::from("DeLorean"))).unwrap();
    assert_eq!(kept.len(), 0);
}

#[test]
fn invalid_pattern_fails_fast() {
    let r = filter_rows(sample_rows(), &Some(String::from("(")));
    assert_eq!(err_of(r), RavroError::InvalidPattern(String::from("(")));
}

#[test]
fn invalid_pattern_fails_even_with_no_rows() {
    let r = filter_rows(Vec::new(), &Some(String::from("[")));
    assert_eq!(err_of(r), RavroError::InvalidPattern(String::from("[")));
}

#[test]
fn csv_output_has_header_line_plus_one_line_per_row() {
    let rows = sample_rows();
    let kept = vec![rows.into_iter().next().unwrap()];
    let two = vec![
        kept.into_iter().next().unwrap(),
        sample_rows().into_iter().nth(1).unwrap(),
    ];
    let out = render_csv(&names(&["name", "town"]), &two);
    let lines: Vec<&str> = out.lines().collect();
    assert_eq!(lines.len(), 3);
    assert_eq!(lines[0], "name,town");
    assert_eq!(lines[1], "Marty,Hill Valley");
    assert_eq!(lines[2], "Emmett,Hill Valley");
}

#[test]
fn csv_quotes_embedded_commas() {
    let files = vec![DecodedFile {
        path: String::from("a.avro"),
        entries: vec![record(&[("greeting", "hello, world"), ("plain", "x")])],
    }];
    let rows = project(&files, &names(&["greeting", "plain"]), None).unwrap();
    let out = render_csv(&names(&["greeting", "plain"]), &rows);
    let lines: Vec<&str> = out.lines().collect();
    assert_eq!(lines.len(), 2);
    assert_eq!(lines[1], "\"hello, world\",x");
}

#[test]
fn csv_quotes_a_single_empty_field() {
    let files = vec![DecodedFile {
        path: String::from("a.avro"),
        entries: vec![record(&[("a", "")])],
    }];
    let rows = project(&files, &names(&["a"]), None).unwrap();
    let out = render_csv(&names(&["a"]), &rows);
    assert_eq!(out, "a\n\"\"\n");
}

#[test]
fn csv_quotes_embedded_newlines() {
    let files = vec![DecodedFile {
        path: String::from("a.avro"),
        entries: vec![record(&[("a", "x\ny"), ("b", "z")])],
    }];
    let rows = project(&files, &names(&["a", "b"]), None).unwrap();
    let out = render_csv(&names(&["a", "b"]), &rows);
    assert_eq!(out, "a,b\n\"x\ny\",z\n");
}

#[test]
fn table_plan_flags_matches_and_absent_cells() {
    let files = vec![DecodedFile {
        path: String::from("a.avro"),
        entries: vec![record(&[("name", "Marty")])],
    }];
    let rows = project(&files, &names(&["name", "zzz"]), None).unwrap();
    assert!(matches!(rows[0][1].value(), AvroValue::Na));
    let plans = plan_table(&rows, &Some(String::from("Mar"))).unwrap();
    assert_eq!(plans.len(), 1);
    assert_eq!(plans[0].len(), 2);
    assert_eq!(plans[0][0].text, "Marty");
    assert!(plans[0][0].matched);
    assert!(!plans[0][0].absent);
    assert_eq!(plans[0][1].text, "N/A");
    assert!(!plans[0][1].matched);
    assert!(plans[0][1].absent);
}

#[test]
fn table_plan_without_pattern_marks_nothing_matched() {
    let rows = sample_rows();
    let plans = plan_table(&rows, &None).unwrap();
    for row in &plans {
        for cell in row {
            assert!(!cell.matched);
        }
    }
}

#[test]
fn table_plan_rejects_invalid_pattern() {
    let r = plan_table(&sample_rows(), &Some(String::from("(")));
    assert_eq!(err_of(r), RavroError::InvalidPattern(String::from("(")));
}

#[test]
fn output_format_selection() {
    assert_eq!(parse_output_format(&None).unwrap(), OutputFormat::Table);
    assert_eq!(
        parse_output_format(&Some(String::from("csv"))).unwrap(),
        OutputFormat::Csv
    );
    assert_eq!(
        parse_output_format(&Some(String::from("yaml"))).unwrap_err(),
        RavroError::UnsupportedFormat(String::from("yaml"))
    );
}

#[test]
fn codec_selection() {
    assert_eq!(parse_codec(&None).unwrap(), Codec::Null);
    assert_eq!(parse_codec(&Some(String::from("deflate"))).unwrap(), Codec::Deflate);
    assert_eq!(
        parse_codec(&Some(String::from("snappy"))).unwrap_err(),
        RavroError::UnknownCodec(String::from("snappy"))
    );
}
