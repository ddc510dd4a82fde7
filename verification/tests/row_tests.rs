use csvrow::CsvRow;

#[test]
fn can_parse_tiny_csv() {
    let row = "a,b,c,d";
    let mut csv = CsvRow::new(row, ',', false);

    let vec_t: Vec<_> = vec!["a", "b", "c", "d"];
    let vec_r = csv.fields();

    assert_eq!(vec_t[..], vec_r[..])
}

#[test]
fn can_parse_empty_row() {
    let row = "";

    let mut csv = CsvRow::new(row, ',', false);

    let vec_t: Vec<String> = vec![];
    let vec_r = csv.fields();

    assert_eq!(vec_t[..], vec_r[..])
}

#[test]
fn can_parse_simple_csv() {
    let row = r#"january,february,march,april"#;

    let mut csv = CsvRow::new(row, ',', false);

    let vec_t: Vec<_> = vec!["january", "february", "march", "april"];
    let vec_r = csv.fields();

    assert_eq!(vec_t[..], vec_r[..])
}

#[test]
fn can_parse_tiny_csv_with_non_ascii() {
    let row = r#"è,b,c,d"#;

    let mut csv = CsvRow::new(row, ',', false);

    let vec_t: Vec<_> = vec!["è", "b", "c", "d"];
    let vec_r = csv.fields();

    assert_eq!(vec_t[..], vec_r[..])
}

#[test]
fn can_parse_one_field_csv() {
    let row = "january";

    let mut csv = CsvRow::new(row, ',', false);

    let vec_t: Vec<_> = vec!["january"];
    let vec_r = csv.fields();

    assert_eq!(vec_t[..], vec_r[..])
}

#[test]
fn blank_field_mid_string() {
    let row = "january,,april";

    let mut csv = CsvRow::new(row, ',', false);

    let vec_t: Vec<_> = vec!["january", "", "april"];
    let vec_r = csv.fields();

    assert_eq!(vec_t[..], vec_r[..])
}

#[test]
fn trailing_comma_yields_empty_string() {
    let row = "january,";

    let mut csv = CsvRow::new(row, ',', false);

    let vec_t: Vec<_> = vec!["january", ""];
    let vec_r = csv.fields();

    assert_eq!(vec_t[..], vec_r[..])
}

#[test]
fn can_parse_simple_csv_with_quoted_field() {
    let row = r#"january,february,"leap day",march,april"#;

    let mut csv = CsvRow::new(row, ',', false);

    let vec_t: Vec<_> = vec!["january", "february", "leap day", "march", "april"];
    let vec_r = csv.fields();

    assert_eq!(vec_t[..], vec_r[..])
}

#[test]
fn can_parse_csv_with_quoted_field_containing_delim() {
    let row = r#"january,february,"leap day, the",march,april"#;

    let mut csv = CsvRow::new(row, ',', false);

    let vec_t: Vec<_> = vec!["january", "february", "leap day, the", "march", "april"];
    let vec_r = csv.fields();

    assert_eq!(vec_t[..], vec_r[..])
}

#[test]
fn can_parse_csv_with_quoted_field_containing_quote() {
    let row = r#"january,february,"The ""Coder"" Man",march,april"#;

    let mut csv = CsvRow::new(row, ',', false);

    let vec_t: Vec<_> = vec!["january", "february", "The \"Coder\" Man", "march", "april"];
    let vec_r = csv.fields();

    assert_eq!(vec_t[..], vec_r[..])
}

#[test]
fn can_parse_csv_with_orphaned_quote() {
    let row = r#"january,feb"ruary,march,april"#;

    let mut csv = CsvRow::new(row, ',', false);

    let vec_t: Vec<_> = vec!["january", "feb\"ruary", "march", "april"];
    let vec_r = csv.fields();

    assert_eq!(vec_t[..], vec_r[..])
}

#[test]
fn can_parse_csv_with_premature_close_quote() {
    let row = r#"january,"feb"ruary,march,april"#;

    let mut csv = CsvRow::new(row, ',', false);

    let vec_t: Vec<_> = vec!["january", "\"feb\"ruary,march,april"];
    let vec_r = csv.fields();

    assert_eq!(vec_t[..], vec_r[..])
}

#[test]
fn can_parse_csv_with_empty_quoted_field() {
    let row = r#"january,"""#;

    let mut csv = CsvRow::new(row, ',', false);

    let vec_t: Vec<_> = vec!["january", ""];
    let vec_r = csv.fields();

    assert_eq!(vec_t[..], vec_r[..])
}

#[test]
fn can_parse_simple_csv_with_spaces() {
    let row = r#"january, "february", march, april"#;

    let mut csv = CsvRow::new(row, ',', false);

    let vec_t: Vec<_> = vec!["january", " \"february\"", " march", " april"];
    let vec_r = csv.fields();

    assert_eq!(vec_t[..], vec_r[..])
}

#[test]
fn trailing_field_is_comma() {
    let expression = "\"Times-Roman\",\",\"";

    let mut result = CsvRow::new(expression, ',', false);
    let result = result.fields();

    assert_eq!("Times-Roman", result[0]);
}

#[test]
fn next_yields_fields_then_none_forever() {
    let mut csv = CsvRow::new("a,b", ',', false);

    assert_eq!(csv.next(), Some(String::from("a")));
    assert_eq!(csv.next(), Some(String::from("b")));
    assert_eq!(csv.next(), None);
    assert_eq!(csv.next(), None);
}

#[test]
fn field_count_is_delimiters_plus_one() {
    let mut csv = CsvRow::new("a,,b,,", ',', false);

    assert_eq!(csv.fields().len(), 5);
}

#[test]
fn can_parse_with_semicolon_delimiter() {
    let row = "one;\"two; and a half\";three";

    let mut csv = CsvRow::new(row, ';', false);

    let vec_t: Vec<_> = vec!["one", "two; and a half", "three"];
    let vec_r = csv.fields();

    assert_eq!(vec_t[..], vec_r[..])
}

#[test]
fn literal_mode_keeps_quotes_intact() {
    let row = r#"january,"leap day, the","The ""Coder"" Man""#;

    let mut csv = CsvRow::new(row, ',', true);

    let vec_t: Vec<_> = vec!["january", "\"leap day, the\"", "\"The \"\"Coder\"\" Man\""];
    let vec_r = csv.fields();

    assert_eq!(vec_t[..], vec_r[..])
}

#[test]
fn stray_opening_quote_swallows_delimiter() {
    let row = "\",x";

    let mut csv = CsvRow::new(row, ',', false);

    let vec_t: Vec<_> = vec!["\",x"];
    let vec_r = csv.fields();

    assert_eq!(vec_t[..], vec_r[..])
}
