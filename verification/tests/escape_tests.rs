use csvrow::escape;
use csvrow::unescape_field;
use csvrow::CsvRow;

#[test]
fn escapes_complex_string() {
    let expression = "this is a \"test\", of course...";
    let result = escape(&expression, ',');

    assert_eq!("\"this is a \"\"test\"\", of course...\"", result)
}

#[test]
fn does_not_escape_simple_string() {
    let expression = "chupacabra";
    let result = escape(&expression, ',');

    assert_eq!(expression, result)
}

#[test]
fn escapes_value_holding_only_the_delimiter() {
    assert_eq!("\",\"", escape(",", ','));
}

#[test]
fn escapes_lone_quote() {
    assert_eq!("\"\"\"\"", escape("\"", ','));
}

#[test]
fn escaped_values_round_trip_through_tokenizer() {
    // no value puts a quote directly before the delimiter: on such values the
    // scan would read the quote as closing the field early
    let values = vec!["say \"hi\" there, now", "plain", "", "è é"];

    let mut row = String::new();
    for (i, value) in values.iter().enumerate() {
        if i > 0 {
            row.push(',');
        }
        row.push_str(&escape(value, ','));
    }

    let mut csv = CsvRow::new(&row, ',', false);
    let parsed = csv.fields();

    assert_eq!(values[..], parsed[..]);
}

#[test]
fn unescaping_literal_fields_gives_plain_fields() {
    let row = "january,\"leap day, the\",\"The \"\"Coder\"\" Man\",feb\"ruary";

    let mut literal = CsvRow::new(row, ',', true);
    let raw_fields = literal.fields();

    let mut plain = CsvRow::new(row, ',', false);
    let plain_fields = plain.fields();

    assert_eq!(raw_fields.len(), plain_fields.len());
    for (raw, plain_field) in raw_fields.iter().zip(plain_fields.iter()) {
        assert_eq!(&unescape_field(raw), plain_field);
    }
}

#[test]
fn unescapes_quoted_field_with_doubled_quote() {
    assert_eq!("a\"b", unescape_field("\"a\"\"b\""));
}
