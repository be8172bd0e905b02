use tableformat::parser::next;
use tableformat::parser::parse;
use tableformat::parser::parse_column;
use tableformat::parser::read_until;
use tableformat::parser::skip_spaces;
use tableformat::table::Alignment;

#[test]
fn parse_valid_table_with_header() {
    let content = "| column 1  | column 2    |                  |              column 4 |
|-----------|:------------|:----------------:|----------------------:|
| value 1.1 | a value 1.2 | a long value 1.3 | a long long value 1.4 |
| value 2.1 | value 2.2   |                  |                       |
| value 3.1 | value 3.2   |    value 3.3     |             value 3.4 |
";

    let t = parse(content).unwrap();
    assert_eq!(4, t.columns.len(), "number of columns");

    assert_eq!(Some("column 1"), t.columns[0].name);
    assert_eq!(Some("column 2"), t.columns[1].name);
    assert_eq!(None, t.columns[2].name);
    assert_eq!(Some("column 4"), t.columns[3].name);

    assert_eq!(None, t.columns[0].alignment);
    assert_eq!(Some(Alignment::Left), t.columns[1].alignment);
    assert_eq!(Some(Alignment::Centered), t.columns[2].alignment);
    assert_eq!(Some(Alignment::Right), t.columns[3].alignment);

    assert_eq!(3, t.columns[0].values.len());
    assert_eq!(Some("value 1.1"), t.columns[0].values[0]);
    assert_eq!(Some("value 2.1"), t.columns[0].values[1]);
    assert_eq!(Some("value 3.1"), t.columns[0].values[2]);

    assert_eq!(3, t.columns[1].values.len());
    assert_eq!(Some("a value 1.2"), t.columns[1].values[0]);
    assert_eq!(Some("value 2.2"), t.columns[1].values[1]);
    assert_eq!(Some("value 3.2"), t.columns[1].values[2]);

    assert_eq!(3, t.columns[2].values.len());
    assert_eq!(Some("a long value 1.3"), t.columns[2].values[0]);
    assert_eq!(None, t.columns[2].values[1]);
    assert_eq!(Some("value 3.3"), t.columns[2].values[2]);

    assert_eq!(3, t.columns[3].values.len());
    assert_eq!(Some("a long long value 1.4"), t.columns[3].values[0]);
    assert_eq!(None, t.columns[3].values[1]);
    assert_eq!(Some("value 3.4"), t.columns[3].values[2]);
}

#[test]
fn parse_valid_table_no_header() {
    let content = "| value 1.1 | a value 1.2 | a long value 1.3 | a long long value 1.4 |
| value 2.1 | value 2.2   |                  |                       |
| value 3.1 | value 3.2   |    value 3.3     |             value 3.4 |
";

    let t = parse(content).unwrap();
    assert_eq!(4, t.columns.len(), "number of columns");

    assert_eq!(None, t.columns[0].name);
    assert_eq!(None, t.columns[1].name);
    assert_eq!(None, t.columns[2].name);
    assert_eq!(None, t.columns[3].name);

    assert_eq!(None, t.columns[0].alignment);
    assert_eq!(None, t.columns[1].alignment);
    assert_eq!(None, t.columns[2].alignment);
    assert_eq!(None, t.columns[3].alignment);

    assert_eq!(3, t.columns[0].values.len());
    assert_eq!(Some("value 1.1"), t.columns[0].values[0]);
    assert_eq!(Some("value 2.1"), t.columns[0].values[1]);
    assert_eq!(Some("value 3.1"), t.columns[0].values[2]);

    assert_eq!(3, t.columns[1].values.len());
    assert_eq!(Some("a value 1.2"), t.columns[1].values[0]);
    assert_eq!(Some("value 2.2"), t.columns[1].values[1]);
    assert_eq!(Some("value 3.2"), t.columns[1].values[2]);

    assert_eq!(3, t.columns[2].values.len());
    assert_eq!(Some("a long value 1.3"), t.columns[2].values[0]);
    assert_eq!(None, t.columns[2].values[1]);
    assert_eq!(Some("value 3.3"), t.columns[2].values[2]);

    assert_eq!(3, t.columns[3].values.len());
    assert_eq!(Some("a long long value 1.4"), t.columns[3].values[0]);
    assert_eq!(None, t.columns[3].values[1]);
    assert_eq!(Some("value 3.4"), t.columns[3].values[2]);
}

#[test]
fn parse_column_with_text() {
    assert_eq!(
        (Some("column 1"), "| column 2 |"),
        parse_column(" column 1 | column 2 |").unwrap()
    )
}

#[test]
fn parse_column_no_text() {
    assert_eq!(
        (None, "| column 2 |"),
        parse_column("| column 2 |").unwrap()
    )
}

#[test]
fn skip_spaces_when_no_spaces() {
    assert_eq!("no space", skip_spaces("no space"))
}

#[test]
fn skip_spaces_when_spaces_in_front() {
    assert_eq!("with space", skip_spaces("   with space"))
}

#[test]
fn skip_spaces_when_spaces_in_back() {
    assert_eq!("with space", skip_spaces("   with space   "))
}

#[test]
fn read_until_empty_string() {
    assert_eq!((None, ""), read_until("", 'x'))
}

#[test]
fn read_until_no_match() {
    assert_eq!((None, "this is a test"), read_until("this is a test", 'x'))
}

#[test]
fn read_until_fullmatch() {
    assert_eq!(
        (Some("this is a test"), "x"),
        read_until("this is a testx", 'x')
    )
}

#[test]
fn next_empty_string() {
    assert_eq!((None, ""), next(""))
}

#[test]
fn next_non_empty_string() {
    assert_eq!((Some('t'), "his is a test"), next("this is a test"))
}

#[test]
fn alignment_inference_from_delimiter_tokens() {
    let content = "| a | b | c | d |\n|:---:|:---|---:|---|\n| 1 | 2 | 3 | 4 |\n";
    let t = parse(content).unwrap();
    assert_eq!(Some(Alignment::Centered), t.columns[0].alignment);
    assert_eq!(Some(Alignment::Left), t.columns[1].alignment);
    assert_eq!(Some(Alignment::Right), t.columns[2].alignment);
    assert_eq!(None, t.columns[3].alignment);
}

#[test]
fn fallback_to_no_header_when_second_line_is_data() {
    let content = "| x | y |\n| aa | bb |\n";
    let t = parse(content).unwrap();
    assert!(t.no_headers);
    assert_eq!(2, t.columns.len());
    assert_eq!(None, t.columns[0].name);
    assert_eq!(None, t.columns[1].name);
    assert_eq!(vec![Some("x"), Some("aa")], t.columns[0].values);
    assert_eq!(vec![Some("y"), Some("bb")], t.columns[1].values);
}

#[test]
fn row_counts_match_across_columns() {
    let content = "| a | b |\n|---|---|\n| 1 | 2 |\n| 3 | 4 |\n";
    let t = parse(content).unwrap();
    let rows = t.len();
    for column in t.columns.as_slice() {
        assert_eq!(rows, column.values.len());
    }
}

#[test]
fn empty_input_parses_to_a_table_without_columns() {
    let t = parse("").unwrap();
    assert_eq!(0, t.columns.len());
    assert_eq!(1, t.len());
    assert!(!t.no_headers);
}

#[test]
fn malformed_delimiter_error_names_the_character() {
    let err = parse("a | b |\n").unwrap_err();
    assert_eq!(
        "expecting header definition surrounded by | but found a",
        err.message()
    );
}

#[test]
fn malformed_body_error_names_the_character() {
    let err = parse("| a |\n|---|\n| 1 |\nx | 2 |\n").unwrap_err();
    assert_eq!(
        "expecting body definition surrounded by | but found x",
        err.message()
    );
}

#[test]
fn malformed_delimiter_line_error_names_the_character() {
    let err = parse("| a |\nx---|\n| 1 |\n").unwrap_err();
    assert_eq!(
        "expecting header delimiter definition surrounded by | but found x",
        err.message()
    );
}

#[test]
fn unterminated_token_error() {
    let err = parse("| a").unwrap_err();
    assert_eq!("failed to find closing |", err.message());
}
