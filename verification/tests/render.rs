use tableformat::markdown;
use tableformat::parser::parse;
use tableformat::table;

#[test]
fn format_table_with_headers() {
    let mut parsed_table = table::Table::default();
    parsed_table.add_column(Some("column 1"), None);
    parsed_table.add_column(Some("column 2"), Some(table::Alignment::Left));
    parsed_table.add_column(Some("column 3"), Some(table::Alignment::Centered));
    parsed_table.add_column(Some("column 4"), Some(table::Alignment::Right));
    parsed_table.push(Some("value 1.1"));
    parsed_table.push(Some("a value 1.2"));
    parsed_table.push(Some("a long value 1.3"));
    parsed_table.push(Some("a long long value 1.4"));
    parsed_table.next_row();
    parsed_table.push(Some("value 2.1"));
    parsed_table.push(Some("value 2.2"));
    parsed_table.next_row();
    parsed_table.push(Some("value 3.1"));
    parsed_table.push(Some("value 3.2"));
    parsed_table.push(Some("value 3.3"));
    parsed_table.push(Some("value 3.4"));

    let t: markdown::Table = parsed_table.into();

    let content = t.render();

    assert_eq!(
        "| column 1  | column 2    |     column 3     |              column 4 |
|-----------|:------------|:----------------:|----------------------:|
| value 1.1 | a value 1.2 | a long value 1.3 | a long long value 1.4 |
| value 2.1 | value 2.2   |                  |                       |
| value 3.1 | value 3.2   |    value 3.3     |             value 3.4 |
",
        content
    );
}

#[test]
fn format_table_no_headers() {
    let mut parsed_table = table::Table::default();
    parsed_table.no_headers = true;
    parsed_table.push(Some("value 1.1"));
    parsed_table.push(Some("a value 1.2"));
    parsed_table.push(Some("a long value 1.3"));
    parsed_table.push(Some("a long long value 1.4"));
    parsed_table.next_row();
    parsed_table.push(Some("value 2.1"));
    parsed_table.push(Some("value 2.2"));
    parsed_table.next_row();
    parsed_table.push(Some("value 3.1"));
    parsed_table.push(Some("value 3.2"));
    parsed_table.push(Some("value 3.3"));
    parsed_table.push(Some("value 3.4"));

    let t: markdown::Table = parsed_table.into();

    let content = t.render();

    assert_eq!(
        "| value 1.1 | a value 1.2 | a long value 1.3 | a long long value 1.4 |
| value 2.1 | value 2.2   |                  |                       |
| value 3.1 | value 3.2   | value 3.3        | value 3.4             |
",
        content
    );
}

#[test]
fn literal_scenario_parses_and_renders_back() {
    let content = "| a | b |\n|---|--:|\n| 1 | 22 |\n";
    let t = parse(content).unwrap();

    assert_eq!(2, t.columns.len());
    assert_eq!(Some("a"), t.columns[0].name);
    assert_eq!(Some("b"), t.columns[1].name);
    assert_eq!(None, t.columns[0].alignment);
    assert_eq!(Some(table::Alignment::Right), t.columns[1].alignment);
    assert_eq!(vec![Some("1")], t.columns[0].values);
    assert_eq!(vec![Some("22")], t.columns[1].values);

    let rendered: markdown::Table = t.into();
    assert_eq!("| a |  b |\n|---|---:|\n| 1 | 22 |\n", rendered.render());
}

#[test]
fn round_trip_of_a_no_header_table_keeps_the_values() {
    let content = "| one | two |\n| three | four |\n";
    let first = parse(content).unwrap();
    assert!(first.no_headers);
    let rendered = markdown::Table::from(first).render();
    assert_eq!("| one   | two  |\n| three | four |\n", rendered);
    let again = parse(rendered.as_str()).unwrap();
    assert!(again.no_headers);
    assert_eq!(2, again.columns.len());
    assert_eq!(vec![Some("one"), Some("three")], again.columns[0].values);
    assert_eq!(vec![Some("two"), Some("four")], again.columns[1].values);
}

#[test]
fn round_trip_preserves_names_alignments_and_values() {
    let content = "| left | right | off |\n|:-----|------:|-----|\n| one | two | three |\n| x |  | z |\n";
    let first = parse(content).unwrap();
    let rendered = markdown::Table::from(first).render();
    let reparsed = parse(rendered.as_str()).unwrap();
    let again = parse(content).unwrap();

    assert_eq!(again.no_headers, reparsed.no_headers);
    assert_eq!(again.columns.len(), reparsed.columns.len());
    for (a, b) in again.columns.as_slice().iter().zip(reparsed.columns.as_slice()) {
        assert_eq!(a.name, b.name);
        assert_eq!(a.alignment, b.alignment);
        assert_eq!(a.values, b.values);
    }
}
