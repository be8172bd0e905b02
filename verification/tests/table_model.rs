use tableformat::table::Alignment;
use tableformat::table::Column;
use tableformat::table::Table;

#[test]
fn add_column_existing_lines() {
    let mut actual = Table::default();
    actual.add_column(Some("column 1"), None);
    actual.add_column(Some("column 2"), Some(Alignment::Left));
    actual.push(Some("value 1.1"));
    actual.push(Some("value 1.2"));
    actual.next_row();
    actual.push(Some("value 2.1"));
    actual.push(Some("value 2.2"));

    let expected = vec![
        Column {
            largest_value: 9,
            name: Some("column 1"),
            alignment: None,
            values: vec![Some("value 1.1"), Some("value 2.1")],
        },
        Column {
            largest_value: 9,
            name: Some("column 2"),
            alignment: Some(Alignment::Left),
            values: vec![Some("value 1.2"), Some("value 2.2")],
        },
    ];

    assert_eq!(expected, actual.columns)
}

#[test]
fn add_column_missing_columns() {
    let mut actual = Table::default();
    actual.add_column(Some("column 1"), None);
    actual.add_column(Some("column 2"), Some(Alignment::Left));
    actual.push(Some("value 1.1"));
    actual.push(Some("value 1.2"));
    actual.next_row();
    actual.push(Some("value 2.1"));
    actual.push(Some("value 2.2"));
    actual.push(Some("value 2.3"));
    actual.next_row();
    actual.push(Some("value 3.1"));
    actual.next_row();
    actual.push(Some("value 4.1"));
    actual.push(Some("value 4.2"));
    actual.push(Some("value 4.3"));

    let expected = vec![
        Column {
            largest_value: 9,
            name: Some("column 1"),
            alignment: None,
            values: vec![
                Some("value 1.1"),
                Some("value 2.1"),
                Some("value 3.1"),
                Some("value 4.1"),
            ],
        },
        Column {
            largest_value: 9,
            name: Some("column 2"),
            alignment: Some(Alignment::Left),
            values: vec![
                Some("value 1.2"),
                Some("value 2.2"),
                None,
                Some("value 4.2"),
            ],
        },
        Column {
            largest_value: 9,
            name: None,
            alignment: None,
            values: vec![None, Some("value 2.3"), None, Some("value 4.3")],
        },
    ];

    assert_eq!(expected, actual.columns)
}

#[test]
fn ragged_row_is_padded_with_absent_values() {
    let mut t = Table::default();
    t.add_column(Some("a"), None);
    t.add_column(Some("b"), None);
    t.add_column(Some("c"), None);
    t.push(Some("only one"));
    t.next_row();
    assert_eq!(vec![Some("only one")], t.columns[0].values);
    assert_eq!(vec![None], t.columns[1].values);
    assert_eq!(vec![None], t.columns[2].values);
}

#[test]
fn new_column_is_backfilled_for_completed_rows() {
    let mut t = Table::default();
    t.add_column(Some("a"), None);
    t.push(Some("r1"));
    t.next_row();
    t.push(Some("r2"));
    t.push(Some("extra"));
    assert_eq!(2, t.columns.len());
    assert_eq!(None, t.columns[1].name);
    assert_eq!(None, t.columns[1].alignment);
    assert_eq!(vec![None, Some("extra")], t.columns[1].values);
}

#[test]
fn largest_value_tracks_name_and_values() {
    let mut t = Table::default();
    t.add_column(Some("h"), None);
    assert_eq!(1, t.columns[0].largest_value);
    t.push(Some("a"));
    t.next_row();
    t.push(Some("bb"));
    t.next_row();
    t.push(Some("ccc"));
    assert_eq!(3, t.columns[0].largest_value);
}

#[test]
fn len_counts_the_row_in_progress() {
    let mut t = Table::default();
    assert_eq!(1, t.len());
    assert!(!t.is_empty());
    t.push(Some("x"));
    t.next_row();
    assert_eq!(2, t.len());
}
