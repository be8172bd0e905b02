//! Laws of the table model and the parser: the row/column invariant of
//! every parsed table, the padding behaviour of row termination, the
//! backfill of implicitly created columns, and the effect of the
//! no-header reinterpretation.

use crate::parser::lemma_find_bound;
use crate::parser::spec_delim_loop;
use crate::parser::spec_header_loop;
use crate::parser::spec_parse;
use crate::parser::spec_parse_column;
use crate::parser::spec_parse_column_names;
use crate::parser::spec_parse_delimiter_line;
use crate::parser::spec_reinterpret;
use crate::parser::spec_reinterpret_upto;
use crate::parser::spec_rows_loop;
use crate::parser::spec_set_alignment;
use crate::parser::spec_set_name;
use crate::parser::spec_trim;
use crate::table::TableModel;
use crate::table::blank_values;
use crate::table::empty_table;
use crate::table::spec_add_column;
use crate::table::spec_len;
use crate::table::spec_next_row;
use crate::table::spec_push;
use vstd::prelude::*;

verus! {

/// The construction invariant of the table model: the cursor is inside
/// the columns, every column the cursor has passed on the current row has
/// a value for it, and every column it has not reached yet does not.
pub open spec fn row_consistent(t: TableModel) -> bool {
    &&& t.current_column <= t.columns.len()
    &&& forall|i: int|
        0 <= i < t.current_column ==> t.columns[i].values.len() == t.current_row + 1
    &&& forall|i: int|
        t.current_column <= i < t.columns.len() ==> t.columns[i].values.len() == t.current_row
}

/// `push` preserves the construction invariant.
pub proof fn lemma_push_row_consistent(t: TableModel, v: Option<Seq<char>>)
    requires
        row_consistent(t),
    ensures
        row_consistent(spec_push(t, v)),
{
}

/// `next_row` preserves the construction invariant.
pub proof fn lemma_next_row_row_consistent(t: TableModel)
    requires
        row_consistent(t),
    ensures
        row_consistent(spec_next_row(t)),
{
}

/// Law (ragged-row padding): ending a row appends an absent value to every
/// column the cursor has not reached, leaves the columns before the cursor
/// alone, and restarts the cursor on the next row.
pub proof fn lemma_ragged_row_padding(t: TableModel)
    requires
        t.current_column <= t.columns.len(),
    ensures
        forall|i: int|
            t.current_column <= i < t.columns.len() ==> spec_next_row(t).columns[i].values
                == t.columns[i].values.push(None::<Seq<char>>),
        forall|i: int|
            0 <= i < t.current_column ==> spec_next_row(t).columns[i].values
                == t.columns[i].values,
        spec_next_row(t).current_row == t.current_row + 1,
        spec_next_row(t).current_column == 0,
{
}

/// Law (new-column backfill): a `push` at a column index equal to the
/// column count creates that column with an absent value for every row
/// already completed, then the pushed value, leaving the others alone.
pub proof fn lemma_new_column_backfill(t: TableModel, v: Option<Seq<char>>)
    requires
        t.current_column == t.columns.len(),
    ensures
        spec_push(t, v).columns.len() == t.columns.len() + 1,
        spec_push(t, v).columns[t.current_column as int].values == blank_values(
            t.current_row,
        ).push(v),
        forall|j: int|
            0 <= j < t.current_row ==> spec_push(t, v).columns[t.current_column as int].values[j]
                is None,
        forall|j: int| 0 <= j < t.columns.len() ==> spec_push(t, v).columns[j] == t.columns[j],
{
}

/// The cumulative effect of the first `i` reinterpretation steps: each
/// processed column has lost name and alignment and carries its former
/// name as its newest value; the rest are untouched; the cursor sits at
/// `i`.
pub proof fn lemma_upto_effect(t: TableModel, i: int)
    requires
        t.current_column == 0,
        0 <= i <= t.columns.len(),
    ensures
        spec_reinterpret_upto(t, i).current_column == i,
        spec_reinterpret_upto(t, i).current_row == t.current_row,
        spec_reinterpret_upto(t, i).no_headers == t.no_headers,
        spec_reinterpret_upto(t, i).columns.len() == t.columns.len(),
        forall|j: int|
            0 <= j < i ==> spec_reinterpret_upto(t, i).columns[j].name is None
                && spec_reinterpret_upto(t, i).columns[j].alignment is None
                && spec_reinterpret_upto(t, i).columns[j].values == t.columns[j].values.push(
                t.columns[j].name,
            ),
        forall|j: int|
            i <= j < t.columns.len() ==> spec_reinterpret_upto(t, i).columns[j] == t.columns[j],
    decreases i,
{
    if i > 0 {
        lemma_upto_effect(t, i - 1);
        let u = spec_reinterpret_upto(t, i - 1);
        let u1 = spec_set_alignment(u, i - 1, None);
        let u2 = spec_push(u1, u1.columns[i - 1].name);
        let u3 = spec_set_name(u2, i - 1, None);
        assert(spec_reinterpret_upto(t, i) == u3);
        assert(u1.columns[i - 1].name == t.columns[i - 1].name);
        assert(u2.columns[i - 1].values == t.columns[i - 1].values.push(t.columns[i - 1].name));
    }
}

/// Law (fallback to no header): the reinterpretation marks the table
/// header-less, clears every column's name and alignment, turns each name
/// into that column's newest value, and completes the row.
pub proof fn lemma_fallback_to_no_header(t: TableModel)
    requires
        t.current_column == 0,
    ensures
        spec_reinterpret(t).no_headers,
        spec_reinterpret(t).columns.len() == t.columns.len(),
        spec_reinterpret(t).current_row == t.current_row + 1,
        spec_reinterpret(t).current_column == 0,
        forall|i: int| 0 <= i < t.columns.len() ==> spec_reinterpret(t).columns[i].name is None,
        forall|i: int|
            0 <= i < t.columns.len() ==> spec_reinterpret(t).columns[i].alignment is None,
        forall|i: int|
            0 <= i < t.columns.len() ==> spec_reinterpret(t).columns[i].values
                == t.columns[i].values.push(t.columns[i].name),
{
    let t0 = TableModel { no_headers: true, ..t };
    lemma_upto_effect(t0, t.columns.len() as int);
}

/// The reinterpretation keeps the construction invariant.
pub proof fn lemma_reinterpret_row_consistent(t: TableModel)
    requires
        row_consistent(t),
        t.current_column == 0,
    ensures
        row_consistent(spec_reinterpret(t)),
{
    lemma_fallback_to_no_header(t);
}

/// Phase 1 keeps the construction invariant and never starts a row.
pub proof fn lemma_header_loop_row_consistent(t: TableModel, s: Seq<char>)
    requires
        row_consistent(t),
        t.current_row == 0,
    ensures
        spec_header_loop(t, s) matches Ok(p) ==> row_consistent(p.0) && p.0.current_row == 0
            && p.0.current_column == t.current_column,
    decreases s.len(),
{
    if s.len() > 0 && s[0] == '|' {
        let rest = s.subrange(1, s.len() as int);
        if !(rest.len() > 0 && rest[0] == '\n') {
            match spec_parse_column(rest) {
                Err(_) => {},
                Ok(p) => {
                    lemma_find_bound(rest, '|');
                    let t2 = spec_add_column(t, p.0, None);
                    assert(row_consistent(t2));
                    lemma_header_loop_row_consistent(t2, p.1);
                },
            }
        }
    }
}

/// Phase 2 keeps the construction invariant and leaves the cursor at 0.
pub proof fn lemma_delim_loop_row_consistent(t: TableModel, s: Seq<char>, index: nat)
    requires
        row_consistent(t),
        t.current_column == 0,
    ensures
        spec_delim_loop(t, s, index) matches Ok(p) ==> row_consistent(p.0) && p.0.current_column
            == 0,
    decreases s.len(),
{
    if s.len() > 0 && s[0] == '|' {
        let rest = s.subrange(1, s.len() as int);
        if !(rest.len() > 0 && rest[0] == '\n') {
            match spec_parse_column(rest) {
                Err(_) => {},
                Ok(p) => {
                    lemma_find_bound(rest, '|');
                    match p.0 {
                        None => {
                            lemma_reinterpret_row_consistent(t);
                        },
                        Some(tok) => {
                            if index >= t.columns.len() {
                                lemma_reinterpret_row_consistent(t);
                            } else if tok[0] == ':' && tok[tok.len() - 1] == ':' {
                                lemma_delim_loop_row_consistent(
                                    spec_set_alignment(
                                        t,
                                        index as int,
                                        Some(crate::table::Alignment::Centered),
                                    ),
                                    p.1,
                                    index + 1,
                                );
                            } else if tok[0] == ':' {
                                lemma_delim_loop_row_consistent(
                                    spec_set_alignment(
                                        t,
                                        index as int,
                                        Some(crate::table::Alignment::Left),
                                    ),
                                    p.1,
                                    index + 1,
                                );
                            } else if tok[tok.len() - 1] == ':' {
                                lemma_delim_loop_row_consistent(
                                    spec_set_alignment(
                                        t,
                                        index as int,
                                        Some(crate::table::Alignment::Right),
                                    ),
                                    p.1,
                                    index + 1,
                                );
                            } else if tok[0] == '-' {
                                lemma_delim_loop_row_consistent(
                                    spec_set_alignment(t, index as int, None),
                                    p.1,
                                    index + 1,
                                );
                            } else {
                                lemma_reinterpret_row_consistent(t);
                            }
                        },
                    }
                },
            }
        }
    }
}

/// Phase 3 keeps the construction invariant.
pub proof fn lemma_rows_loop_row_consistent(t: TableModel, s: Seq<char>)
    requires
        row_consistent(t),
    ensures
        spec_rows_loop(t, s) matches Ok(m) ==> row_consistent(m),
    decreases s.len(),
{
    if s.len() > 0 {
        let rest = s.subrange(1, s.len() as int);
        if rest.len() > 0 && s[0] == '|' {
            if rest[0] == '\n' {
                lemma_next_row_row_consistent(t);
                lemma_rows_loop_row_consistent(
                    spec_next_row(t),
                    rest.subrange(1, rest.len() as int),
                );
            } else {
                match spec_parse_column(rest) {
                    Err(_) => {},
                    Ok(p) => {
                        lemma_find_bound(rest, '|');
                        lemma_push_row_consistent(t, p.0);
                        lemma_rows_loop_row_consistent(spec_push(t, p.0), p.1);
                    },
                }
            }
        }
    }
}

/// Every table the parser succeeds with satisfies the construction
/// invariant.
pub proof fn lemma_parse_row_consistent(s: Seq<char>)
    ensures
        spec_parse(s) matches Ok(t) ==> row_consistent(t),
{
    assert(row_consistent(empty_table()));
    lemma_header_loop_row_consistent(empty_table(), spec_trim(s));
    match spec_parse_column_names(empty_table(), s) {
        Err(_) => {},
        Ok(p1) => {
            lemma_delim_loop_row_consistent(p1.0, spec_trim(p1.1), 0);
            match spec_parse_delimiter_line(p1.0, p1.1) {
                Err(_) => {},
                Ok(p2) => {
                    let s2 = match p2.1 {
                        Some(rem) => rem,
                        None => p1.1,
                    };
                    lemma_rows_loop_row_consistent(p2.0, spec_trim(s2));
                },
            }
        },
    }
}

/// Law (row/column invariant): a table the parser produced whose final
/// row was completed up to the last column has exactly one value slot per
/// row in every column: each column's value count equals the table's row
/// count.
pub proof fn lemma_row_column_invariant(s: Seq<char>, t: TableModel)
    requires
        spec_parse(s) == Ok::<TableModel, Seq<char>>(t),
        t.current_column == t.columns.len(),
    ensures
        forall|i: int| 0 <= i < t.columns.len() ==> t.columns[i].values.len() == spec_len(t),
{
    lemma_parse_row_consistent(s);
}

} // verus!
