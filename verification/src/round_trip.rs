//! Round-trip stability: parsing the rendered text of a table with
//! headers yields a table with the same column names, alignments and
//! values. The supporting lemmas walk the rendered text cell by cell
//! through the three parse phases.

use crate::markdown::eff_align;
use crate::markdown::opt_text;
use crate::markdown::spec_cell;
use crate::markdown::spec_dashes;
use crate::markdown::spec_header_cells;
use crate::markdown::spec_pad;
use crate::markdown::spec_render;
use crate::markdown::spec_row_cells;
use crate::markdown::spec_rows_out;
use crate::markdown::spec_sep_cell;
use crate::markdown::spec_sep_cells;
use crate::markdown::spec_spaces;
use crate::parser::is_space;
use crate::parser::lemma_find_at;
use crate::parser::lemma_skip_leading_at;
use crate::parser::lemma_skip_trailing_at;
use crate::parser::spec_find;
use crate::parser::spec_parse_column;
use crate::parser::spec_trim;
use crate::table::Alignment;
use crate::table::ColumnModel;
use crate::table::TableModel;
use crate::table::spec_len;
use vstd::prelude::*;

verus! {

/// Text that survives the trip through a rendered cell: it holds no `|`,
/// and it neither starts nor ends with whitespace, so the cell's padding
/// trims away exactly.
pub open spec fn clean_text(v: Seq<char>) -> bool {
    &&& forall|j: int| 0 <= j < v.len() ==> v[j] != '|'
    &&& v.len() > 0 ==> !is_space(v[0]) && !is_space(v[v.len() - 1])
}

/// A cell or name as the parser produces it: absent, or clean and
/// non-empty.
pub open spec fn clean_opt(v: Option<Seq<char>>) -> bool {
    match v {
        Some(s) => s.len() > 0 && clean_text(s),
        None => true,
    }
}

/// Trimming strips surrounding spaces from clean text exactly.
proof fn lemma_trim_spaces_frame(v: Seq<char>, l: nat, r: nat)
    requires
        v.len() > 0 ==> !is_space(v[0]) && !is_space(v[v.len() - 1]),
    ensures
        spec_trim(spec_spaces(l) + v + spec_spaces(r)) == v,
{
    let s = spec_spaces(l) + v + spec_spaces(r);
    if v.len() == 0 {
        assert(forall|j: int| 0 <= j < s.len() ==> is_space(s[j]));
        lemma_skip_leading_at(s, s.len() as int);
        assert(s.subrange(s.len() as int, s.len() as int) =~= Seq::<char>::empty());
        assert(spec_trim(s) =~= v);
    } else {
        lemma_skip_leading_at(s, l as int);
        let s1 = s.subrange(l as int, s.len() as int);
        lemma_skip_trailing_at(s1, v.len() as int);
        assert(s1.subrange(0, v.len() as int) =~= v);
    }
}

/// The rendered padding of clean text is that text between two runs of
/// spaces.
proof fn lemma_pad_frame(v: Seq<char>, w: nat, a: Alignment)
    ensures
        spec_pad(v, w, a) == v + spec_spaces(0) || spec_pad(v, w, a) == v + spec_spaces(
            (w - v.len()) as nat,
        ) || spec_pad(v, w, a) == spec_spaces((w - v.len()) as nat) + v || spec_pad(v, w, a)
            == spec_spaces(((w - v.len()) / 2) as nat) + v + spec_spaces(
            ((w - v.len()) - (w - v.len()) / 2) as nat,
        ),
{
    if v.len() >= w {
        assert(spec_pad(v, w, a) =~= v + spec_spaces(0));
    }
}

/// Scanning a rendered cell's interior recovers the cell's value: the
/// token before the next `|` trims back to the clean text it was padded
/// from, and the remainder starts at that `|`.
proof fn lemma_scan_cell(v: Seq<char>, w: nat, a: Alignment, tail: Seq<char>)
    requires
        clean_text(v),
        tail.len() > 0,
        tail[0] == '|',
    ensures
        spec_parse_column(" "@ + spec_pad(v, w, a) + " "@ + tail) == Ok::<
            (Option<Seq<char>>, Seq<char>),
            Seq<char>,
        >(
            (
                if v.len() == 0 {
                    None
                } else {
                    Some(v)
                },
                tail,
            ),
        ),
{
    reveal_strlit(" ");
    let pad = spec_pad(v, w, a);
    let body = " "@ + pad + " "@;
    let s = body + tail;
    let m = body.len() as int;
    lemma_pad_frame(v, w, a);
    assert(forall|j: int| 0 <= j < pad.len() ==> pad[j] == ' ' || (#[trigger] pad[j]) != '|');
    assert(forall|j: int| 0 <= j < m ==> s[j] != '|');
    assert(s[m] == '|');
    lemma_find_at(s, '|', m);
    assert(s.subrange(0, m) =~= body);
    assert(s.subrange(m, s.len() as int) =~= tail);
    assert(" "@ =~= spec_spaces(1));
    if pad == v + spec_spaces(0) {
        assert(body =~= spec_spaces(1) + v + spec_spaces(1));
        lemma_trim_spaces_frame(v, 1, 1);
    } else if pad == v + spec_spaces((w - v.len()) as nat) {
        assert(body =~= spec_spaces(1) + v + spec_spaces((w - v.len() + 1) as nat));
        lemma_trim_spaces_frame(v, 1, (w - v.len() + 1) as nat);
    } else if pad == spec_spaces((w - v.len()) as nat) + v {
        assert(body =~= spec_spaces((w - v.len() + 1) as nat) + v + spec_spaces(1));
        lemma_trim_spaces_frame(v, (w - v.len() + 1) as nat, 1);
    } else {
        let p = (w - v.len()) as nat;
        assert(body =~= spec_spaces((p / 2 + 1) as nat) + v + spec_spaces((p - p / 2 + 1) as nat));
        lemma_trim_spaces_frame(v, (p / 2 + 1) as nat, (p - p / 2 + 1) as nat);
    }
}

/// Scanning a bare token (no surrounding spaces) recovers it whole.
proof fn lemma_scan_plain(tok: Seq<char>, tail: Seq<char>)
    requires
        tok.len() > 0,
        forall|j: int| 0 <= j < tok.len() ==> tok[j] != '|',
        !is_space(tok[0]),
        !is_space(tok[tok.len() - 1]),
        tail.len() > 0,
        tail[0] == '|',
    ensures
        spec_parse_column(tok + tail) == Ok::<(Option<Seq<char>>, Seq<char>), Seq<char>>(
            (Some(tok), tail),
        ),
{
    let s = tok + tail;
    let m = tok.len() as int;
    lemma_find_at(s, '|', m);
    assert(s.subrange(0, m) =~= tok);
    assert(s.subrange(m, s.len() as int) =~= tail);
    assert(tok =~= spec_spaces(0) + tok + spec_spaces(0));
    lemma_trim_spaces_frame(tok, 0, 0);
}

/// The column a header token creates: named, unaligned, empty.
pub open spec fn name_column(name: Option<Seq<char>>) -> ColumnModel {
    ColumnModel {
        name,
        alignment: None,
        largest_value: crate::table::val_len(name),
        values: Seq::empty(),
    }
}

/// The table after adding one unaligned column per name of `cols[i..]`.
pub open spec fn add_name_columns(t: TableModel, cols: Seq<ColumnModel>, i: int) -> TableModel
    decreases cols.len() - i,
{
    if i < 0 || i >= cols.len() {
        t
    } else {
        add_name_columns(crate::table::spec_add_column(t, cols[i].name, None), cols, i + 1)
    }
}

/// Phase 1 over the rendered header cells reads back exactly the columns'
/// names, then stops at the `|` that ends the line.
proof fn lemma_parse_header_cells(t: TableModel, cols: Seq<ColumnModel>, i: int, tail: Seq<char>)
    requires
        0 <= i <= cols.len(),
        forall|k: int| i <= k < cols.len() ==> clean_opt(cols[k].name),
        tail.len() >= 2,
        tail[0] == '|',
        tail[1] == '\n',
    ensures
        crate::parser::spec_header_loop(t, spec_header_cells(cols, i) + tail) == Ok::<
            (TableModel, Seq<char>),
            Seq<char>,
        >((add_name_columns(t, cols, i), tail.subrange(1, tail.len() as int))),
    decreases cols.len() - i,
{
    reveal_strlit("| ");
    reveal_strlit(" ");
    let s = spec_header_cells(cols, i) + tail;
    if i == cols.len() {
        assert(s =~= tail);
    } else {
        let v = opt_text(cols[i].name);
        let a = eff_align(cols[i].alignment);
        let w = cols[i].largest_value;
        let rest_cells = spec_header_cells(cols, i + 1);
        let tail2 = rest_cells + tail;
        assert(s =~= spec_cell(v, a, w) + tail2);
        assert(s[0] == '|');
        let rest = s.subrange(1, s.len() as int);
        assert(rest =~= " "@ + spec_pad(v, w, a) + " "@ + tail2);
        if i + 1 == cols.len() {
            assert(tail2 =~= tail);
        }
        assert(tail2.len() > 0 && tail2[0] == '|');
        assert(rest[0] == ' ');
        assert(clean_text(v));
        lemma_scan_cell(v, w, a, tail2);
        let t2 = crate::table::spec_add_column(t, cols[i].name, None);
        lemma_parse_header_cells(t2, cols, i + 1, tail);
        assert(spec_header_cells(cols, i + 1) + tail == tail2);
        match cols[i].name {
            Some(nm) => {
                assert(v == nm && v.len() > 0);
            },
            None => {
                assert(v.len() == 0);
            },
        }
        assert(crate::parser::spec_header_loop(t, s) == crate::parser::spec_header_loop(t2, tail2));
    }
}

/// The table after recording each of `cols[i..]`'s alignments in order.
pub open spec fn set_alignments(t: TableModel, cols: Seq<ColumnModel>, i: int) -> TableModel
    decreases cols.len() - i,
{
    if i < 0 || i >= cols.len() {
        t
    } else {
        set_alignments(crate::parser::spec_set_alignment(t, i, cols[i].alignment), cols, i + 1)
    }
}

/// Phase 2 over the rendered delimiter cells reads back exactly the
/// columns' alignments, then stops at the `|` that ends the line.
proof fn lemma_parse_sep_cells(t: TableModel, cols: Seq<ColumnModel>, i: int, tail: Seq<char>)
    requires
        0 <= i <= cols.len(),
        t.columns.len() == cols.len(),
        tail.len() >= 2,
        tail[0] == '|',
        tail[1] == '\n',
    ensures
        crate::parser::spec_delim_loop(t, spec_sep_cells(cols, i) + tail, i as nat) == Ok::<
            (TableModel, Option<Seq<char>>),
            Seq<char>,
        >((set_alignments(t, cols, i), Some(tail.subrange(1, tail.len() as int)))),
    decreases cols.len() - i,
{
    let s = spec_sep_cells(cols, i) + tail;
    if i == cols.len() {
        assert(s =~= tail);
    } else {
        let a = cols[i].alignment;
        let w = cols[i].largest_value;
        let rest_cells = spec_sep_cells(cols, i + 1);
        let tail2 = rest_cells + tail;
        assert(s =~= spec_sep_cell(a, w) + tail2);
        if i + 1 == cols.len() {
            assert(tail2 =~= tail);
        }
        assert(tail2.len() > 0 && tail2[0] == '|');
        let m1: char = if a == Some(Alignment::Left) || a == Some(Alignment::Centered) {
            ':'
        } else {
            '-'
        };
        let m2: char = if a == Some(Alignment::Right) || a == Some(Alignment::Centered) {
            ':'
        } else {
            '-'
        };
        let tok = seq![m1] + spec_dashes(w) + seq![m2];
        assert(spec_sep_cell(a, w) =~= seq!['|'] + tok);
        assert(s[0] == '|');
        let rest = s.subrange(1, s.len() as int);
        assert(rest =~= tok + tail2);
        assert(tok[0] == m1 && tok[tok.len() - 1] == m2);
        assert(!is_space(':') && !is_space('-'));
        assert(forall|j: int| 0 <= j < tok.len() ==> tok[j] != '|');
        lemma_scan_plain(tok, tail2);
        assert(rest[0] == m1 && rest[0] != '\n');
        let t2 = crate::parser::spec_set_alignment(t, i, a);
        assert(t2.columns.len() == cols.len());
        lemma_parse_sep_cells(t2, cols, i + 1, tail);
        assert(spec_sep_cells(cols, i + 1) + tail == tail2);
        assert(crate::parser::spec_delim_loop(t, s, i as nat) == crate::parser::spec_delim_loop(
            t2,
            tail2,
            (i + 1) as nat,
        ));
    }
}

/// The table after pushing row `r`'s cells of `cols[i..]` in order.
pub open spec fn push_row(t: TableModel, cols: Seq<ColumnModel>, r: int, i: int) -> TableModel
    decreases cols.len() - i,
{
    if i < 0 || i >= cols.len() {
        t
    } else {
        push_row(crate::table::spec_push(t, cols[i].values[r]), cols, r, i + 1)
    }
}

/// Phase 3 over one rendered row's cells pushes back exactly that row's
/// values; at the row's closing `|` it either stops (end of input) or
/// completes the row and goes on behind the newline.
proof fn lemma_parse_row_cells(
    t: TableModel,
    cols: Seq<ColumnModel>,
    r: int,
    i: int,
    tail2: Seq<char>,
)
    requires
        0 <= i <= cols.len(),
        forall|k: int|
            i <= k < cols.len() ==> 0 <= r < cols[k].values.len() && clean_opt(cols[k].values[r]),
        tail2.len() == 0 || tail2[0] == '\n',
    ensures
        tail2.len() == 0 ==> crate::parser::spec_rows_loop(
            t,
            spec_row_cells(cols, r, i) + seq!['|'] + tail2,
        ) == Ok::<TableModel, Seq<char>>(push_row(t, cols, r, i)),
        tail2.len() > 0 ==> crate::parser::spec_rows_loop(
            t,
            spec_row_cells(cols, r, i) + seq!['|'] + tail2,
        ) == crate::parser::spec_rows_loop(
            crate::table::spec_next_row(push_row(t, cols, r, i)),
            tail2.subrange(1, tail2.len() as int),
        ),
    decreases cols.len() - i,
{
    reveal_strlit("| ");
    reveal_strlit(" ");
    let s = spec_row_cells(cols, r, i) + seq!['|'] + tail2;
    if i == cols.len() {
        assert(s =~= seq!['|'] + tail2);
        if tail2.len() == 0 {
            assert(s =~= seq!['|']);
        } else {
            assert(s.subrange(1, s.len() as int) =~= tail2);
            assert(tail2.subrange(1, tail2.len() as int) =~= s.subrange(1, s.len() as int).subrange(
                1,
                s.len() - 1,
            ));
        }
    } else {
        let v = opt_text(cols[i].values[r]);
        let a = eff_align(cols[i].alignment);
        let w = cols[i].largest_value;
        let tail3 = spec_row_cells(cols, r, i + 1) + seq!['|'] + tail2;
        assert(s =~= spec_cell(v, a, w) + tail3);
        assert(s[0] == '|');
        let rest = s.subrange(1, s.len() as int);
        assert(rest =~= " "@ + spec_pad(v, w, a) + " "@ + tail3);
        if i + 1 == cols.len() {
            assert(spec_row_cells(cols, r, i + 1) =~= Seq::<char>::empty());
            assert(tail3 =~= seq!['|'] + tail2);
        }
        assert(tail3.len() > 0 && tail3[0] == '|');
        assert(rest[0] == ' ');
        assert(clean_text(v));
        lemma_scan_cell(v, w, a, tail3);
        let t2 = crate::table::spec_push(t, cols[i].values[r]);
        match cols[i].values[r] {
            Some(nm) => {
                assert(v == nm && v.len() > 0);
            },
            None => {
                assert(v.len() == 0);
            },
        }
        lemma_parse_row_cells(t2, cols, r, i + 1, tail2);
        assert(crate::parser::spec_rows_loop(t, s) == crate::parser::spec_rows_loop(t2, tail3));
    }
}

/// The rendered data rows from `r` on, without the very last newline (the
/// parser's trimming removes it before phase 3 runs).
pub open spec fn rows_text(src: TableModel, r: int) -> Seq<char>
    decreases spec_len(src) - r,
{
    if r < 0 || r >= spec_len(src) {
        Seq::empty()
    } else if r == spec_len(src) - 1 {
        spec_row_cells(src.columns, r, 0) + seq!['|']
    } else {
        spec_row_cells(src.columns, r, 0) + seq!['|', '\n'] + rows_text(src, r + 1)
    }
}

/// The rendered rows are the trimmed rows plus one final newline; both
/// start and end with `|`.
proof fn lemma_rows_text_shape(src: TableModel, r: int)
    requires
        0 <= r < spec_len(src),
    ensures
        spec_rows_out(src, r) == rows_text(src, r) + seq!['\n'],
        rows_text(src, r).len() > 0,
        rows_text(src, r)[0] == '|',
        rows_text(src, r)[rows_text(src, r).len() - 1] == '|',
    decreases spec_len(src) - r,
{
    reveal_strlit("| ");
    if r == spec_len(src) - 1 {
        assert(spec_rows_out(src, r + 1) =~= Seq::<char>::empty());
        assert(spec_rows_out(src, r) =~= rows_text(src, r) + seq!['\n']);
    } else {
        lemma_rows_text_shape(src, r + 1);
        assert(spec_rows_out(src, r) =~= rows_text(src, r) + seq!['\n']);
    }
    if src.columns.len() == 0 {
        assert(spec_row_cells(src.columns, r, 0) =~= Seq::<char>::empty());
    } else {
        let v = opt_text(src.columns[0].values[r]);
        let a = eff_align(src.columns[0].alignment);
        let w = src.columns[0].largest_value;
        assert(spec_row_cells(src.columns, r, 0)[0] == spec_cell(v, a, w)[0]);
    }
}

/// The table after parsing back the rendered rows `r` and on.
pub open spec fn rows_result(t: TableModel, src: TableModel, r: int) -> TableModel
    decreases spec_len(src) - r,
{
    if r < 0 || r >= spec_len(src) {
        t
    } else if r == spec_len(src) - 1 {
        push_row(t, src.columns, r, 0)
    } else {
        rows_result(crate::table::spec_next_row(push_row(t, src.columns, r, 0)), src, r + 1)
    }
}

/// Phase 3 over the trimmed rendered rows reads back exactly the rows.
proof fn lemma_parse_rows_lines(t: TableModel, src: TableModel, r: int)
    requires
        0 <= r < spec_len(src),
        forall|k: int|
            0 <= k < src.columns.len() ==> src.columns[k].values.len() == spec_len(src),
        forall|k: int, q: int|
            0 <= k < src.columns.len() && 0 <= q < spec_len(src) ==> clean_opt(
                src.columns[k].values[q],
            ),
    ensures
        crate::parser::spec_rows_loop(t, rows_text(src, r)) == Ok::<TableModel, Seq<char>>(
            rows_result(t, src, r),
        ),
    decreases spec_len(src) - r,
{
    if r == spec_len(src) - 1 {
        lemma_parse_row_cells(t, src.columns, r, 0, Seq::empty());
        assert(spec_row_cells(src.columns, r, 0) + seq!['|'] + Seq::<char>::empty() =~= rows_text(
            src,
            r,
        ));
    } else {
        let tail2 = seq!['\n'] + rows_text(src, r + 1);
        lemma_parse_row_cells(t, src.columns, r, 0, tail2);
        assert(spec_row_cells(src.columns, r, 0) + seq!['|'] + tail2 =~= rows_text(src, r));
        assert(tail2.subrange(1, tail2.len() as int) =~= rows_text(src, r + 1));
        lemma_parse_rows_lines(
            crate::table::spec_next_row(push_row(t, src.columns, r, 0)),
            src,
            r + 1,
        );
    }
}

/// Adding the name columns appends one named, unaligned, empty column per
/// source column and moves nothing else.
proof fn lemma_add_name_columns_effect(t: TableModel, cols: Seq<ColumnModel>, i: int)
    requires
        0 <= i <= cols.len(),
    ensures
        add_name_columns(t, cols, i).columns.len() == t.columns.len() + (cols.len() - i),
        add_name_columns(t, cols, i).current_row == t.current_row,
        add_name_columns(t, cols, i).current_column == t.current_column,
        add_name_columns(t, cols, i).no_headers == t.no_headers,
        forall|j: int|
            0 <= j < t.columns.len() ==> add_name_columns(t, cols, i).columns[j] == t.columns[j],
        forall|k: int|
            i <= k < cols.len() ==> add_name_columns(t, cols, i).columns[t.columns.len() + (k - i)]
                == name_column(cols[k].name),
    decreases cols.len() - i,
{
    if i < cols.len() {
        let t2 = crate::table::spec_add_column(t, cols[i].name, None);
        assert(t2.columns[t.columns.len() as int] == name_column(cols[i].name));
        lemma_add_name_columns_effect(t2, cols, i + 1);
        let u = add_name_columns(t, cols, i);
        assert(u == add_name_columns(t2, cols, i + 1));
        assert forall|j: int| 0 <= j < t.columns.len() implies u.columns[j] == t.columns[j] by {
            assert(u.columns[j] == t2.columns[j]);
            assert(t2.columns[j] == t.columns[j]);
        }
        assert forall|k: int| i <= k < cols.len() implies u.columns[t.columns.len() + (k - i)]
            == name_column(cols[k].name) by {
            if k == i {
                assert(u.columns[t2.columns.len() - 1] == t2.columns[t2.columns.len() - 1]);
            } else {
                assert(u.columns[t2.columns.len() + (k - (i + 1))] == name_column(cols[k].name));
                assert(t2.columns.len() + (k - (i + 1)) == t.columns.len() + (k - i));
            }
        }
    }
}

/// Recording the alignments rewrites each column's alignment and moves
/// nothing else.
proof fn lemma_set_alignments_effect(t: TableModel, cols: Seq<ColumnModel>, i: int)
    requires
        0 <= i <= cols.len(),
        t.columns.len() == cols.len(),
    ensures
        set_alignments(t, cols, i).columns.len() == cols.len(),
        set_alignments(t, cols, i).current_row == t.current_row,
        set_alignments(t, cols, i).current_column == t.current_column,
        set_alignments(t, cols, i).no_headers == t.no_headers,
        forall|j: int| 0 <= j < i ==> set_alignments(t, cols, i).columns[j] == t.columns[j],
        forall|j: int|
            i <= j < cols.len() ==> set_alignments(t, cols, i).columns[j] == (ColumnModel {
                alignment: cols[j].alignment,
                ..t.columns[j]
            }),
    decreases cols.len() - i,
{
    if i < cols.len() {
        let t2 = crate::parser::spec_set_alignment(t, i, cols[i].alignment);
        lemma_set_alignments_effect(t2, cols, i + 1);
    }
}

/// Pushing a row's cells appends one value to each column from the cursor
/// on and leaves names and alignments alone.
proof fn lemma_push_row_effect(t: TableModel, cols: Seq<ColumnModel>, r: int, i: int)
    requires
        0 <= i <= cols.len(),
        t.current_column == i,
        t.columns.len() == cols.len(),
    ensures
        push_row(t, cols, r, i).columns.len() == cols.len(),
        push_row(t, cols, r, i).current_column == cols.len(),
        push_row(t, cols, r, i).current_row == t.current_row,
        push_row(t, cols, r, i).no_headers == t.no_headers,
        forall|j: int| 0 <= j < i ==> push_row(t, cols, r, i).columns[j] == t.columns[j],
        forall|j: int|
            i <= j < cols.len() ==> push_row(t, cols, r, i).columns[j].values
                == t.columns[j].values.push(cols[j].values[r]) && push_row(
                t,
                cols,
                r,
                i,
            ).columns[j].name == t.columns[j].name && push_row(t, cols, r, i).columns[j].alignment
                == t.columns[j].alignment,
    decreases cols.len() - i,
{
    if i < cols.len() {
        let t2 = crate::table::spec_push(t, cols[i].values[r]);
        assert(t2.columns.len() == cols.len());
        assert(t2.current_column == i + 1);
        lemma_push_row_effect(t2, cols, r, i + 1);
        let u = push_row(t, cols, r, i);
        assert(u == push_row(t2, cols, r, i + 1));
        assert forall|j: int| 0 <= j < i implies u.columns[j] == t.columns[j] by {
            assert(u.columns[j] == t2.columns[j]);
            assert(t2.columns[j] == t.columns[j]);
        }
        assert forall|j: int|
            i <= j < cols.len() implies u.columns[j].values == t.columns[j].values.push(
                cols[j].values[r],
            ) && u.columns[j].name == t.columns[j].name && u.columns[j].alignment
                == t.columns[j].alignment by {
            if j == i {
                assert(u.columns[i] == t2.columns[i]);
                assert(t2.columns[i].values == t.columns[i].values.push(cols[i].values[r]));
            } else {
                assert(u.columns[j].values == t2.columns[j].values.push(cols[j].values[r]));
                assert(t2.columns[j] == t.columns[j]);
            }
        }
    }
}

/// Parsing the rendered rows back rebuilds every column's value sequence
/// exactly and touches neither names nor alignments.
proof fn lemma_rows_result_effect(t: TableModel, src: TableModel, r: int)
    requires
        0 <= r < spec_len(src),
        t.current_column == 0,
        t.current_row == r,
        t.columns.len() == src.columns.len(),
        forall|k: int|
            0 <= k < src.columns.len() ==> src.columns[k].values.len() == spec_len(src),
        forall|k: int|
            0 <= k < src.columns.len() ==> t.columns[k].values == src.columns[k].values.subrange(
                0,
                r,
            ),
    ensures
        rows_result(t, src, r).columns.len() == src.columns.len(),
        rows_result(t, src, r).no_headers == t.no_headers,
        forall|k: int|
            0 <= k < src.columns.len() ==> rows_result(t, src, r).columns[k].values
                == src.columns[k].values && rows_result(t, src, r).columns[k].name
                == t.columns[k].name && rows_result(t, src, r).columns[k].alignment
                == t.columns[k].alignment,
    decreases spec_len(src) - r,
{
    lemma_push_row_effect(t, src.columns, r, 0);
    let p = push_row(t, src.columns, r, 0);
    assert forall|k: int|
        0 <= k < src.columns.len() implies #[trigger] p.columns[k].values
            =~= src.columns[k].values.subrange(0, r + 1) by {
        assert(p.columns[k].values == t.columns[k].values.push(src.columns[k].values[r]));
        assert(t.columns[k].values == src.columns[k].values.subrange(0, r));
    }
    if r == spec_len(src) - 1 {
        assert(forall|k: int|
            0 <= k < src.columns.len() ==> src.columns[k].values.subrange(0, r + 1)
                =~= #[trigger] src.columns[k].values);
    } else {
        let n = crate::table::spec_next_row(p);
        assert(n.columns =~= p.columns);
        lemma_rows_result_effect(n, src, r + 1);
    }
}

/// Law (round-trip stability): rendering a table with headers and parsing
/// the rendered text back succeeds and yields a table with the same
/// column names, alignments and values. The table must be one the parser
/// could have produced with its final row complete: every column has one
/// value per row, names and values carry no `|` and no surrounding
/// whitespace, and present names and values are non-empty.
#[verifier::rlimit(100)]
pub proof fn lemma_round_trip(t: TableModel)
    requires
        !t.no_headers,
        forall|i: int| 0 <= i < t.columns.len() ==> t.columns[i].values.len() == spec_len(t),
        forall|i: int| 0 <= i < t.columns.len() ==> clean_opt(t.columns[i].name),
        forall|i: int, r: int|
            0 <= i < t.columns.len() && 0 <= r < spec_len(t) ==> clean_opt(
                t.columns[i].values[r],
            ),
    ensures
        crate::parser::spec_parse(spec_render(t)) matches Ok(u) && !u.no_headers && u.columns.len()
            == t.columns.len() && (forall|i: int|
            0 <= i < t.columns.len() ==> u.columns[i].name == t.columns[i].name
                && u.columns[i].alignment == t.columns[i].alignment && u.columns[i].values
                == t.columns[i].values),
{
    reveal_strlit("| ");
    let cols = t.columns;
    let out = spec_render(t);
    lemma_rows_text_shape(t, 0);
    let rt = rows_text(t, 0);
    let hc = spec_header_cells(cols, 0);
    let sc = spec_sep_cells(cols, 0);
    assert(out =~= hc + seq!['|', '\n'] + sc + seq!['|', '\n'] + rt + seq!['\n']);

    // Shapes of the line starts.
    if cols.len() > 0 {
        assert(hc[0] == spec_cell(
            opt_text(cols[0].name),
            eff_align(cols[0].alignment),
            cols[0].largest_value,
        )[0]);
        assert(sc[0] == spec_sep_cell(cols[0].alignment, cols[0].largest_value)[0]);
        match cols[0].alignment {
            None => {},
            Some(Alignment::Left) => {},
            Some(Alignment::Right) => {},
            Some(Alignment::Centered) => {},
        }
        assert(sc[0] == '|');
        assert(hc[0] == '|');
    }
    assert(out[0] == '|');

    // The overall trim drops exactly the final newline.
    lemma_skip_leading_at(out, 0);
    assert(out.subrange(0, out.len() as int) =~= out);
    assert(out[out.len() - 1] == '\n');
    assert(out[out.len() - 2] == '|');
    lemma_skip_trailing_at(out, out.len() - 1);
    let s0 = spec_trim(out);
    assert(s0 =~= hc + (seq!['|', '\n'] + (sc + (seq!['|', '\n'] + rt))));

    // Phase 1: the header line gives back the names.
    let tail1 = seq!['|', '\n'] + (sc + (seq!['|', '\n'] + rt));
    assert(tail1[0] == '|' && tail1[1] == '\n');
    lemma_parse_header_cells(crate::table::empty_table(), cols, 0, tail1);
    let t1 = add_name_columns(crate::table::empty_table(), cols, 0);
    let s1 = tail1.subrange(1, tail1.len() as int);
    assert(crate::parser::spec_parse_column_names(crate::table::empty_table(), out) == Ok::<
        (TableModel, Seq<char>),
        Seq<char>,
    >((t1, s1)));
    lemma_add_name_columns_effect(crate::table::empty_table(), cols, 0);
    assert(t1.columns.len() == cols.len());
    assert(s1 =~= seq!['\n'] + (sc + (seq!['|', '\n'] + rt)));

    // Phase 2: the delimiter line gives back the alignments.
    assert(s1[0] == '\n');
    if cols.len() > 0 {
        assert(s1[1] == sc[0]);
    } else {
        assert(s1[1] == '|');
    }
    lemma_skip_leading_at(s1, 1);
    assert(s1[s1.len() - 1] == rt[rt.len() - 1]);
    lemma_skip_trailing_at(s1.subrange(1, s1.len() as int), s1.len() - 1);
    let tail2 = seq!['|', '\n'] + rt;
    assert(spec_trim(s1) =~= sc + tail2);
    assert(tail2[0] == '|' && tail2[1] == '\n');
    lemma_parse_sep_cells(t1, cols, 0, tail2);
    let t2 = set_alignments(t1, cols, 0);
    let s2 = tail2.subrange(1, tail2.len() as int);
    assert(crate::parser::spec_parse_delimiter_line(t1, s1) == Ok::<
        (TableModel, Option<Seq<char>>),
        Seq<char>,
    >((t2, Some(s2))));
    lemma_set_alignments_effect(t1, cols, 0);
    assert(s2 =~= seq!['\n'] + rt);

    // Phase 3: the rows give back the values.
    assert(s2[0] == '\n');
    assert(s2[1] == rt[0] && rt[0] == '|');
    lemma_skip_leading_at(s2, 1);
    assert(s2[s2.len() - 1] == rt[rt.len() - 1]);
    lemma_skip_trailing_at(s2.subrange(1, s2.len() as int), s2.len() - 1);
    assert(spec_trim(s2) =~= rt);
    lemma_parse_rows_lines(t2, t, 0);
    let u = rows_result(t2, t, 0);
    assert(crate::parser::spec_parse_rows(t2, s2) == Ok::<TableModel, Seq<char>>(u));

    // The reconstructed table matches the original.
    assert(forall|k: int|
        0 <= k < cols.len() ==> #[trigger] t2.columns[k].values =~= cols[k].values.subrange(0, 0));
    lemma_rows_result_effect(t2, t, 0);
    assert(forall|k: int|
        0 <= k < cols.len() ==> #[trigger] u.columns[k].name == cols[k].name
            && u.columns[k].alignment == cols[k].alignment);
    assert(crate::parser::spec_parse(out) == Ok::<TableModel, Seq<char>>(u));
}

/// A table whose names and values could all have come out of the token
/// scanner: absent, or trimmed, `|`-free and non-empty.
pub open spec fn clean_table(t: TableModel) -> bool {
    &&& forall|i: int| 0 <= i < t.columns.len() ==> clean_opt(t.columns[i].name)
    &&& forall|i: int, q: int|
        0 <= i < t.columns.len() && 0 <= q < t.columns[i].values.len() ==> clean_opt(
            t.columns[i].values[q],
        )
}

proof fn lemma_skip_leading_keeps(s: Seq<char>)
    requires
        forall|j: int| 0 <= j < s.len() ==> s[j] != '|',
    ensures
        forall|j: int|
            0 <= j < crate::parser::spec_skip_leading(s).len()
                ==> crate::parser::spec_skip_leading(s)[j] != '|',
    decreases s.len(),
{
    if s.len() > 0 && is_space(s[0]) {
        assert forall|j: int| 0 <= j < s.drop_first().len() implies s.drop_first()[j] != '|' by {
            assert(s.drop_first()[j] == s[j + 1]);
        }
        lemma_skip_leading_keeps(s.drop_first());
        assert forall|j: int|
            0 <= j < crate::parser::spec_skip_leading(s).len() implies crate::parser::spec_skip_leading(
            s,
        )[j] != '|' by {
            assert(crate::parser::spec_skip_leading(s.drop_first())[j] != '|');
        }
    }
}

proof fn lemma_skip_trailing_keeps(s: Seq<char>)
    requires
        forall|j: int| 0 <= j < s.len() ==> s[j] != '|',
    ensures
        forall|j: int|
            0 <= j < crate::parser::spec_skip_trailing(s).len()
                ==> crate::parser::spec_skip_trailing(s)[j] != '|',
    decreases s.len(),
{
    if s.len() > 0 && is_space(s.last()) {
        assert forall|j: int| 0 <= j < s.drop_last().len() implies s.drop_last()[j] != '|' by {
            assert(s.drop_last()[j] == s[j]);
        }
        lemma_skip_trailing_keeps(s.drop_last());
        assert forall|j: int|
            0 <= j < crate::parser::spec_skip_trailing(s).len() implies crate::parser::spec_skip_trailing(
            s,
        )[j] != '|' by {
            assert(crate::parser::spec_skip_trailing(s.drop_last())[j] != '|');
        }
    }
}

proof fn lemma_skip_leading_head(s: Seq<char>)
    ensures
        crate::parser::spec_skip_leading(s).len() > 0 ==> !is_space(
            crate::parser::spec_skip_leading(s)[0],
        ),
    decreases s.len(),
{
    if s.len() > 0 && is_space(s[0]) {
        lemma_skip_leading_head(s.drop_first());
    }
}

proof fn lemma_skip_trailing_last(s: Seq<char>)
    ensures
        crate::parser::spec_skip_trailing(s).len() > 0 ==> !is_space(
            crate::parser::spec_skip_trailing(s).last(),
        ),
    decreases s.len(),
{
    if s.len() > 0 && is_space(s.last()) {
        lemma_skip_trailing_last(s.drop_last());
    }
}

proof fn lemma_skip_trailing_head(s: Seq<char>)
    ensures
        crate::parser::spec_skip_trailing(s).len() > 0 ==> crate::parser::spec_skip_trailing(s)[0]
            == s[0],
    decreases s.len(),
{
    if s.len() > 0 && is_space(s.last()) {
        lemma_skip_trailing_head(s.drop_last());
    }
}

/// A trimmed, `|`-free piece of text is clean.
proof fn lemma_trim_clean(s: Seq<char>)
    requires
        forall|j: int| 0 <= j < s.len() ==> s[j] != '|',
    ensures
        clean_text(spec_trim(s)),
{
    let x = crate::parser::spec_skip_leading(s);
    lemma_skip_leading_keeps(s);
    lemma_skip_leading_head(s);
    lemma_skip_trailing_keeps(x);
    lemma_skip_trailing_last(x);
    lemma_skip_trailing_head(x);
}

/// Everything strictly before the first occurrence differs from it.
proof fn lemma_find_prefix(s: Seq<char>, c: char)
    ensures
        spec_find(s, c) matches Some(i) ==> forall|j: int| 0 <= j < i ==> s[j] != c,
    decreases s.len(),
{
    if s.len() > 0 && s[0] != c {
        crate::parser::lemma_find_bound(s, c);
        lemma_find_prefix(s.drop_first(), c);
        match spec_find(s, c) {
            None => {},
            Some(i) => {
                assert forall|j: int| 0 <= j < i implies s[j] != c by {
                    if j > 0 {
                        assert(s.drop_first()[j - 1] != c);
                        assert(s.drop_first()[j - 1] == s[j]);
                    }
                }
            },
        }
    }
}

/// Every token the scanner produces is clean.
proof fn lemma_parse_column_clean(s: Seq<char>)
    ensures
        spec_parse_column(s) matches Ok(p) ==> clean_opt(p.0),
{
    match spec_find(s, '|') {
        None => {},
        Some(i) => {
            crate::parser::lemma_find_bound(s, '|');
            lemma_find_prefix(s, '|');
            let pre = s.subrange(0, i as int);
            assert(forall|j: int| 0 <= j < pre.len() ==> pre[j] != '|');
            lemma_trim_clean(pre);
        },
    }
}

/// Phase 1 keeps the table clean.
proof fn lemma_header_loop_clean(t: TableModel, s: Seq<char>)
    requires
        clean_table(t),
    ensures
        crate::parser::spec_header_loop(t, s) matches Ok(p) ==> clean_table(p.0),
    decreases s.len(),
{
    if s.len() > 0 && s[0] == '|' {
        let rest = s.subrange(1, s.len() as int);
        if !(rest.len() > 0 && rest[0] == '\n') {
            match spec_parse_column(rest) {
                Err(_) => {},
                Ok(p) => {
                    crate::parser::lemma_find_bound(rest, '|');
                    lemma_parse_column_clean(rest);
                    let t2 = crate::table::spec_add_column(t, p.0, None);
                    assert(clean_table(t2));
                    lemma_header_loop_clean(t2, p.1);
                },
            }
        }
    }
}

/// The reinterpretation keeps the table clean.
proof fn lemma_reinterpret_clean(t: TableModel)
    requires
        clean_table(t),
        t.current_column == 0,
    ensures
        clean_table(crate::parser::spec_reinterpret(t)),
{
    crate::laws::lemma_fallback_to_no_header(t);
    let u = crate::parser::spec_reinterpret(t);
    assert forall|i: int, q: int|
        0 <= i < u.columns.len() && 0 <= q < u.columns[i].values.len() implies clean_opt(
        u.columns[i].values[q],
    ) by {
        assert(u.columns[i].values == t.columns[i].values.push(t.columns[i].name));
        if q < t.columns[i].values.len() {
            assert(u.columns[i].values[q] == t.columns[i].values[q]);
        } else {
            assert(u.columns[i].values[q] == t.columns[i].name);
        }
    }
}

/// Phase 2 keeps the table clean.
proof fn lemma_delim_loop_clean(t: TableModel, s: Seq<char>, index: nat)
    requires
        clean_table(t),
        t.current_column == 0,
    ensures
        crate::parser::spec_delim_loop(t, s, index) matches Ok(p) ==> clean_table(p.0),
    decreases s.len(),
{
    if s.len() > 0 && s[0] == '|' {
        let rest = s.subrange(1, s.len() as int);
        if !(rest.len() > 0 && rest[0] == '\n') {
            match spec_parse_column(rest) {
                Err(_) => {},
                Ok(p) => {
                    crate::parser::lemma_find_bound(rest, '|');
                    match p.0 {
                        None => {
                            lemma_reinterpret_clean(t);
                        },
                        Some(tok) => {
                            if index >= t.columns.len() {
                                lemma_reinterpret_clean(t);
                            } else {
                                let a: Option<Alignment> = if tok[0] == ':' && tok[tok.len() - 1]
                                    == ':' {
                                    Some(Alignment::Centered)
                                } else if tok[0] == ':' {
                                    Some(Alignment::Left)
                                } else if tok[tok.len() - 1] == ':' {
                                    Some(Alignment::Right)
                                } else {
                                    None
                                };
                                if tok[0] == ':' || tok[tok.len() - 1] == ':' || tok[0] == '-' {
                                    let t2 = crate::parser::spec_set_alignment(t, index as int, a);
                                    assert(clean_table(t2));
                                    lemma_delim_loop_clean(t2, p.1, index + 1);
                                } else {
                                    lemma_reinterpret_clean(t);
                                }
                            }
                        },
                    }
                },
            }
        }
    }
}

/// `push` keeps the table clean when the pushed value is clean.
proof fn lemma_push_clean(t: TableModel, v: Option<Seq<char>>)
    requires
        clean_table(t),
        clean_opt(v),
        t.current_column <= t.columns.len(),
    ensures
        clean_table(crate::table::spec_push(t, v)),
{
    let t2 = crate::table::spec_push(t, v);
    let cc = t.current_column as int;
    assert forall|i: int, q: int|
        0 <= i < t2.columns.len() && 0 <= q < t2.columns[i].values.len() implies clean_opt(
        t2.columns[i].values[q],
    ) by {
        if i == cc {
            if t.current_column == t.columns.len() {
                assert(t2.columns[i].values == crate::table::blank_values(t.current_row).push(v));
                if q < t.current_row {
                    assert(t2.columns[i].values[q] is None);
                }
            } else {
                assert(t2.columns[i].values == t.columns[i].values.push(v));
                if q < t.columns[i].values.len() {
                    assert(t2.columns[i].values[q] == t.columns[i].values[q]);
                }
            }
        } else if 0 <= i < t.columns.len() {
            assert(t2.columns[i] == t.columns[i]);
        }
    }
    assert forall|i: int| 0 <= i < t2.columns.len() implies clean_opt(t2.columns[i].name) by {
        if i == cc {
            if t.current_column != t.columns.len() {
                assert(t2.columns[i].name == t.columns[i].name);
            }
        } else if 0 <= i < t.columns.len() {
            assert(t2.columns[i] == t.columns[i]);
        }
    }
}

/// `next_row` keeps the table clean.
proof fn lemma_next_row_clean(t: TableModel)
    requires
        clean_table(t),
    ensures
        clean_table(crate::table::spec_next_row(t)),
{
    let t2 = crate::table::spec_next_row(t);
    assert forall|i: int, q: int|
        0 <= i < t2.columns.len() && 0 <= q < t2.columns[i].values.len() implies clean_opt(
        t2.columns[i].values[q],
    ) by {
        if t.current_column <= i {
            assert(t2.columns[i].values == t.columns[i].values.push(None::<Seq<char>>));
            if q < t.columns[i].values.len() {
                assert(t2.columns[i].values[q] == t.columns[i].values[q]);
            }
        } else {
            assert(t2.columns[i] == t.columns[i]);
        }
    }
    assert forall|i: int| 0 <= i < t2.columns.len() implies clean_opt(t2.columns[i].name) by {
        if t.current_column <= i {
            assert(t2.columns[i].name == t.columns[i].name);
        } else {
            assert(t2.columns[i] == t.columns[i]);
        }
    }
}

/// Phase 3 keeps the table clean.
proof fn lemma_rows_loop_clean(t: TableModel, s: Seq<char>)
    requires
        clean_table(t),
        t.current_column <= t.columns.len(),
    ensures
        crate::parser::spec_rows_loop(t, s) matches Ok(m) ==> clean_table(m),
    decreases s.len(),
{
    if s.len() > 0 {
        let rest = s.subrange(1, s.len() as int);
        if rest.len() > 0 && s[0] == '|' {
            if rest[0] == '\n' {
                lemma_next_row_clean(t);
                lemma_rows_loop_clean(
                    crate::table::spec_next_row(t),
                    rest.subrange(1, rest.len() as int),
                );
            } else {
                match spec_parse_column(rest) {
                    Err(_) => {},
                    Ok(p) => {
                        crate::parser::lemma_find_bound(rest, '|');
                        lemma_parse_column_clean(rest);
                        lemma_push_clean(t, p.0);
                        lemma_rows_loop_clean(crate::table::spec_push(t, p.0), p.1);
                    },
                }
            }
        }
    }
}

/// Every table the parser succeeds with is clean.
pub proof fn lemma_parse_clean(s: Seq<char>)
    ensures
        crate::parser::spec_parse(s) matches Ok(t) ==> clean_table(t),
{
    let e = crate::table::empty_table();
    assert(clean_table(e));
    assert(crate::laws::row_consistent(e));
    lemma_header_loop_clean(e, spec_trim(s));
    crate::laws::lemma_header_loop_row_consistent(e, spec_trim(s));
    match crate::parser::spec_parse_column_names(e, s) {
        Err(_) => {},
        Ok(p1) => {
            lemma_delim_loop_clean(p1.0, spec_trim(p1.1), 0);
            crate::laws::lemma_delim_loop_row_consistent(p1.0, spec_trim(p1.1), 0);
            match crate::parser::spec_parse_delimiter_line(p1.0, p1.1) {
                Err(_) => {},
                Ok(p2) => {
                    let s2 = match p2.1 {
                        Some(rem) => rem,
                        None => p1.1,
                    };
                    lemma_rows_loop_clean(p2.0, spec_trim(s2));
                },
            }
        },
    }
}

/// A token the delimiter phase accepts as an alignment form: it starts or
/// ends with a colon, or starts with a dash.
pub open spec fn align_like(v: Seq<char>) -> bool {
    v.len() > 0 && (v[0] == ':' || v[v.len() - 1] == ':' || v[0] == '-')
}

/// A rendered data row looks exactly like a header line whose names are
/// that row's values, with the same alignments and widths.
proof fn lemma_header_cells_as_row(cols: Seq<ColumnModel>, pseudo: Seq<ColumnModel>, i: int)
    requires
        pseudo.len() == cols.len(),
        forall|j: int|
            0 <= j < cols.len() ==> pseudo[j].name == cols[j].values[0] && pseudo[j].alignment
                == cols[j].alignment && pseudo[j].largest_value == cols[j].largest_value,
        0 <= i <= cols.len(),
    ensures
        spec_header_cells(pseudo, i) == spec_row_cells(cols, 0, i),
    decreases cols.len() - i,
{
    if i < cols.len() {
        lemma_header_cells_as_row(cols, pseudo, i + 1);
    }
}

/// The delimiter phase walked over a rendered data row aborts at the first
/// cell that is blank or not alignment-shaped, and reinterprets the whole
/// table as header-less.
proof fn lemma_delim_abort_row(
    t: TableModel,
    cols: Seq<ColumnModel>,
    i: int,
    k: int,
    tail: Seq<char>,
)
    requires
        0 <= i <= k < cols.len(),
        t.columns.len() == cols.len(),
        t.current_column == 0,
        forall|j: int| i <= j < cols.len() ==> 1 < cols[j].values.len(),
        forall|j: int| i <= j < cols.len() ==> clean_opt(cols[j].values[1]),
        forall|j: int|
            i <= j < k ==> ((#[trigger] cols[j].values[1]) matches Some(v) && align_like(v)),
        (match cols[k].values[1] {
            None => true,
            Some(v) => !align_like(v),
        }),
        tail.len() == 0 || tail[0] == '\n',
    ensures
        crate::parser::spec_delim_loop(t, spec_row_cells(cols, 1, i) + seq!['|'] + tail, i as nat)
            matches Ok(p) && p.1 is None && p.0.no_headers && p.0.columns.len() == cols.len()
            && p.0.current_column == 0 && p.0.current_row == t.current_row + 1 && (forall|j: int|
            0 <= j < cols.len() ==> p.0.columns[j].name is None && p.0.columns[j].alignment is None
                && p.0.columns[j].values == t.columns[j].values.push(t.columns[j].name)),
    decreases k - i,
{
    reveal_strlit("| ");
    reveal_strlit(" ");
    let s = spec_row_cells(cols, 1, i) + seq!['|'] + tail;
    let v = opt_text(cols[i].values[1]);
    let a = eff_align(cols[i].alignment);
    let w = cols[i].largest_value;
    let tail3 = spec_row_cells(cols, 1, i + 1) + seq!['|'] + tail;
    assert(s =~= spec_cell(v, a, w) + tail3);
    assert(s[0] == '|');
    let rest = s.subrange(1, s.len() as int);
    assert(rest =~= " "@ + spec_pad(v, w, a) + " "@ + tail3);
    if i + 1 == cols.len() {
        assert(spec_row_cells(cols, 1, i + 1) =~= Seq::<char>::empty());
        assert(tail3 =~= seq!['|'] + tail);
    }
    assert(tail3.len() > 0 && tail3[0] == '|');
    assert(rest[0] == ' ');
    assert(clean_text(v));
    lemma_scan_cell(v, w, a, tail3);
    if i == k {
        crate::laws::lemma_fallback_to_no_header(t);
    } else {
        let v1 = match cols[i].values[1] {
            Some(x) => x,
            None => Seq::empty(),
        };
        assert(v == v1 && v1.len() > 0);
        let a2: Option<Alignment> = if v1[0] == ':' && v1[v1.len() - 1] == ':' {
            Some(Alignment::Centered)
        } else if v1[0] == ':' {
            Some(Alignment::Left)
        } else if v1[v1.len() - 1] == ':' {
            Some(Alignment::Right)
        } else {
            None
        };
        let t2 = crate::parser::spec_set_alignment(t, i, a2);
        lemma_delim_abort_row(t2, cols, i + 1, k, tail);
        assert(crate::parser::spec_delim_loop(t, s, i as nat)
            == crate::parser::spec_delim_loop(t2, tail3, (i + 1) as nat));
        assert forall|j: int|
            0 <= j < cols.len() implies t2.columns[j].name == t.columns[j].name
                && t2.columns[j].values == t.columns[j].values by {
            if j != i {
                assert(t2.columns[j] == t.columns[j]);
            }
        }
    }
}

/// Law (round-trip stability, header-less case): rendering a header-less
/// table and parsing the text back yields the same values in the same
/// columns, with names and alignments normalized to absent — the renderer
/// writes neither. The second rendered row must read as data: its cells up
/// to `k` are alignment-shaped and cell `k` is blank or not, so the parser
/// takes the fallback path instead of reading that row as a delimiter
/// line.
#[verifier::rlimit(100)]
pub proof fn lemma_round_trip_no_headers(t: TableModel, k: int)
    requires
        t.no_headers,
        spec_len(t) >= 2,
        forall|i: int| 0 <= i < t.columns.len() ==> t.columns[i].values.len() == spec_len(t),
        forall|i: int, r: int|
            0 <= i < t.columns.len() && 0 <= r < spec_len(t) ==> clean_opt(
                t.columns[i].values[r],
            ),
        0 <= k < t.columns.len(),
        forall|j: int|
            0 <= j < k ==> ((#[trigger] t.columns[j].values[1]) matches Some(v) && align_like(v)),
        (match t.columns[k].values[1] {
            None => true,
            Some(v) => !align_like(v),
        }),
    ensures
        crate::parser::spec_parse(spec_render(t)) matches Ok(u) && u.no_headers && u.columns.len()
            == t.columns.len() && (forall|i: int|
            0 <= i < t.columns.len() ==> u.columns[i].name is None && u.columns[i].alignment
                is None && u.columns[i].values == t.columns[i].values),
{
    let cols = t.columns;
    let out = spec_render(t);
    assert(out =~= spec_rows_out(t, 0));
    lemma_rows_text_shape(t, 0);
    lemma_rows_text_shape(t, 1);
    let rt = rows_text(t, 0);
    let rt1 = rows_text(t, 1);

    // The overall trim drops exactly the final newline.
    assert(out[0] == '|');
    lemma_skip_leading_at(out, 0);
    assert(out.subrange(0, out.len() as int) =~= out);
    assert(out[out.len() - 1] == '\n');
    assert(out[out.len() - 2] == '|');
    lemma_skip_trailing_at(out, out.len() - 1);
    let s0 = spec_trim(out);
    assert(s0 =~= rt);

    // Row 0 reads as a header line whose names are its values.
    let pseudo = Seq::new(
        cols.len(),
        |j: int|
            ColumnModel {
                name: cols[j].values[0],
                alignment: cols[j].alignment,
                largest_value: cols[j].largest_value,
                values: Seq::empty(),
            },
    );
    lemma_header_cells_as_row(cols, pseudo, 0);
    let tail1 = seq!['|', '\n'] + rt1;
    assert(s0 =~= spec_header_cells(pseudo, 0) + tail1);
    assert(tail1[0] == '|' && tail1[1] == '\n');
    assert(forall|j: int| 0 <= j < pseudo.len() ==> clean_opt(#[trigger] pseudo[j].name));
    lemma_parse_header_cells(crate::table::empty_table(), pseudo, 0, tail1);
    let t1 = add_name_columns(crate::table::empty_table(), pseudo, 0);
    let s1 = tail1.subrange(1, tail1.len() as int);
    assert(crate::parser::spec_parse_column_names(crate::table::empty_table(), out) == Ok::<
        (TableModel, Seq<char>),
        Seq<char>,
    >((t1, s1)));
    lemma_add_name_columns_effect(crate::table::empty_table(), pseudo, 0);
    assert(t1.columns.len() == cols.len());
    assert(s1 =~= seq!['\n'] + rt1);

    // Row 1 makes the delimiter phase fall back to no headers.
    assert(s1[0] == '\n');
    assert(s1[1] == rt1[0] && rt1[0] == '|');
    lemma_skip_leading_at(s1, 1);
    assert(s1[s1.len() - 1] == rt1[rt1.len() - 1]);
    lemma_skip_trailing_at(s1.subrange(1, s1.len() as int), s1.len() - 1);
    assert(spec_trim(s1) =~= rt1);
    if spec_len(t) == 2 {
        assert(rt1 =~= spec_row_cells(cols, 1, 0) + seq!['|'] + Seq::<char>::empty());
        lemma_delim_abort_row(t1, cols, 0, k, Seq::empty());
    } else {
        lemma_rows_text_shape(t, 2);
        let tl = seq!['\n'] + rows_text(t, 2);
        assert(rt1 =~= spec_row_cells(cols, 1, 0) + seq!['|'] + tl);
        lemma_delim_abort_row(t1, cols, 0, k, tl);
    }
    let d = crate::parser::spec_delim_loop(t1, rt1, 0);
    assert(d matches Ok(p) && p.1 is None);
    let u1 = d->Ok_0.0;
    assert(crate::parser::spec_parse_delimiter_line(t1, s1) == Ok::<
        (TableModel, Option<Seq<char>>),
        Seq<char>,
    >((u1, None)));

    // The remaining rows read back as rows 1 and on.
    lemma_parse_rows_lines(u1, t, 1);
    let u = rows_result(u1, t, 1);
    assert(crate::parser::spec_parse_rows(u1, s1) == Ok::<TableModel, Seq<char>>(u));
    assert forall|j: int|
        0 <= j < cols.len() implies u1.columns[j].values =~= cols[j].values.subrange(0, 1) by {
        assert(u1.columns[j].values == t1.columns[j].values.push(t1.columns[j].name));
        assert(t1.columns[j] == name_column(pseudo[j].name));
        assert(u1.columns[j].values =~= seq![cols[j].values[0]]);
    }
    lemma_rows_result_effect(u1, t, 1);
    assert(crate::parser::spec_parse(out) == Ok::<TableModel, Seq<char>>(u));
}

/// Law (round-trip stability, for parsed tables): a table the parser
/// produced with headers and a complete final row renders to text that
/// parses back to the same column names, alignments and values.
pub proof fn lemma_parse_render_round_trip(s: Seq<char>, t: TableModel)
    requires
        crate::parser::spec_parse(s) == Ok::<TableModel, Seq<char>>(t),
        !t.no_headers,
        t.current_column == t.columns.len(),
    ensures
        crate::parser::spec_parse(spec_render(t)) matches Ok(u) && !u.no_headers && u.columns.len()
            == t.columns.len() && (forall|i: int|
            0 <= i < t.columns.len() ==> u.columns[i].name == t.columns[i].name
                && u.columns[i].alignment == t.columns[i].alignment && u.columns[i].values
                == t.columns[i].values),
{
    crate::laws::lemma_parse_row_consistent(s);
    lemma_parse_clean(s);
    lemma_round_trip(t);
}

} // verus!
