//! The renderer: turns a finished table back into pipe-table text with
//! normalized spacing, one padded cell per column, and a delimiter line
//! that encodes each column's alignment.

use crate::table;
use crate::table::Alignment;
use crate::table::ColumnModel;
use crate::table::TableModel;
use crate::table::lemma_cols_deep_view_index;
use crate::table::lemma_cols_deep_view_len;
use crate::table::lemma_vals_deep_view_index;
use crate::table::lemma_vals_deep_view_len;
use crate::table::spec_len;
use vstd::prelude::*;
use vstd::string::StrSliceExecFns;
use vstd::string::StringExecFns;

verus! {

/// The alignment a cell is padded with: an absent alignment renders as
/// `Left`.
pub open spec fn eff_align(a: Option<Alignment>) -> Alignment {
    match a {
        Some(x) => x,
        None => Alignment::Left,
    }
}

/// The text of an optional cell: absent renders as blank.
pub open spec fn opt_text(v: Option<Seq<char>>) -> Seq<char> {
    match v {
        Some(s) => s,
        None => Seq::empty(),
    }
}

/// `n` spaces.
pub open spec fn spec_spaces(n: nat) -> Seq<char> {
    Seq::new(n, |i: int| ' ')
}

/// `n` dashes.
pub open spec fn spec_dashes(n: nat) -> Seq<char> {
    Seq::new(n, |i: int| '-')
}

/// `value` padded with spaces to exactly `w` characters (never truncated)
/// according to `a`; centering leaves the extra space on the right.
pub open spec fn spec_pad(value: Seq<char>, w: nat, a: Alignment) -> Seq<char> {
    if value.len() >= w {
        value
    } else {
        let pad = (w - value.len()) as nat;
        match a {
            Alignment::Left => value + spec_spaces(pad),
            Alignment::Right => spec_spaces(pad) + value,
            Alignment::Centered => spec_spaces((pad / 2) as nat) + value + spec_spaces(
                (pad - pad / 2) as nat,
            ),
        }
    }
}

/// One rendered cell: `"| "`, the padded value, and a trailing space.
pub open spec fn spec_cell(value: Seq<char>, a: Alignment, w: nat) -> Seq<char> {
    "| "@ + spec_pad(value, w, a) + " "@
}

/// One column of the delimiter line: a `w + 2` wide dash field behind `|`,
/// with colons marking Left, Right or Centered alignment.
pub open spec fn spec_sep_cell(a: Option<Alignment>, w: nat) -> Seq<char> {
    match a {
        None => seq!['|', '-'] + spec_dashes(w) + seq!['-'],
        Some(Alignment::Left) => seq!['|', ':'] + spec_dashes(w) + seq!['-'],
        Some(Alignment::Right) => seq!['|', '-'] + spec_dashes(w) + seq![':'],
        Some(Alignment::Centered) => seq!['|', ':'] + spec_dashes(w) + seq![':'],
    }
}

/// The header cells from column `i` on: each column's name (blank when
/// absent) padded to its width.
pub open spec fn spec_header_cells(cols: Seq<ColumnModel>, i: int) -> Seq<char>
    decreases cols.len() - i,
{
    if i < 0 || i >= cols.len() {
        Seq::empty()
    } else {
        spec_cell(opt_text(cols[i].name), eff_align(cols[i].alignment), cols[i].largest_value)
            + spec_header_cells(cols, i + 1)
    }
}

/// The delimiter-line cells from column `i` on.
pub open spec fn spec_sep_cells(cols: Seq<ColumnModel>, i: int) -> Seq<char>
    decreases cols.len() - i,
{
    if i < 0 || i >= cols.len() {
        Seq::empty()
    } else {
        spec_sep_cell(cols[i].alignment, cols[i].largest_value) + spec_sep_cells(cols, i + 1)
    }
}

/// The cells of data row `row` from column `i` on.
pub open spec fn spec_row_cells(cols: Seq<ColumnModel>, row: int, i: int) -> Seq<char>
    decreases cols.len() - i,
{
    if i < 0 || i >= cols.len() {
        Seq::empty()
    } else {
        spec_cell(
            opt_text(cols[i].values[row]),
            eff_align(cols[i].alignment),
            cols[i].largest_value,
        ) + spec_row_cells(cols, row, i + 1)
    }
}

/// The rendered data rows from `row` on, each closed by `|` and a newline.
pub open spec fn spec_rows_out(t: TableModel, row: int) -> Seq<char>
    decreases spec_len(t) - row,
{
    if row < 0 || row >= spec_len(t) {
        Seq::empty()
    } else {
        spec_row_cells(t.columns, row, 0) + seq!['|', '\n'] + spec_rows_out(t, row + 1)
    }
}

/// The header block: nothing when the table has no headers, else the
/// header line and the delimiter line.
pub open spec fn spec_header_out(t: TableModel) -> Seq<char> {
    if t.no_headers {
        Seq::empty()
    } else {
        spec_header_cells(t.columns, 0) + seq!['|', '\n'] + spec_sep_cells(t.columns, 0) + seq![
            '|',
            '\n',
        ]
    }
}

/// The full rendering: the header block followed by every data row.
pub open spec fn spec_render(t: TableModel) -> Seq<char> {
    spec_header_out(t) + spec_rows_out(t, 0)
}

/// A table the renderer can consume: every column has a value slot for
/// every row the row counter accounts for.
pub open spec fn renderable(t: TableModel) -> bool {
    &&& t.current_row < usize::MAX
    &&& forall|i: int| 0 <= i < t.columns.len() ==> t.columns[i].values.len() >= spec_len(t)
}

/// Appends `n` spaces.
fn push_spaces(out: &mut String, n: usize)
    ensures
        final(out)@ == old(out)@ + spec_spaces(n as nat),
{
    let mut i: usize = 0;
    while i < n
        invariant
            i <= n,
            out@ =~= old(out)@ + spec_spaces(i as nat),
        decreases n - i,
    {
        out.append(" ");
        i = i + 1;
        proof {
            reveal_strlit(" ");
            assert(out@ =~= old(out)@ + spec_spaces(i as nat));
        }
    }
    proof {
        assert(out@ =~= old(out)@ + spec_spaces(n as nat));
    }
}

/// Appends `n` dashes.
fn push_dashes(out: &mut String, n: usize)
    ensures
        final(out)@ == old(out)@ + spec_dashes(n as nat),
{
    let mut i: usize = 0;
    while i < n
        invariant
            i <= n,
            out@ =~= old(out)@ + spec_dashes(i as nat),
        decreases n - i,
    {
        out.append("-");
        i = i + 1;
        proof {
            reveal_strlit("-");
            assert(out@ =~= old(out)@ + spec_dashes(i as nat));
        }
    }
    proof {
        assert(out@ =~= old(out)@ + spec_dashes(n as nat));
    }
}

/// A markdown rendering of a finished table. Borrows the table's values.
pub struct Table<'a>(pub table::Table<'a>);

impl<'a> View for Table<'a> {
    type V = TableModel;

    open spec fn view(&self) -> TableModel {
        self.0@
    }
}

impl<'a> From<table::Table<'a>> for Table<'a> {
    fn from(t: table::Table<'a>) -> (r: Self) {
        Table(t)
    }
}

impl<'a> vstd::std_specs::convert::FromSpecImpl<table::Table<'a>> for Table<'a> {
    open spec fn obeys_from_spec() -> bool {
        true
    }

    open spec fn from_spec(t: table::Table<'a>) -> Self {
        Table(t)
    }
}

impl<'a> Table<'a> {
    /// Renders one cell: `"| "`, the value padded to `width`, a space.
    fn display_column(out: &mut String, value: &str, alignment: Alignment, width: usize)
        ensures
            final(out)@ == old(out)@ + spec_cell(value@, alignment, width as nat),
    {
        out.append("| ");
        let vl = value.unicode_len();
        if vl >= width {
            out.append(value);
        } else {
            let pad = width - vl;
            match alignment {
                Alignment::Left => {
                    out.append(value);
                    push_spaces(out, pad);
                },
                Alignment::Right => {
                    push_spaces(out, pad);
                    out.append(value);
                },
                Alignment::Centered => {
                    let l = pad / 2;
                    push_spaces(out, l);
                    out.append(value);
                    push_spaces(out, pad - l);
                },
            }
        }
        out.append(" ");
        proof {
            assert(out@ =~= old(out)@ + spec_cell(value@, alignment, width as nat));
        }
    }

    /// Renders one delimiter-line column for the given alignment marker.
    fn display_header_seperator_column(out: &mut String, alignment: Option<Alignment>, width: usize)
        ensures
            final(out)@ == old(out)@ + spec_sep_cell(alignment, width as nat),
    {
        match alignment {
            None => {
                out.append("|-");
                push_dashes(out, width);
                out.append("-");
            },
            Some(Alignment::Left) => {
                out.append("|:");
                push_dashes(out, width);
                out.append("-");
            },
            Some(Alignment::Right) => {
                out.append("|-");
                push_dashes(out, width);
                out.append(":");
            },
            Some(Alignment::Centered) => {
                out.append("|:");
                push_dashes(out, width);
                out.append(":");
            },
        }
        proof {
            reveal_strlit("|-");
            reveal_strlit("|:");
            reveal_strlit("-");
            reveal_strlit(":");
            assert(out@ =~= old(out)@ + spec_sep_cell(alignment, width as nat));
        }
    }

    /// Renders the header block: nothing when the table has no headers,
    /// else the padded header line and the delimiter line.
    fn display_header(&self, out: &mut String)
        ensures
            final(out)@ == old(out)@ + spec_header_out(self@),
    {
        if self.0.no_headers {
            proof {
                assert(out@ =~= old(out)@ + spec_header_out(self@));
            }
            return ;
        }
        let ncols = self.0.columns.len();
        let mut i: usize = 0;
        while i < ncols
            invariant
                i <= ncols,
                ncols == self@.columns.len(),
                out@ + spec_header_cells(self@.columns, i as int) =~= old(out)@
                    + spec_header_cells(self@.columns, 0),
            decreases ncols - i,
        {
            let name = match self.0.columns[i].name {
                Some(n) => n,
                None => "",
            };
            let alignment = match self.0.columns[i].alignment {
                Some(a) => a,
                None => Alignment::Left,
            };
            let width = self.0.columns[i].largest_value;
            Table::display_column(out, name, alignment, width);
            i = i + 1;
            proof {
                broadcast use {
                    lemma_cols_deep_view_len,
                    lemma_cols_deep_view_index,
                };

                reveal_strlit("");
                assert(out@ + spec_header_cells(self@.columns, i as int) =~= old(out)@
                    + spec_header_cells(self@.columns, 0));
            }
        }
        out.append("|\n");
        let ghost mid = out@;
        proof {
            reveal_strlit("|\n");
            assert(mid =~= old(out)@ + spec_header_cells(self@.columns, 0) + seq!['|', '\n']);
        }
        let mut j: usize = 0;
        while j < ncols
            invariant
                j <= ncols,
                ncols == self@.columns.len(),
                mid == old(out)@ + spec_header_cells(self@.columns, 0) + seq!['|', '\n'],
                out@ + spec_sep_cells(self@.columns, j as int) =~= mid + spec_sep_cells(
                    self@.columns,
                    0,
                ),
            decreases ncols - j,
        {
            let alignment = self.0.columns[j].alignment;
            let width = self.0.columns[j].largest_value;
            Table::display_header_seperator_column(out, alignment, width);
            j = j + 1;
            proof {
                broadcast use {
                    lemma_cols_deep_view_len,
                    lemma_cols_deep_view_index,
                };

                assert(out@ + spec_sep_cells(self@.columns, j as int) =~= mid + spec_sep_cells(
                    self@.columns,
                    0,
                ));
            }
        }
        out.append("|\n");
        proof {
            reveal_strlit("|\n");
            assert(out@ =~= old(out)@ + spec_header_out(self@));
        }
    }

    /// Renders every data row, each cell padded to its column's width and
    /// each row closed by `|` and a newline.
    fn display_rows(&self, out: &mut String)
        requires
            renderable(self@),
        ensures
            final(out)@ == old(out)@ + spec_rows_out(self@, 0),
    {
        let nrows = self.0.len();
        let ncols = self.0.columns.len();
        let mut row: usize = 0;
        while row < nrows
            invariant
                renderable(self@),
                row <= nrows,
                nrows == spec_len(self@),
                ncols == self@.columns.len(),
                out@ + spec_rows_out(self@, row as int) =~= old(out)@ + spec_rows_out(self@, 0),
            decreases nrows - row,
        {
            let ghost at_row = out@;
            let mut i: usize = 0;
            while i < ncols
                invariant
                    renderable(self@),
                    row < nrows,
                    nrows == spec_len(self@),
                    i <= ncols,
                    ncols == self@.columns.len(),
                    out@ + spec_row_cells(self@.columns, row as int, i as int) =~= at_row
                        + spec_row_cells(self@.columns, row as int, 0),
                decreases ncols - i,
            {
                proof {
                    broadcast use {
                        lemma_cols_deep_view_len,
                        lemma_cols_deep_view_index,
                        lemma_vals_deep_view_len,
                        lemma_vals_deep_view_index,
                    };

                }
                let value = match self.0.columns[i].values[row] {
                    Some(v) => v,
                    None => "",
                };
                let alignment = match self.0.columns[i].alignment {
                    Some(a) => a,
                    None => Alignment::Left,
                };
                let width = self.0.columns[i].largest_value;
                Table::display_column(out, value, alignment, width);
                i = i + 1;
                proof {
                    broadcast use {
                        lemma_cols_deep_view_len,
                        lemma_cols_deep_view_index,
                        lemma_vals_deep_view_len,
                        lemma_vals_deep_view_index,
                    };

                    reveal_strlit("");
                    assert(out@ + spec_row_cells(self@.columns, row as int, i as int) =~= at_row
                        + spec_row_cells(self@.columns, row as int, 0));
                }
            }
            out.append("|\n");
            row = row + 1;
            proof {
                reveal_strlit("|\n");
                assert(out@ + spec_rows_out(self@, row as int) =~= old(out)@ + spec_rows_out(
                    self@,
                    0,
                ));
            }
        }
        proof {
            assert(out@ =~= old(out)@ + spec_rows_out(self@, 0));
        }
    }

    /// Renders the whole table: the header block (unless the table has no
    /// headers) followed by every data row.
    pub fn render(&self) -> (out: String)
        requires
            renderable(self@),
        ensures
            out@ == spec_render(self@),
    {
        let mut out = String::new();
        self.display_header(&mut out);
        self.display_rows(&mut out);
        proof {
            assert(out@ =~= spec_render(self@));
        }
        out
    }
}

} // verus!
