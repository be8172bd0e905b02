//! The column-oriented table model: a ragged-safe container with a running
//! construction cursor, built cell by cell by the parser and consumed by the
//! renderer.

use vstd::prelude::*;
use vstd::string::StrSliceExecFns;

verus! {

/// Explicit column alignment taken from the delimiter line. Absence of an
/// alignment (a plain dash token) is a distinct state, kept as
/// `None` in an `Option<Alignment>` and rendered like `Left`.
#[derive(Debug, Copy, Clone, Eq, PartialEq, Structural)]
pub enum Alignment {
    Left,
    Right,
    Centered,
}

/// A parse failure. Carries a single message that describes the offending
/// token or character and its expected syntactic role.
#[derive(Debug)]
pub struct Error(String);

impl View for Error {
    type V = Seq<char>;

    closed spec fn view(&self) -> Seq<char> {
        self.0@
    }
}

impl Error {
    /// Wraps a descriptive message into an error.
    pub fn new(msg: String) -> (e: Self)
        ensures
            e@ == msg@,
    {
        Error(msg)
    }

    /// The error's descriptive message.
    pub fn message(&self) -> (m: &str)
        ensures
            m@ == self@,
    {
        self.0.as_str()
    }
}

/// Mathematical model of a column: optional name, optional alignment, the
/// running maximum width, and one optional value per row.
#[verifier::ext_equal]
pub ghost struct ColumnModel {
    pub name: Option<Seq<char>>,
    pub alignment: Option<Alignment>,
    pub largest_value: nat,
    pub values: Seq<Option<Seq<char>>>,
}

/// Mathematical model of a table, including the construction cursor.
#[verifier::ext_equal]
pub ghost struct TableModel {
    pub current_row: nat,
    pub current_column: nat,
    pub no_headers: bool,
    pub columns: Seq<ColumnModel>,
}

/// One column of a table: an optional display name, an optional explicit
/// alignment, the width of the widest value or name seen so far, and one
/// optional value per row. Values borrow from the parsed input buffer.
#[derive(Debug, Eq, PartialEq)]
pub struct Column<'a> {
    pub name: Option<&'a str>,
    pub alignment: Option<Alignment>,
    pub largest_value: usize,
    pub values: Vec<Option<&'a str>>,
}

impl<'a> View for Column<'a> {
    type V = ColumnModel;

    open spec fn view(&self) -> ColumnModel {
        ColumnModel {
            name: self.name.deep_view(),
            alignment: self.alignment,
            largest_value: self.largest_value as nat,
            values: self.values.deep_view(),
        }
    }
}

impl<'a> DeepView for Column<'a> {
    type V = ColumnModel;

    open spec fn deep_view(&self) -> ColumnModel {
        self.view()
    }
}

/// A table under construction or finished: an ordered sequence of columns
/// plus the cursor (`current_row`, `current_column`) that `push` and
/// `next_row` advance while the parser fills the table in.
#[derive(Debug, Eq, PartialEq)]
pub struct Table<'a> {
    /// Construction cursor: the row currently being filled. Not a logical
    /// property of a finished table.
    pub current_row: usize,
    /// Construction cursor: the column the next `push` will fill.
    pub current_column: usize,
    pub no_headers: bool,
    pub columns: Vec<Column<'a>>,
}

impl<'a> View for Table<'a> {
    type V = TableModel;

    open spec fn view(&self) -> TableModel {
        TableModel {
            current_row: self.current_row as nat,
            current_column: self.current_column as nat,
            no_headers: self.no_headers,
            columns: self.columns.deep_view(),
        }
    }
}

/// The abstract length of a column vector is the vector's length.
pub broadcast proof fn lemma_cols_deep_view_len<'a>(v: Vec<Column<'a>>)
    ensures
        (#[trigger] v.deep_view()).len() == v@.len(),
{
}

/// An element of the abstract column sequence is that column's model.
pub broadcast proof fn lemma_cols_deep_view_index<'a>(v: Vec<Column<'a>>, j: int)
    requires
        0 <= j < v@.len(),
    ensures
        #![trigger v.deep_view()[j]]
        #![trigger v.deep_view(), v@[j]]
        v.deep_view()[j] == v@[j]@,
{
}

/// The abstract length of a value vector is the vector's length.
pub broadcast proof fn lemma_vals_deep_view_len<'a>(v: Vec<Option<&'a str>>)
    ensures
        (#[trigger] v.deep_view()).len() == v@.len(),
{
}

/// An element of the abstract value sequence is that value's view.
pub broadcast proof fn lemma_vals_deep_view_index<'a>(v: Vec<Option<&'a str>>, j: int)
    requires
        0 <= j < v@.len(),
    ensures
        #![trigger v.deep_view()[j]]
        #![trigger v.deep_view(), v@[j]]
        v.deep_view()[j] == v@[j].deep_view(),
{
}

/// The model of a freshly created table: no columns, cursor at the origin.
pub open spec fn empty_table() -> TableModel {
    TableModel { current_row: 0, current_column: 0, no_headers: false, columns: Seq::empty() }
}

/// The larger of two widths.
pub open spec fn nat_max(a: nat, b: nat) -> nat {
    if a >= b {
        a
    } else {
        b
    }
}

/// Width of an optional value: the length of the text, or 0 when absent.
pub open spec fn val_len(v: Option<Seq<char>>) -> nat {
    match v {
        Some(s) => s.len(),
        None => 0,
    }
}

/// `rows` absent cells, the backfill given to a column created mid-table.
pub open spec fn blank_values(rows: nat) -> Seq<Option<Seq<char>>> {
    Seq::new(rows, |i: int| None::<Seq<char>>)
}

/// A column created implicitly by `push`: nameless, unaligned, backfilled
/// with one absent cell per already completed row.
pub open spec fn blank_column(rows: nat) -> ColumnModel {
    ColumnModel { name: None, alignment: None, largest_value: 0, values: blank_values(rows) }
}

/// A column with one more absent cell, as `next_row` pads short rows.
pub open spec fn pad_column(c: ColumnModel) -> ColumnModel {
    ColumnModel { values: c.values.push(None), ..c }
}

/// Number of completed rows: the row counter plus the in-progress row.
pub open spec fn spec_len(t: TableModel) -> nat {
    t.current_row + 1
}

/// Effect of `Table::push`: appends `v` at the column cursor, creating and
/// backfilling that column first when the cursor sits one past the last
/// column, updates the column's running maximum width, advances the cursor.
pub open spec fn spec_push(t: TableModel, v: Option<Seq<char>>) -> TableModel {
    let cols = if t.current_column == t.columns.len() {
        t.columns.push(blank_column(t.current_row))
    } else {
        t.columns
    };
    let col = cols[t.current_column as int];
    let col2 = ColumnModel {
        largest_value: nat_max(col.largest_value, val_len(v)),
        values: col.values.push(v),
        ..col
    };
    TableModel {
        columns: cols.update(t.current_column as int, col2),
        current_column: t.current_column + 1,
        ..t
    }
}

/// Effect of `Table::next_row`: pads every column at or past the cursor
/// with an absent cell, then starts the next row with the cursor at 0.
pub open spec fn spec_next_row(t: TableModel) -> TableModel {
    TableModel {
        columns: Seq::new(
            t.columns.len(),
            |i: int| if t.current_column <= i { pad_column(t.columns[i]) } else { t.columns[i] },
        ),
        current_row: t.current_row + 1,
        current_column: 0,
        ..t
    }
}

/// Effect of `Table::add_column`: appends an empty column whose running
/// maximum width starts at the width of its name.
pub open spec fn spec_add_column(
    t: TableModel,
    name: Option<Seq<char>>,
    alignment: Option<Alignment>,
) -> TableModel {
    TableModel {
        columns: t.columns.push(
            ColumnModel { name, alignment, largest_value: val_len(name), values: Seq::empty() },
        ),
        ..t
    }
}

impl<'a> Default for Table<'a> {
    fn default() -> (t: Self)
        ensures
            t@ == empty_table(),
    {
        broadcast use {
            lemma_cols_deep_view_len,
            lemma_cols_deep_view_index,
            lemma_vals_deep_view_len,
            lemma_vals_deep_view_index,
        };
        let t = Table { current_row: 0, current_column: 0, no_headers: false, columns: Vec::new() };
        proof {
            assert(t@ =~~= empty_table());
        }
        t
    }
}

impl<'a> Table<'a> {
    /// Number of completed rows, counting the row under construction.
    pub fn len(&self) -> (n: usize)
        requires
            self@.current_row < usize::MAX,
        ensures
            n == spec_len(self@),
    {
        self.current_row + 1
    }

    /// Whether the table has no rows at all; `len` counts the row under
    /// construction, so this holds of no table.
    pub fn is_empty(&self) -> (r: bool)
        requires
            self@.current_row < usize::MAX,
        ensures
            r == (spec_len(self@) == 0),
    {
        self.len() == 0
    }

    /// Appends a cell at the current column cursor of the current row. When
    /// the cursor equals the column count a new column is created and
    /// backfilled with absent cells for every completed row.
    pub fn push(&mut self, value: Option<&'a str>)
        requires
            old(self)@.current_column <= old(self)@.columns.len(),
            old(self)@.columns.len() < usize::MAX,
        ensures
            final(self)@ == spec_push(old(self)@, value.deep_view()),
    {
        broadcast use {
            lemma_cols_deep_view_len,
            lemma_cols_deep_view_index,
            lemma_vals_deep_view_len,
            lemma_vals_deep_view_index,
        };
        if self.current_column == self.columns.len() {
            let rows = self.current_row;
            let mut vals: Vec<Option<&'a str>> = Vec::new();
            let mut i: usize = 0;
            while i < rows
                invariant
                    i <= rows,
                    vals.deep_view() == blank_values(i as nat),
                decreases rows - i,
            {
                vals.push(None);
                i = i + 1;
                proof {
                    broadcast use {
                        lemma_vals_deep_view_len,
                        lemma_vals_deep_view_index,
                    };
                    assert(vals.deep_view() =~= blank_values(i as nat));
                }
            }
            self.columns.push(
                Column { largest_value: 0, name: None, alignment: None, values: vals },
            );
            proof {
                assert(self@.columns =~~= old(self)@.columns.push(blank_column(old(self)@.current_row)));
            }
        }
        let idx = self.current_column;
        let vlen: usize = match value {
            Some(s) => s.unicode_len(),
            None => 0,
        };
        let cur = self.columns[idx].largest_value;
        let largest: usize = if cur >= vlen {
            cur
        } else {
            vlen
        };
        let col = &mut self.columns[idx];
        col.largest_value = largest;
        col.values.push(value);
        self.current_column = idx + 1;
        proof {
            assert(final(self)@ =~~= spec_push(old(self)@, value.deep_view()));
        }
    }

    /// Ends the current row: every column the cursor has not reached gets
    /// an absent cell, then the cursor returns to column 0 of the next row.
    pub fn next_row(&mut self)
        requires
            old(self)@.current_column <= old(self)@.columns.len(),
            old(self)@.current_row < usize::MAX,
        ensures
            final(self)@ == spec_next_row(old(self)@),
    {
        broadcast use {
            lemma_cols_deep_view_len,
            lemma_cols_deep_view_index,
            lemma_vals_deep_view_len,
            lemma_vals_deep_view_index,
        };
        while self.current_column != self.columns.len()
            invariant
                old(self)@.current_column <= self@.current_column <= self@.columns.len(),
                self@.columns.len() == old(self)@.columns.len(),
                self@.current_row == old(self)@.current_row,
                self@.no_headers == old(self)@.no_headers,
                forall|i: int|
                    0 <= i < old(self)@.current_column ==> self@.columns[i] == old(
                        self,
                    )@.columns[i],
                forall|i: int|
                    old(self)@.current_column <= i < self@.current_column ==> self@.columns[i]
                        == pad_column(old(self)@.columns[i]),
                forall|i: int|
                    self@.current_column <= i < self@.columns.len() ==> self@.columns[i] == old(
                        self,
                    )@.columns[i],
            decreases self@.columns.len() - self@.current_column,
        {
            let idx = self.current_column;
            let ghost before = self@.columns[idx as int];
            let col = &mut self.columns[idx];
            col.values.push(None);
            self.current_column = idx + 1;
            proof {
                broadcast use {
                    lemma_cols_deep_view_len,
                    lemma_cols_deep_view_index,
                    lemma_vals_deep_view_len,
                    lemma_vals_deep_view_index,
                };
                assert(self@.columns[idx as int] =~~= pad_column(before));
            }
        }
        self.current_row = self.current_row + 1;
        self.current_column = 0;
        proof {
            assert(final(self)@ =~~= spec_next_row(old(self)@));
        }
    }

    /// Appends a new column with no values yet; the running maximum width
    /// starts at the width of the name. Used during the header phase.
    pub fn add_column(&mut self, name: Option<&'a str>, alignment: Option<Alignment>)
        ensures
            final(self)@ == spec_add_column(old(self)@, name.deep_view(), alignment),
    {
        broadcast use {
            lemma_cols_deep_view_len,
            lemma_cols_deep_view_index,
            lemma_vals_deep_view_len,
            lemma_vals_deep_view_index,
        };
        let largest: usize = match name {
            Some(n) => n.unicode_len(),
            None => 0,
        };
        self.columns.push(Column { largest_value: largest, name, alignment, values: Vec::new() });
        proof {
            assert(final(self)@ =~~= spec_add_column(old(self)@, name.deep_view(), alignment));
        }
    }
}

} // verus!
