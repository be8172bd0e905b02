//! The three-phase parser: header names, delimiter/alignment line (with
//! fallback reinterpretation when that line is not a delimiter line), and
//! data rows. All phases share one pipe-delimited token scanner.

use crate::table::Alignment;
use crate::table::ColumnModel;
use crate::table::Error;
use crate::table::Table;
use crate::table::TableModel;
use crate::table::empty_table;
use crate::table::lemma_cols_deep_view_index;
use crate::table::lemma_cols_deep_view_len;
use crate::table::spec_add_column;
use crate::table::spec_next_row;
use crate::table::spec_push;
use vstd::prelude::*;
use vstd::string::StrSliceExecFns;
use vstd::string::StringExecFns;

verus! {

/// Whether `c` is whitespace, as `str::trim` understands it.
pub open spec fn is_space(c: char) -> bool {
    let u = c as int;
    u == 0x09 || u == 0x0A || u == 0x0B || u == 0x0C || u == 0x0D || u == 0x20 || u == 0x85
        || u == 0xA0 || u == 0x1680 || (0x2000 <= u && u <= 0x200A) || u == 0x2028 || u == 0x2029
        || u == 0x202F || u == 0x205F || u == 0x3000
}

/// `s` without its leading run of whitespace.
pub open spec fn spec_skip_leading(s: Seq<char>) -> Seq<char>
    decreases s.len(),
{
    if s.len() > 0 && is_space(s[0]) {
        spec_skip_leading(s.drop_first())
    } else {
        s
    }
}

/// `s` without its trailing run of whitespace.
pub open spec fn spec_skip_trailing(s: Seq<char>) -> Seq<char>
    decreases s.len(),
{
    if s.len() > 0 && is_space(s.last()) {
        spec_skip_trailing(s.drop_last())
    } else {
        s
    }
}

/// `s` without leading and trailing whitespace.
pub open spec fn spec_trim(s: Seq<char>) -> Seq<char> {
    spec_skip_trailing(spec_skip_leading(s))
}

/// The position of the first occurrence of `c` in `s`, if any.
pub open spec fn spec_find(s: Seq<char>, c: char) -> Option<nat>
    decreases s.len(),
{
    if s.len() == 0 {
        None
    } else if s[0] == c {
        Some(0)
    } else {
        match spec_find(s.drop_first(), c) {
            None => None,
            Some(i) => Some((i + 1) as nat),
        }
    }
}

/// A found position lies inside the sequence.
pub proof fn lemma_find_bound(s: Seq<char>, c: char)
    ensures
        spec_find(s, c) matches Some(i) ==> i < s.len() && s[i as int] == c,
    decreases s.len(),
{
    if s.len() > 0 && s[0] != c {
        lemma_find_bound(s.drop_first(), c);
    }
}

/// If everything before `i` differs from `c`, the first occurrence is at
/// `i` (or there is none when `i` is the length).
pub proof fn lemma_find_at(s: Seq<char>, c: char, i: int)
    requires
        0 <= i <= s.len(),
        forall|j: int| 0 <= j < i ==> s[j] != c,
        i == s.len() || s[i] == c,
    ensures
        i == s.len() ==> spec_find(s, c) is None,
        i < s.len() ==> spec_find(s, c) == Some(i as nat),
    decreases i,
{
    if i == 0 {
    } else {
        assert(s[0] != c);
        lemma_find_at(s.drop_first(), c, i - 1);
    }
}

/// If the first `lo` characters are whitespace and the one at `lo` is not,
/// skipping leading whitespace drops exactly `lo` characters.
pub proof fn lemma_skip_leading_at(s: Seq<char>, lo: int)
    requires
        0 <= lo <= s.len(),
        forall|j: int| 0 <= j < lo ==> is_space(s[j]),
        lo == s.len() || !is_space(s[lo]),
    ensures
        spec_skip_leading(s) == s.subrange(lo, s.len() as int),
    decreases lo,
{
    if lo == 0 {
        assert(s.subrange(0, s.len() as int) =~= s);
    } else {
        assert(is_space(s[0]));
        lemma_skip_leading_at(s.drop_first(), lo - 1);
        assert(s.drop_first().subrange(lo - 1, s.drop_first().len() as int) =~= s.subrange(
            lo,
            s.len() as int,
        ));
    }
}

/// If everything from `hi` on is whitespace and the character before `hi`
/// is not, skipping trailing whitespace keeps exactly `hi` characters.
pub proof fn lemma_skip_trailing_at(s: Seq<char>, hi: int)
    requires
        0 <= hi <= s.len(),
        forall|j: int| hi <= j < s.len() ==> is_space(s[j]),
        hi == 0 || !is_space(s[hi - 1]),
    ensures
        spec_skip_trailing(s) == s.subrange(0, hi),
    decreases s.len() - hi,
{
    if hi == s.len() {
        if s.len() > 0 {
            assert(!is_space(s.last()));
        }
        assert(s.subrange(0, s.len() as int) =~= s);
    } else {
        assert(is_space(s.last()));
        lemma_skip_trailing_at(s.drop_last(), hi);
        assert(s.drop_last().subrange(0, hi) =~= s.subrange(0, hi));
    }
}

/// Trimming never lengthens a sequence.
pub proof fn lemma_trim_len(s: Seq<char>)
    ensures
        spec_trim(s).len() <= s.len(),
{
    lemma_skip_leading_len(s);
    lemma_skip_trailing_len(spec_skip_leading(s));
}

proof fn lemma_skip_leading_len(s: Seq<char>)
    ensures
        spec_skip_leading(s).len() <= s.len(),
    decreases s.len(),
{
    if s.len() > 0 && is_space(s[0]) {
        lemma_skip_leading_len(s.drop_first());
    }
}

proof fn lemma_skip_trailing_len(s: Seq<char>)
    ensures
        spec_skip_trailing(s).len() <= s.len(),
    decreases s.len(),
{
    if s.len() > 0 && is_space(s.last()) {
        lemma_skip_trailing_len(s.drop_last());
    }
}

/// Whether `c` is whitespace; mirrors `is_space`.
fn is_space_char(c: char) -> (b: bool)
    ensures
        b == is_space(c),
{
    let u = c as u32;
    u == 0x09 || u == 0x0A || u == 0x0B || u == 0x0C || u == 0x0D || u == 0x20 || u == 0x85
        || u == 0xA0 || u == 0x1680 || (0x2000 <= u && u <= 0x200A) || u == 0x2028 || u == 0x2029
        || u == 0x202F || u == 0x205F || u == 0x3000
}

/// Drops leading and trailing whitespace, the way `str::trim` does.
pub fn skip_spaces<'a>(content: &'a str) -> (r: &'a str)
    ensures
        r@ == spec_trim(content@),
{
    let n = content.unicode_len();
    let mut lo: usize = 0;
    while lo < n && is_space_char(content.get_char(lo))
        invariant
            n == content@.len(),
            lo <= n,
            forall|j: int| 0 <= j < lo ==> is_space(content@[j]),
        decreases n - lo,
    {
        lo = lo + 1;
    }
    let mut hi: usize = n;
    while hi > lo && is_space_char(content.get_char(hi - 1))
        invariant
            n == content@.len(),
            lo <= hi <= n,
            forall|j: int| hi <= j < n ==> is_space(content@[j]),
            lo == n || !is_space(content@[lo as int]),
            forall|j: int| 0 <= j < lo ==> is_space(content@[j]),
        decreases hi,
    {
        hi = hi - 1;
    }
    let r = content.substring_char(lo, hi);
    proof {
        lemma_skip_leading_at(content@, lo as int);
        let mid = content@.subrange(lo as int, n as int);
        lemma_skip_trailing_at(mid, hi - lo);
        assert(mid.subrange(0, hi - lo) =~= content@.subrange(lo as int, hi as int));
    }
    r
}

/// Splits off the first character: `(None, content)` when empty, else the
/// character and the remainder after it.
pub fn next<'a>(content: &'a str) -> (r: (Option<char>, &'a str))
    ensures
        content@.len() == 0 ==> r.0 is None && r.1@ == content@,
        content@.len() > 0 ==> r.0 == Some(content@[0]) && r.1@ == content@.subrange(
            1,
            content@.len() as int,
        ),
{
    let n = content.unicode_len();
    if n == 0 {
        (None, content)
    } else {
        let c = content.get_char(0);
        let rest = content.substring_char(1, n);
        (Some(c), rest)
    }
}

/// The first character, if any, without consuming it.
pub fn peek(content: &str) -> (r: Option<char>)
    ensures
        content@.len() == 0 ==> r is None,
        content@.len() > 0 ==> r == Some(content@[0]),
{
    if content.unicode_len() == 0 {
        None
    } else {
        Some(content.get_char(0))
    }
}

/// Scans for the first occurrence of `c`: on a hit, the text before it and
/// the remainder starting at it; on a miss, `None` and the whole input.
pub fn read_until<'a>(content: &'a str, c: char) -> (r: (Option<&'a str>, &'a str))
    ensures
        spec_find(content@, c) is None ==> r.0 is None && r.1@ == content@,
        spec_find(content@, c) matches Some(i) ==> r.0 matches Some(pre) && pre@ == content@
            .subrange(0, i as int) && r.1@ == content@.subrange(i as int, content@.len() as int),
{
    let n = content.unicode_len();
    let mut i: usize = 0;
    while i < n && content.get_char(i) != c
        invariant
            n == content@.len(),
            i <= n,
            forall|j: int| 0 <= j < i ==> content@[j] != c,
        decreases n - i,
    {
        i = i + 1;
    }
    proof {
        lemma_find_at(content@, c, i as int);
    }
    if i == n {
        (None, content)
    } else {
        let pre = content.substring_char(0, i);
        let rest = content.substring_char(i, n);
        (Some(pre), rest)
    }
}

/// The message of an unterminated-token error.
pub open spec fn unterminated_msg() -> Seq<char> {
    "failed to find closing |"@
}

/// The message of a malformed-delimiter error: an unexpected character
/// where a `|` was required, in the phase named by `role`.
pub open spec fn malformed_msg(role: Seq<char>, c: char) -> Seq<char> {
    "expecting "@ + role + " definition surrounded by | but found "@ + seq![c]
}

/// Relies on `String::push`: appends exactly the one character.
#[verifier::external_body]
fn push_char(s: &mut String, c: char)
    ensures
        final(s)@ == old(s)@.push(c),
{
    s.push(c);
}

/// Builds the malformed-delimiter error for phase `role` and character `c`.
fn malformed_error(role: &str, c: char) -> (e: Error)
    ensures
        e@ == malformed_msg(role@, c),
{
    let mut m = String::from_str("expecting ");
    m.append(role);
    m.append(" definition surrounded by | but found ");
    push_char(&mut m, c);
    let e = Error::new(m);
    proof {
        assert(m@ =~= malformed_msg(role@, c));
    }
    e
}

/// What `parse_column` extracts from text following a consumed `|`: the
/// trimmed token before the next `|` (absent when blank) and the remainder
/// starting at that `|`, or the unterminated-token error.
pub open spec fn spec_parse_column(s: Seq<char>) -> Result<
    (Option<Seq<char>>, Seq<char>),
    Seq<char>,
> {
    match spec_find(s, '|') {
        None => Err(unterminated_msg()),
        Some(i) => {
            let tok = spec_trim(s.subrange(0, i as int));
            Ok(
                (
                    if tok.len() == 0 {
                        None
                    } else {
                        Some(tok)
                    },
                    s.subrange(i as int, s.len() as int),
                ),
            )
        },
    }
}

/// Reads one `|`-delimited token: the text up to the next `|`, trimmed,
/// absent when blank; errors when no closing `|` exists before input end.
pub fn parse_column<'a>(content: &'a str) -> (r: Result<(Option<&'a str>, &'a str), Error>)
    ensures
        match r {
            Ok(p) => spec_parse_column(content@) matches Ok(q) && p.0.deep_view() == q.0 && p.1@
                == q.1,
            Err(e) => spec_parse_column(content@) matches Err(m) && e@ == m,
        },
{
    let (column, new_content) = read_until(content, '|');
    match column {
        None => Err(Error::new(String::from_str("failed to find closing |"))),
        Some(tok) => {
            let tok = skip_spaces(tok);
            if tok.unicode_len() == 0 {
                Ok((None, new_content))
            } else {
                Ok((Some(tok), new_content))
            }
        },
    }
}

/// The phase word used in phase-1 error messages.
pub open spec fn header_role() -> Seq<char> {
    "header"@
}

/// What the header-name phase computes, one `|`-led token at a time, from
/// the already trimmed input: each token becomes an unaligned column; a
/// `|` directly before a newline ends the line; any other character where
/// `|` is expected is fatal. Returns the updated table and the remainder.
pub open spec fn spec_header_loop(t: TableModel, s: Seq<char>) -> Result<
    (TableModel, Seq<char>),
    Seq<char>,
>
    decreases s.len(),
    via spec_header_loop_dec
{
    if s.len() == 0 {
        Ok((t, s))
    } else if s[0] != '|' {
        Err(malformed_msg(header_role(), s[0]))
    } else {
        let rest = s.subrange(1, s.len() as int);
        if rest.len() > 0 && rest[0] == '\n' {
            Ok((t, rest))
        } else {
            match spec_parse_column(rest) {
                Err(m) => Err(m),
                Ok(p) => spec_header_loop(spec_add_column(t, p.0, None), p.1),
            }
        }
    }
}

#[via_fn]
proof fn spec_header_loop_dec(t: TableModel, s: Seq<char>) {
    if s.len() > 0 && s[0] == '|' {
        lemma_find_bound(s.subrange(1, s.len() as int), '|');
    }
}

/// Phase 1 over raw input: trim, then scan the header-name line.
pub open spec fn spec_parse_column_names(t: TableModel, s: Seq<char>) -> Result<
    (TableModel, Seq<char>),
    Seq<char>,
> {
    spec_header_loop(t, spec_trim(s))
}

/// Phase 1: reads the header-name line, adding one unaligned column per
/// `|`-delimited token, and returns the unconsumed remainder.
fn parse_column_names<'a>(t: &mut Table<'a>, content: &'a str) -> (r: Result<&'a str, Error>)
    ensures
        (r matches Ok(rem) ==> spec_parse_column_names(old(t)@, content@) matches Ok(p) && p.0
            == final(t)@ && p.1 == rem@ && final(t)@.current_row == old(t)@.current_row
            && final(t)@.current_column == old(t)@.current_column && final(t)@.no_headers == old(
            t,
        )@.no_headers && final(t)@.columns.len() + rem@.len() <= old(t)@.columns.len()
            + content@.len()),
        (r matches Err(e) ==> spec_parse_column_names(old(t)@, content@) matches Err(m) && e@
            == m),
{
    let mut cur = skip_spaces(content);
    let ghost orig = old(t)@;
    let ghost goal = spec_header_loop(orig, cur@);
    proof {
        lemma_trim_len(content@);
    }
    loop
        invariant
            orig == old(t)@,
            goal == spec_header_loop(orig, spec_trim(content@)),
            spec_header_loop(t@, cur@) == goal,
            t@.current_row == orig.current_row,
            t@.current_column == orig.current_column,
            t@.no_headers == orig.no_headers,
            t@.columns.len() + cur@.len() <= orig.columns.len() + spec_trim(content@).len(),
            spec_trim(content@).len() <= content@.len(),
        decreases cur@.len(),
    {
        let ghost prev = cur@;
        let (c_opt, rest) = next(cur);
        match c_opt {
            None => {
                return Ok(cur);
            },
            Some(c) => {
                cur = rest;
                if c == '|' {
                    let brk = match peek(cur) {
                        Some(c2) => c2 == '\n',
                        None => false,
                    };
                    if brk {
                        return Ok(cur);
                    }
                    match parse_column(cur) {
                        Err(e) => {
                            return Err(e);
                        },
                        Ok((column, rest2)) => {
                            cur = rest2;
                            t.add_column(column, None);
                            proof {
                                lemma_find_bound(prev.subrange(1, prev.len() as int), '|');
                                assert(spec_header_loop(t@, cur@) == goal);
                            }
                        },
                    }
                } else {
                    return Err(malformed_error("header", c));
                }
            },
        }
    }
}

/// The phase word used in phase-2 error messages.
pub open spec fn delim_role() -> Seq<char> {
    "header delimiter"@
}

/// The phase word used in phase-3 error messages.
pub open spec fn body_role() -> Seq<char> {
    "body"@
}

/// The table with column `i`'s alignment replaced.
pub open spec fn spec_set_alignment(t: TableModel, i: int, a: Option<Alignment>) -> TableModel {
    TableModel { columns: t.columns.update(i, ColumnModel { alignment: a, ..t.columns[i] }), ..t }
}

/// The table with column `i`'s name replaced.
pub open spec fn spec_set_name(t: TableModel, i: int, name: Option<Seq<char>>) -> TableModel {
    TableModel { columns: t.columns.update(i, ColumnModel { name, ..t.columns[i] }), ..t }
}

/// One step of the no-header reinterpretation: column `i` loses its
/// alignment, its captured name becomes the cell at the column cursor, and
/// the name is cleared.
pub open spec fn spec_reinterpret_step(t: TableModel, i: int) -> TableModel {
    let t1 = spec_set_alignment(t, i, None);
    let t2 = spec_push(t1, t1.columns[i].name);
    spec_set_name(t2, i, None)
}

/// The reinterpretation applied to the first `i` columns in order.
pub open spec fn spec_reinterpret_upto(t: TableModel, i: int) -> TableModel
    decreases i,
{
    if i <= 0 {
        t
    } else {
        spec_reinterpret_step(spec_reinterpret_upto(t, i - 1), i - 1)
    }
}

/// The whole no-header reinterpretation: mark the table header-less, turn
/// every column's name into its row-0 value, and complete that row.
pub open spec fn spec_reinterpret(t: TableModel) -> TableModel {
    spec_next_row(
        spec_reinterpret_upto(
            TableModel { no_headers: true, ..t },
            t.columns.len() as int,
        ),
    )
}

/// What the delimiter phase computes from the trimmed line: each token is
/// matched against the colon/dash alignment forms and recorded on the
/// column at `index`; a token of any other shape, a blank token, or a token
/// with no column left means the line is no delimiter line at all, and the
/// whole table is reinterpreted as header-less (`None` remainder).
pub open spec fn spec_delim_loop(t: TableModel, s: Seq<char>, index: nat) -> Result<
    (TableModel, Option<Seq<char>>),
    Seq<char>,
>
    decreases s.len(),
    via spec_delim_loop_dec
{
    if s.len() == 0 {
        Ok((t, Some(s)))
    } else if s[0] != '|' {
        Err(malformed_msg(delim_role(), s[0]))
    } else {
        let rest = s.subrange(1, s.len() as int);
        if rest.len() > 0 && rest[0] == '\n' {
            Ok((t, Some(rest)))
        } else {
            match spec_parse_column(rest) {
                Err(m) => Err(m),
                Ok(p) => match p.0 {
                    None => Ok((spec_reinterpret(t), None)),
                    Some(tok) => {
                        if index >= t.columns.len() {
                            Ok((spec_reinterpret(t), None))
                        } else if tok[0] == ':' && tok[tok.len() - 1] == ':' {
                            spec_delim_loop(
                                spec_set_alignment(t, index as int, Some(Alignment::Centered)),
                                p.1,
                                index + 1,
                            )
                        } else if tok[0] == ':' {
                            spec_delim_loop(
                                spec_set_alignment(t, index as int, Some(Alignment::Left)),
                                p.1,
                                index + 1,
                            )
                        } else if tok[tok.len() - 1] == ':' {
                            spec_delim_loop(
                                spec_set_alignment(t, index as int, Some(Alignment::Right)),
                                p.1,
                                index + 1,
                            )
                        } else if tok[0] == '-' {
                            spec_delim_loop(spec_set_alignment(t, index as int, None), p.1, index + 1)
                        } else {
                            Ok((spec_reinterpret(t), None))
                        }
                    },
                },
            }
        }
    }
}

#[via_fn]
proof fn spec_delim_loop_dec(t: TableModel, s: Seq<char>, index: nat) {
    if s.len() > 0 && s[0] == '|' {
        lemma_find_bound(s.subrange(1, s.len() as int), '|');
    }
}

/// Phase 2 over raw input: trim, then scan the delimiter line against the
/// columns of phase 1, starting at column 0.
pub open spec fn spec_parse_delimiter_line(t: TableModel, s: Seq<char>) -> Result<
    (TableModel, Option<Seq<char>>),
    Seq<char>,
> {
    spec_delim_loop(t, spec_trim(s), 0)
}

/// The table with column `i`'s alignment replaced.
fn set_align<'a>(t: &mut Table<'a>, i: usize, a: Option<Alignment>)
    requires
        i < old(t)@.columns.len(),
    ensures
        final(t)@ == spec_set_alignment(old(t)@, i as int, a),
{
    let col = &mut t.columns[i];
    col.alignment = a;
    proof {
        broadcast use {
            lemma_cols_deep_view_len,
            lemma_cols_deep_view_index,
        };

        assert(final(t)@ =~~= spec_set_alignment(old(t)@, i as int, a));
    }
}

/// The no-header reinterpretation: clears every column's alignment, turns
/// its name into the cell at the column cursor of row 0, clears the name,
/// and completes the row.
fn reinterpret<'a>(t: &mut Table<'a>)
    requires
        old(t)@.current_column == 0,
        old(t)@.columns.len() < usize::MAX,
        old(t)@.current_row < usize::MAX,
    ensures
        final(t)@ == spec_reinterpret(old(t)@),
        final(t)@.columns.len() == old(t)@.columns.len(),
        final(t)@.current_column == 0,
        final(t)@.current_row == old(t)@.current_row + 1,
        final(t)@.no_headers,
{
    t.no_headers = true;
    let ghost start = t@;
    let n = t.columns.len();
    let mut i: usize = 0;
    while i < n
        invariant
            start == (TableModel { no_headers: true, ..old(t)@ }),
            i <= n,
            n == old(t)@.columns.len(),
            n < usize::MAX,
            t@ == spec_reinterpret_upto(start, i as int),
            t@.columns.len() == n,
            t@.current_column == i as nat,
            t@.current_row == old(t)@.current_row,
            t@.no_headers,
            old(t)@.current_row < usize::MAX,
        decreases n - i,
    {
        let ghost t0 = t@;
        let col = &mut t.columns[i];
        col.alignment = None;
        let ghost t1 = t@;
        proof {
            broadcast use {
                lemma_cols_deep_view_len,
                lemma_cols_deep_view_index,
            };

            assert(t1 =~~= spec_set_alignment(t0, i as int, None));
        }
        let name = t.columns[i].name;
        proof {
            broadcast use {
                lemma_cols_deep_view_len,
                lemma_cols_deep_view_index,
            };

            assert(name.deep_view() == t1.columns[i as int].name);
        }
        t.push(name);
        let ghost t2 = t@;
        let col2 = &mut t.columns[i];
        col2.name = None;
        i = i + 1;
        proof {
            broadcast use {
                lemma_cols_deep_view_len,
                lemma_cols_deep_view_index,
            };

            assert(t@ =~~= spec_set_name(t2, i - 1, None));
            assert(t@ == spec_reinterpret_step(t0, i - 1));
            assert(t@ == spec_reinterpret_upto(start, i as int));
        }
    }
    t.next_row();
    proof {
        assert(final(t)@ == spec_reinterpret(old(t)@));
    }
}

/// Phase 2: reads the delimiter line and records each column's alignment;
/// when the line is not a delimiter line, reinterprets the table as
/// header-less and returns `None` so the line is parsed again as data.
fn parse_delimiter_line<'a>(t: &mut Table<'a>, content: &'a str) -> (r: Result<
    Option<&'a str>,
    Error,
>)
    requires
        old(t)@.current_column == 0,
        old(t)@.columns.len() < usize::MAX,
        old(t)@.current_row < usize::MAX,
    ensures
        (r matches Ok(rem) ==> spec_parse_delimiter_line(old(t)@, content@) matches Ok(p) && p.0
            == final(t)@ && p.1 == rem.deep_view() && final(t)@.columns.len() == old(
            t,
        )@.columns.len() && final(t)@.current_column == 0 && final(t)@.current_row <= old(
            t,
        )@.current_row + 1 && (rem matches Some(s2) ==> s2@.len() <= content@.len())),
        (r matches Err(e) ==> spec_parse_delimiter_line(old(t)@, content@) matches Err(m) && e@
            == m),
{
    let mut cur = skip_spaces(content);
    let ghost orig = old(t)@;
    let ghost goal = spec_delim_loop(orig, cur@, 0);
    proof {
        lemma_trim_len(content@);
    }
    let mut index: usize = 0;
    loop
        invariant
            orig == old(t)@,
            goal == spec_delim_loop(orig, spec_trim(content@), 0),
            spec_delim_loop(t@, cur@, index as nat) == goal,
            t@.current_column == 0,
            t@.current_row == orig.current_row,
            t@.columns.len() == orig.columns.len(),
            orig.columns.len() < usize::MAX,
            orig.current_row < usize::MAX,
            index <= t@.columns.len(),
            cur@.len() <= spec_trim(content@).len(),
            spec_trim(content@).len() <= content@.len(),
        decreases cur@.len(),
    {
        let ghost prev = cur@;
        let (c_opt, rest) = next(cur);
        match c_opt {
            None => {
                return Ok(Some(cur));
            },
            Some(c) => {
                cur = rest;
                if c == '|' {
                    let brk = match peek(cur) {
                        Some(c2) => c2 == '\n',
                        None => false,
                    };
                    if brk {
                        return Ok(Some(cur));
                    }
                    match parse_column(cur) {
                        Err(e) => {
                            return Err(e);
                        },
                        Ok((column, rest2)) => {
                            cur = rest2;
                            proof {
                                lemma_find_bound(prev.subrange(1, prev.len() as int), '|');
                            }
                            match column {
                                None => {
                                    let ghost tb = t@;
                                    reinterpret(t);
                                    proof {
                                        assert(spec_delim_loop(tb, prev, index as nat) == Ok::<
                                            (TableModel, Option<Seq<char>>),
                                            Seq<char>,
                                        >((spec_reinterpret(tb), None)));
                                    }
                                    return Ok(None);
                                },
                                Some(tok) => {
                                    proof {
                                        assert(tok@.len() > 0);
                                    }
                                    if index >= t.columns.len() {
                                        let ghost tb = t@;
                                        reinterpret(t);
                                        proof {
                                            assert(spec_delim_loop(tb, prev, index as nat) == Ok::<
                                                (TableModel, Option<Seq<char>>),
                                                Seq<char>,
                                            >((spec_reinterpret(tb), None)));
                                        }
                                        return Ok(None);
                                    }
                                    let tn = tok.unicode_len();
                                    let starts = tok.get_char(0) == ':';
                                    let ends = tok.get_char(tn - 1) == ':';
                                    if starts && ends {
                                        set_align(t, index, Some(Alignment::Centered));
                                    } else if starts {
                                        set_align(t, index, Some(Alignment::Left));
                                    } else if ends {
                                        set_align(t, index, Some(Alignment::Right));
                                    } else if tok.get_char(0) == '-' {
                                        set_align(t, index, None);
                                    } else {
                                        let ghost tb = t@;
                                        reinterpret(t);
                                        proof {
                                            assert(spec_delim_loop(tb, prev, index as nat) == Ok::<
                                                (TableModel, Option<Seq<char>>),
                                                Seq<char>,
                                            >((spec_reinterpret(tb), None)));
                                        }
                                        return Ok(None);
                                    }
                                    index = index + 1;
                                    proof {
                                        assert(spec_delim_loop(t@, cur@, index as nat) == goal);
                                    }
                                },
                            }
                        },
                    }
                } else {
                    return Err(malformed_error("header delimiter", c));
                }
            },
        }
    }
}

/// What the data-row phase computes from the trimmed remainder: each
/// `|`-led token becomes a cell, a `|` directly before a newline completes
/// the row, a lone trailing character is ignored, and any other character
/// where `|` is expected is fatal.
pub open spec fn spec_rows_loop(t: TableModel, s: Seq<char>) -> Result<TableModel, Seq<char>>
    decreases s.len(),
    via spec_rows_loop_dec
{
    if s.len() == 0 {
        Ok(t)
    } else {
        let c = s[0];
        let rest = s.subrange(1, s.len() as int);
        if rest.len() == 0 {
            Ok(t)
        } else if c != '|' {
            Err(malformed_msg(body_role(), c))
        } else if rest[0] == '\n' {
            spec_rows_loop(spec_next_row(t), rest.subrange(1, rest.len() as int))
        } else {
            match spec_parse_column(rest) {
                Err(m) => Err(m),
                Ok(p) => spec_rows_loop(spec_push(t, p.0), p.1),
            }
        }
    }
}

#[via_fn]
proof fn spec_rows_loop_dec(t: TableModel, s: Seq<char>) {
    if s.len() > 0 && s[0] == '|' {
        lemma_find_bound(s.subrange(1, s.len() as int), '|');
    }
}

/// Phase 3 over raw input: trim, then read data rows to the end.
pub open spec fn spec_parse_rows(t: TableModel, s: Seq<char>) -> Result<TableModel, Seq<char>> {
    spec_rows_loop(t, spec_trim(s))
}

/// Phase 3: fills the table with the remaining data rows, one cell per
/// `|`-delimited token, completing a row at each `|` that ends a line.
fn parse_rows<'a>(t: &mut Table<'a>, content: &'a str) -> (r: Result<(), Error>)
    requires
        old(t)@.current_column <= old(t)@.columns.len(),
        old(t)@.columns.len() + content@.len() <= usize::MAX,
        old(t)@.current_row + content@.len() <= usize::MAX,
    ensures
        (r is Ok ==> (spec_parse_rows(old(t)@, content@) matches Ok(m) && m == final(t)@)),
        (r matches Err(e) ==> spec_parse_rows(old(t)@, content@) matches Err(m) && e@ == m),
{
    let mut cur = skip_spaces(content);
    let ghost orig = old(t)@;
    let ghost goal = spec_rows_loop(orig, cur@);
    proof {
        lemma_trim_len(content@);
    }
    loop
        invariant
            orig == old(t)@,
            goal == spec_rows_loop(orig, spec_trim(content@)),
            spec_rows_loop(t@, cur@) == goal,
            t@.current_column <= t@.columns.len(),
            t@.columns.len() + cur@.len() <= orig.columns.len() + spec_trim(content@).len(),
            t@.current_row + cur@.len() <= orig.current_row + spec_trim(content@).len(),
            orig.columns.len() + spec_trim(content@).len() <= usize::MAX,
            orig.current_row + spec_trim(content@).len() <= usize::MAX,
            spec_trim(content@).len() <= content@.len(),
        decreases cur@.len(),
    {
        let ghost prev = cur@;
        let (c_opt, rest) = next(cur);
        match c_opt {
            None => {
                return Ok(());
            },
            Some(c) => {
                cur = rest;
                if cur.is_empty() {
                    return Ok(());
                }
                if c == '|' {
                    let brk = match peek(cur) {
                        Some(c2) => c2 == '\n',
                        None => false,
                    };
                    if brk {
                        let (_nl, rest2) = next(cur);
                        cur = rest2;
                        t.next_row();
                        proof {
                            assert(spec_rows_loop(t@, cur@) == goal);
                        }
                    } else {
                        match parse_column(cur) {
                            Err(e) => {
                                return Err(e);
                            },
                            Ok((column, rest2)) => {
                                cur = rest2;
                                t.push(column);
                                proof {
                                    lemma_find_bound(prev.subrange(1, prev.len() as int), '|');
                                    assert(spec_rows_loop(t@, cur@) == goal);
                                }
                            },
                        }
                    }
                } else {
                    return Err(malformed_error("body", c));
                }
            },
        }
    }
}

/// What `parse` produces from a whole document: the three phases run in
/// order on successive remainders of the trimmed input, sharing one table;
/// when phase 2 reinterprets, phase 3 re-reads the phase-2 line as data.
pub open spec fn spec_parse(s: Seq<char>) -> Result<TableModel, Seq<char>> {
    match spec_parse_column_names(empty_table(), s) {
        Err(m) => Err(m),
        Ok(p1) => match spec_parse_delimiter_line(p1.0, p1.1) {
            Err(m) => Err(m),
            Ok(p2) => {
                let s2 = match p2.1 {
                    Some(rem) => rem,
                    None => p1.1,
                };
                match spec_parse_rows(p2.0, s2) {
                    Err(m) => Err(m),
                    Ok(m) => Ok(m),
                }
            },
        },
    }
}

/// Parses a whole pipe-table document into a `Table`: a header-name line,
/// a delimiter/alignment line (reinterpreted as data when it is no such
/// line), then data rows. Returns the error of the first offending token
/// or character otherwise.
pub fn parse<'a>(content: &'a str) -> (r: Result<Table<'a>, Error>)
    requires
        content@.len() < usize::MAX,
    ensures
        (r matches Ok(t) ==> spec_parse(content@) matches Ok(m) && m == t@),
        (r matches Err(e) ==> spec_parse(content@) matches Err(m) && e@ == m),
{
    let mut t = Table::default();
    match parse_column_names(&mut t, content) {
        Err(e) => Err(e),
        Ok(rem) => {
            match parse_delimiter_line(&mut t, rem) {
                Err(e) => Err(e),
                Ok(opt) => {
                    let rows_input = match opt {
                        Some(nc) => nc,
                        None => rem,
                    };
                    match parse_rows(&mut t, rows_input) {
                        Err(e) => Err(e),
                        Ok(_u) => Ok(t),
                    }
                },
            }
        },
    }
}

} // verus!
