//! The counting of COUNTIFS: which cells of the first range are read, and how
//! the cells beyond the used area of a sheet are counted without reading
//! them.
//!
//! Whether a read cell meets every criterion is decided outside (it needs
//! the cells' values); here it is given as a grid of truth values.
use vstd::prelude::*;
use crate::types::{Range, LAST_COLUMN, LAST_ROW};

verus! {

/// The first range spans whole columns (every row of the sheet).
pub open spec fn open_rows(first: Range) -> bool {
    first.left.row == 1 && first.right.row == LAST_ROW
}

/// The first range spans whole rows (every column of the sheet).
pub open spec fn open_columns(first: Range) -> bool {
    first.left.column == 1 && first.right.column == LAST_COLUMN
}

/// The number of rows of the range.
pub open spec fn range_height(first: Range) -> int {
    first.right.row - first.left.row + 1
}

/// The number of columns of the range.
pub open spec fn range_width(first: Range) -> int {
    first.right.column - first.left.column + 1
}

/// The range lies within a sheet, and the used area of the sheet (its last
/// row and column) is not negative.
pub open spec fn countifs_valid(first: Range, max_row: i32, max_column: i32) -> bool {
    &&& 1 <= first.left.row <= first.right.row <= LAST_ROW
    &&& 1 <= first.left.column <= first.right.column <= LAST_COLUMN
    &&& 0 <= max_row
    &&& 0 <= max_column
}

/// How many rows of the range are read: with whole columns, only those up to
/// the last used row.
pub open spec fn read_rows(first: Range, max_row: int) -> int {
    if open_rows(first) && max_row < LAST_ROW { max_row } else { range_height(first) }
}

/// How many columns of the range are read: with whole rows, only those up to
/// the last used column.
pub open spec fn read_columns(first: Range, max_column: int) -> int {
    if open_columns(first) && max_column < LAST_COLUMN { max_column } else { range_width(first) }
}

/// The number of `true` among the first `n` values of `row`.
pub open spec fn trues(row: Seq<bool>, n: int) -> nat
    decreases n,
{
    if n <= 0 {
        0
    } else {
        trues(row, n - 1) + if row[n - 1] { 1nat } else { 0nat }
    }
}

/// What the first `k` read rows add: the cells that meet the criteria, and
/// for each row its unread columns when an empty cell meets them.
pub open spec fn read_total(matched: Seq<Seq<bool>>, k: int, unread_columns: int, empty_matches: bool) -> int
    decreases k,
{
    if k <= 0 {
        0
    } else {
        read_total(matched, k - 1, unread_columns, empty_matches) + trues(matched[k - 1], matched[k - 1].len() as int)
            + if empty_matches { unread_columns } else { 0 }
    }
}

/// The count of COUNTIFS: the read cells that meet the criteria, and, when
/// an empty cell meets them, every unread cell (the columns after the last
/// used one in each read row, and the whole rows after the last used row).
pub open spec fn countifs_count(first: Range, max_row: int, max_column: int, empty_matches: bool, matched: Seq<Seq<bool>>) -> int {
    let unread_columns = range_width(first) - read_columns(first, max_column);
    let unread_rows = range_height(first) - read_rows(first, max_row);
    read_total(matched, matched.len() as int, unread_columns, empty_matches)
        + if empty_matches { unread_rows * range_width(first) } else { 0 }
}

/// The rows and columns of the first range of COUNTIFS that are read, for a
/// sheet whose used area ends at `max_row` and `max_column`.
pub fn countifs_extent(first: Range, max_row: i32, max_column: i32) -> (r: (usize, usize))
    requires
        countifs_valid(first, max_row, max_column),
    ensures
        r.0 as int == read_rows(first, max_row as int),
        r.1 as int == read_columns(first, max_column as int),
{
    let rows = if first.left.row == 1 && first.right.row == LAST_ROW && max_row < LAST_ROW {
        max_row
    } else {
        first.right.row - first.left.row + 1
    };
    let columns = if first.left.column == 1 && first.right.column == LAST_COLUMN && max_column < LAST_COLUMN {
        max_column
    } else {
        first.right.column - first.left.column + 1
    };
    (rows as usize, columns as usize)
}

/// How many of `row` are `true`.
fn count_true(row: &Vec<bool>) -> (r: u64)
    ensures
        r == trues(row@, row@.len() as int),
        r <= row@.len(),
{
    let mut c: u64 = 0;
    let mut j: usize = 0;
    while j < row.len()
        invariant
            j <= row.len(),
            c == trues(row@, j as int),
            c <= j,
        decreases row.len() - j,
    {
        if row[j] {
            c = c + 1;
        }
        j = j + 1;
    }
    c
}

/// `=COUNTIFS(range1, criteria1, ...)`: the count, given for each read cell
/// of the first range (`matched`, as many rows and columns as
/// `countifs_extent` gives) whether the cells at its place in every range
/// meet their criteria, and whether an empty cell meets all of them. The
/// number of cells in the unread rows is a product of `i32`s and must fit
/// in one.
pub fn countifs_total(first: Range, max_row: i32, max_column: i32, empty_matches: bool, matched: &Vec<Vec<bool>>) -> (r: u64)
    requires
        countifs_valid(first, max_row, max_column),
        empty_matches && open_rows(first) && max_row < LAST_ROW ==> (LAST_ROW - max_row) * range_width(first) <= i32::MAX,
        matched@.len() == read_rows(first, max_row as int),
        forall|i: int| 0 <= i < matched@.len() ==> (#[trigger] matched@[i])@.len() == read_columns(first, max_column as int),
    ensures
        r as int == countifs_count(first, max_row as int, max_column as int, empty_matches, matched@.map_values(|row: Vec<bool>| row@)),
{
    let ghost g = matched@.map_values(|row: Vec<bool>| row@);
    let unread_columns: u64 = if empty_matches && first.left.column == 1 && first.right.column == LAST_COLUMN
        && max_column < LAST_COLUMN {
        (LAST_COLUMN - max_column) as u64
    } else {
        0
    };
    assert(unread_columns == if empty_matches { range_width(first) - read_columns(first, max_column as int) } else { 0 });
    let mut total: u64 = 0;
    let mut i: usize = 0;
    while i < matched.len()
        invariant
            i <= matched.len(),
            g == matched@.map_values(|row: Vec<bool>| row@),
            countifs_valid(first, max_row, max_column),
            matched@.len() == read_rows(first, max_row as int),
            forall|k: int| 0 <= k < matched@.len() ==> (#[trigger] matched@[k])@.len() == read_columns(first, max_column as int),
            unread_columns == if empty_matches { range_width(first) - read_columns(first, max_column as int) } else { 0 },
            total as int == read_total(g, i as int, range_width(first) - read_columns(first, max_column as int), empty_matches),
            total <= i * 16384,
        decreases matched.len() - i,
    {
        assert(g[i as int] == matched@[i as int]@);
        let c = count_true(&matched[i]);
        total = total + c + unread_columns;
        i = i + 1;
    }
    if empty_matches && first.left.row == 1 && first.right.row == LAST_ROW && max_row < LAST_ROW {
        let unread_rows: u64 = (LAST_ROW - max_row) as u64;
        let width: u64 = (first.right.column - first.left.column + 1) as u64;
        assert(unread_rows * width <= 1048576 * 16384) by (nonlinear_arith)
            requires unread_rows <= 1048576, width <= 16384;
        total = total + unread_rows * width;
    }
    total
}

/// Whether the cell at `(i, j)` of the range is counted: a read cell as
/// given, an unread cell as an empty one.
pub open spec fn cell_counted(matched: Seq<Seq<bool>>, i: int, j: int, empty_matches: bool) -> bool {
    if 0 <= i < matched.len() && 0 <= j < matched[i].len() { matched[i][j] } else { empty_matches }
}

/// How many of the first `w` cells of row `i` are counted.
pub open spec fn plain_row(matched: Seq<Seq<bool>>, i: int, w: int, empty_matches: bool) -> nat
    decreases w,
{
    if w <= 0 {
        0
    } else {
        plain_row(matched, i, w - 1, empty_matches) + if cell_counted(matched, i, w - 1, empty_matches) { 1nat } else { 0nat }
    }
}

/// How many cells of the first `h` rows, `w` columns each, are counted.
pub open spec fn plain_count(matched: Seq<Seq<bool>>, h: int, w: int, empty_matches: bool) -> nat
    decreases h,
{
    if h <= 0 {
        0
    } else {
        plain_count(matched, h - 1, w, empty_matches) + plain_row(matched, h - 1, w, empty_matches)
    }
}

proof fn lemma_plain_row(matched: Seq<Seq<bool>>, i: int, w: int, empty_matches: bool)
    requires
        0 <= w,
    ensures
        0 <= i < matched.len() && w <= matched[i].len() ==> plain_row(matched, i, w, empty_matches) == trues(matched[i], w),
        0 <= i < matched.len() && w >= matched[i].len() ==> plain_row(matched, i, w, empty_matches)
            == trues(matched[i], matched[i].len() as int) + if empty_matches { w - matched[i].len() } else { 0 },
        !(0 <= i < matched.len()) ==> plain_row(matched, i, w, empty_matches) == if empty_matches { w } else { 0 },
    decreases w,
{
    if w > 0 {
        lemma_plain_row(matched, i, w - 1, empty_matches);
    }
}

proof fn lemma_plain_count(matched: Seq<Seq<bool>>, h: int, w: int, rc: int, empty_matches: bool)
    requires
        0 <= h,
        0 <= rc <= w,
        forall|i: int| 0 <= i < matched.len() ==> (#[trigger] matched[i]).len() == rc,
    ensures
        h <= matched.len() ==> plain_count(matched, h, w, empty_matches) == read_total(matched, h, w - rc, empty_matches),
        h >= matched.len() ==> plain_count(matched, h, w, empty_matches)
            == read_total(matched, matched.len() as int, w - rc, empty_matches)
                + if empty_matches { (h - matched.len()) * w } else { 0 },
    decreases h,
{
    let n = matched.len() as int;
    if h == n {
        assert((h - n) * w == 0) by (nonlinear_arith)
            requires h == n;
    }
    if h > 0 {
        lemma_plain_count(matched, h - 1, w, rc, empty_matches);
        lemma_plain_row(matched, h - 1, w, empty_matches);
        if h > n {
            assert((h - n) * w == (h - 1 - n) * w + w) by (nonlinear_arith);
        }
    }
}

/// COUNTIFS counts the cells beyond the used area of a sheet as empty cells
/// without reading them: its count equals counting every cell of the range,
/// each unread cell as an empty one.
pub proof fn law_countifs_counts_unread_cells_as_empty(
    first: Range,
    max_row: i32,
    max_column: i32,
    empty_matches: bool,
    matched: Seq<Seq<bool>>,
)
    requires
        countifs_valid(first, max_row, max_column),
        matched.len() == read_rows(first, max_row as int),
        forall|i: int| 0 <= i < matched.len() ==> (#[trigger] matched[i]).len() == read_columns(first, max_column as int),
    ensures
        countifs_count(first, max_row as int, max_column as int, empty_matches, matched)
            == plain_count(matched, range_height(first), range_width(first), empty_matches),
{
    lemma_plain_count(matched, range_height(first), range_width(first), read_columns(first, max_column as int), empty_matches);
}

} // verus!
