//! The dynamic-array functions SORT, SORTBY, UNIQUE and FILTER.
use vstd::prelude::*;
use vstd::string::*;
use crate::grid::{
    columns_at, grid, grid_result, lemma_grid_push, positions_of, rows_at, rows_at_least,
    select_columns, select_rows, selected_positions, width,
};
use crate::lookup_and_reference::transpose::{fn_transpose, transpose_spec};
use crate::types::{CalcError, Error};

verus! {

/// The sort key of a cell: an empty cell, or the position of its value in
/// the order of values (numbers < strings < booleans < errors). Two values
/// that compare equal share a position.
#[derive(Clone, Copy, Debug, PartialEq, Eq, Structural)]
pub enum SortKey {
    Empty,
    Ranked(i64),
}

/// How two sort keys compare (-1, 0 or 1) in the given direction. Empty
/// cells always sort last, ascending or descending.
pub open spec fn key_order(a: SortKey, b: SortKey, ascending: bool) -> int {
    match (a, b) {
        (SortKey::Empty, SortKey::Empty) => 0,
        (SortKey::Empty, _) => 1,
        (_, SortKey::Empty) => -1,
        (SortKey::Ranked(x), SortKey::Ranked(y)) => {
            let c = if x < y { -1int } else if x > y { 1int } else { 0int };
            if ascending { c } else { -c }
        },
    }
}

/// Compare two sort keys following Excel's rules:
///   Numbers < Strings < Booleans < Errors < Empty cells
/// Empty cells always sort last regardless of ascending/descending.
pub fn sort_key_compare(a: SortKey, b: SortKey, ascending: bool) -> (r: i8)
    ensures
        r as int == key_order(a, b, ascending),
{
    match (a, b) {
        (SortKey::Empty, SortKey::Empty) => 0,
        (SortKey::Empty, _) => 1,
        (_, SortKey::Empty) => -1,
        (SortKey::Ranked(x), SortKey::Ranked(y)) => {
            let c: i8 = if x < y { -1 } else if x > y { 1 } else { 0 };
            if ascending { c } else { -c }
        },
    }
}

/// How positions `a` and `b` compare on the keys from the `k`-th on: the
/// first key on which they differ decides.
pub open spec fn lex_order(keys: Seq<Seq<SortKey>>, asc: Seq<bool>, a: int, b: int, k: int) -> int
    decreases keys.len() - k,
{
    if k < 0 || k >= keys.len() {
        0
    } else {
        let c = key_order(keys[k][a], keys[k][b], asc[k]);
        if c != 0 { c } else { lex_order(keys, asc, a, b, k + 1) }
    }
}

/// Position `a` comes before position `b` in a stable sort on the keys.
pub open spec fn sorted_before(keys: Seq<Seq<SortKey>>, asc: Seq<bool>, a: int, b: int) -> bool {
    let c = lex_order(keys, asc, a, b, 0);
    c < 0 || (c == 0 && a < b)
}

/// `p` lists the positions `0..n` once each, in the order of a stable sort on
/// the keys.
pub open spec fn is_stable_sort(keys: Seq<Seq<SortKey>>, asc: Seq<bool>, n: int, p: Seq<usize>) -> bool {
    &&& p.len() == n
    &&& forall|i: int| 0 <= i < n ==> #[trigger] p[i] < n
    &&& forall|v: usize| v < n ==> #[trigger] p.contains(v)
    &&& forall|i: int, j: int| 0 <= i < j < n ==> sorted_before(keys, asc, #[trigger] p[i] as int, #[trigger] p[j] as int)
}

proof fn lemma_lex_order_props(keys: Seq<Seq<SortKey>>, asc: Seq<bool>, a: int, b: int, c: int, k: int)
    ensures
        lex_order(keys, asc, a, b, k) == -lex_order(keys, asc, b, a, k),
        -1 <= lex_order(keys, asc, a, b, k) <= 1,
        lex_order(keys, asc, a, b, k) <= 0 && lex_order(keys, asc, b, c, k) <= 0
            ==> lex_order(keys, asc, a, c, k) <= 0,
        lex_order(keys, asc, a, b, k) < 0 && lex_order(keys, asc, b, c, k) <= 0
            ==> lex_order(keys, asc, a, c, k) < 0,
        lex_order(keys, asc, a, b, k) <= 0 && lex_order(keys, asc, b, c, k) < 0
            ==> lex_order(keys, asc, a, c, k) < 0,
    decreases keys.len() - k,
{
    if 0 <= k < keys.len() {
        lemma_lex_order_props(keys, asc, a, b, c, k + 1);
    }
}

/// Stable sort order is a strict total order on positions.
proof fn lemma_sorted_before_order(keys: Seq<Seq<SortKey>>, asc: Seq<bool>, a: int, b: int, c: int)
    ensures
        a != b ==> (sorted_before(keys, asc, a, b) || sorted_before(keys, asc, b, a)),
        !(sorted_before(keys, asc, a, b) && sorted_before(keys, asc, b, a)),
        sorted_before(keys, asc, a, b) && sorted_before(keys, asc, b, c) ==> sorted_before(keys, asc, a, c),
{
    lemma_lex_order_props(keys, asc, a, b, c, 0);
    lemma_lex_order_props(keys, asc, b, c, a, 0);
    lemma_lex_order_props(keys, asc, a, c, b, 0);
}

/// How positions `a` and `b` compare on all keys.
fn lex_compare(keys: &Vec<Vec<SortKey>>, asc: &Vec<bool>, a: usize, b: usize) -> (r: i8)
    requires
        keys@.len() == asc@.len(),
        forall|k: int| 0 <= k < keys@.len() ==> a < (#[trigger] keys@[k]).len() && b < keys@[k].len(),
    ensures
        r as int == lex_order(grid(keys@), asc@, a as int, b as int, 0),
{
    let mut k: usize = keys.len();
    let mut result: i8 = 0;
    // Walk the keys from the last to the first: the first key that differs decides.
    while k > 0
        invariant
            k <= keys@.len(),
            keys@.len() == asc@.len(),
            forall|k2: int| 0 <= k2 < keys@.len() ==> a < (#[trigger] keys@[k2]).len() && b < keys@[k2].len(),
            result as int == lex_order(grid(keys@), asc@, a as int, b as int, k as int),
        decreases k,
    {
        k = k - 1;
        assert(grid(keys@)[k as int] == keys@[k as int]@);
        let c = sort_key_compare(keys[k][a], keys[k][b], asc[k]);
        if c != 0 {
            result = c;
        }
    }
    result
}

/// The positions `0..n` in the order of a stable sort on the keys (ties keep
/// their original order).
pub fn stable_sort_indices(keys: &Vec<Vec<SortKey>>, asc: &Vec<bool>, n: usize) -> (r: Vec<usize>)
    requires
        keys@.len() == asc@.len(),
        forall|k: int| 0 <= k < keys@.len() ==> (#[trigger] keys@[k]).len() == n,
    ensures
        is_stable_sort(grid(keys@), asc@, n as int, r@),
{
    let ghost kv = grid(keys@);
    let mut order: Vec<usize> = Vec::new();
    let mut idx: usize = 0;
    while idx < n
        invariant
            kv == grid(keys@),
            keys@.len() == asc@.len(),
            forall|k: int| 0 <= k < keys@.len() ==> (#[trigger] keys@[k]).len() == n,
            idx <= n,
            is_stable_sort(kv, asc@, idx as int, order@),
        decreases n - idx,
    {
        let mut pos: usize = 0;
        while pos < order.len() && lex_compare(keys, asc, order[pos], idx) <= 0
            invariant
                kv == grid(keys@),
                keys@.len() == asc@.len(),
                forall|k: int| 0 <= k < keys@.len() ==> (#[trigger] keys@[k]).len() == n,
                idx < n,
                is_stable_sort(kv, asc@, idx as int, order@),
                pos <= order.len(),
                forall|j: int| 0 <= j < pos ==> sorted_before(kv, asc@, #[trigger] order@[j] as int, idx as int),
            decreases order.len() - pos,
        {
            // order[pos] < idx, so a tie also puts it first.
            pos = pos + 1;
        }
        proof {
            // Everything from `pos` on comes after `idx`.
            assert forall|j: int| pos <= j < order@.len() implies sorted_before(kv, asc@, idx as int, #[trigger] order@[j] as int) by {
                let e = order@[pos as int] as int;
                lemma_sorted_before_order(kv, asc@, idx as int, e, order@[j] as int);
                lemma_sorted_before_order(kv, asc@, e, idx as int, order@[j] as int);
                assert(!sorted_before(kv, asc@, e, idx as int));
                if j > pos {
                    assert(sorted_before(kv, asc@, e, order@[j] as int));
                }
            }
        }
        let ghost old_order = order@;
        order.insert(pos, idx);
        proof {
            let p = order@;
            assert(p == old_order.insert(pos as int, idx));
            assert forall|v: usize| v < idx + 1 implies #[trigger] p.contains(v) by {
                if v == idx {
                    assert(p[pos as int] == idx);
                } else {
                    assert(old_order.contains(v));
                    let j = choose|j: int| 0 <= j < old_order.len() && old_order[j] == v;
                    if j < pos {
                        assert(p[j] == v);
                    } else {
                        assert(p[j + 1] == v);
                    }
                }
            }
            assert forall|i: int, j: int| 0 <= i < j < idx + 1 implies sorted_before(kv, asc@, #[trigger] p[i] as int, #[trigger] p[j] as int) by {
                if i < pos && j < pos {
                    assert(p[i] == old_order[i] && p[j] == old_order[j]);
                } else if i < pos && j == pos {
                    assert(p[i] == old_order[i]);
                } else if i < pos {
                    assert(p[i] == old_order[i] && p[j] == old_order[j - 1]);
                } else if i == pos {
                    assert(p[j] == old_order[j - 1]);
                } else {
                    assert(p[i] == old_order[i - 1] && p[j] == old_order[j - 1]);
                }
            }
        }
        idx = idx + 1;
    }
    order
}


proof fn lemma_sort_prefix_equal(
    keys: Seq<Seq<SortKey>>,
    asc: Seq<bool>,
    n: int,
    p: Seq<usize>,
    q: Seq<usize>,
    k: int,
)
    requires
        0 <= k <= n,
        is_stable_sort(keys, asc, n, p),
        is_stable_sort(keys, asc, n, q),
    ensures
        forall|i: int| 0 <= i < k ==> p[i] == q[i],
    decreases k,
{
    if k > 0 {
        lemma_sort_prefix_equal(keys, asc, n, p, q, k - 1);
        let m = k - 1;
        let a = p[m];
        let b = q[m];
        if a != b {
            assert(q.contains(a));
            let j = choose|j: int| 0 <= j < q.len() && q[j] == a;
            assert(p.contains(b));
            let jp = choose|j: int| 0 <= j < p.len() && p[j] == b;
            lemma_sorted_before_order(keys, asc, a as int, b as int, a as int);
            lemma_sorted_before_order(keys, asc, a as int, a as int, a as int);
            lemma_sorted_before_order(keys, asc, b as int, b as int, b as int);
            if j < m {
                assert(q[j] == p[j]);
                assert(sorted_before(keys, asc, p[j] as int, p[m] as int));
            }
            if jp < m {
                assert(p[jp] == q[jp]);
                assert(sorted_before(keys, asc, q[jp] as int, q[m] as int));
            }
            assert(j > m);
            assert(jp > m);
            assert(sorted_before(keys, asc, q[m] as int, q[j] as int));
            assert(sorted_before(keys, asc, p[m] as int, p[jp] as int));
        }
    }
}

/// Two stable sorts of the same positions on the same keys are equal: the
/// order that `stable_sort_indices` returns is the only one.
pub proof fn law_stable_sort_is_unique(
    keys: Seq<Seq<SortKey>>,
    asc: Seq<bool>,
    n: int,
    p: Seq<usize>,
    q: Seq<usize>,
)
    requires
        is_stable_sort(keys, asc, n, p),
        is_stable_sort(keys, asc, n, q),
    ensures
        p == q,
{
    lemma_sort_prefix_equal(keys, asc, n, p, q, n);
    assert(p =~= q);
}


/// The rows of `g` in the order `p`.
pub open spec fn permute_rows<T>(g: Seq<Seq<T>>, p: Seq<usize>) -> Seq<Seq<T>> {
    Seq::new(p.len(), |i: int| g[p[i] as int])
}

/// The columns of `g` in the order `p` (every row reordered).
pub open spec fn permute_columns<T>(g: Seq<Seq<T>>, p: Seq<usize>) -> Seq<Seq<T>> {
    Seq::new(g.len(), |r: int| Seq::new(p.len(), |i: int| g[r][p[i] as int]))
}

/// `keys` has the shape of `data`: one key per cell.
pub open spec fn same_shape<T, K>(data: Seq<Seq<T>>, keys: Seq<Seq<K>>) -> bool {
    data.len() == keys.len() && forall|i: int| 0 <= i < data.len() ==> #[trigger] data[i].len() == keys[i].len()
}

/// The direction that a sort order argument selects, if valid (1 or -1).
pub open spec fn sort_direction(order: i32) -> Option<bool> {
    if order == 1 { Some(true) } else if order == -1 { Some(false) } else { None }
}

/// The error SORT reports, if any, for an array of `rows` by `cols`.
pub open spec fn sort_error(rows: int, cols: int, sort_index: i64, sort_order: i32, by_col: bool)
    -> Option<(Error, Seq<char>)>
{
    if rows == 0 || cols == 0 {
        None
    } else if sort_index < 1 {
        Some((Error::VALUE, "sort_index must be >= 1"@))
    } else if sort_direction(sort_order) is None {
        Some((Error::VALUE, "sort_order must be 1 or -1"@))
    } else if !by_col && sort_index > cols {
        Some((Error::VALUE, "sort_index exceeds array width"@))
    } else if by_col && sort_index > rows {
        Some((Error::VALUE, "sort_index exceeds array height"@))
    } else {
        None
    }
}

/// How many rows (or columns, by column) SORT reorders.
pub open spec fn sort_length<T>(g: Seq<Seq<T>>, by_col: bool) -> int {
    if by_col { width(g) } else { g.len() as int }
}

/// The key column (or key row, by column) that SORT sorts on.
pub open spec fn sort_keys(keys: Seq<Seq<SortKey>>, sort_index: int, by_col: bool) -> Seq<Seq<SortKey>> {
    if by_col {
        seq![keys[sort_index - 1].take(width(keys))]
    } else {
        seq![Seq::new(keys.len(), |r: int| keys[r][sort_index - 1])]
    }
}

/// `=SORT(array, [sort_index], [sort_order], [by_col])`
///
/// Returns the array sorted by the given column (or row when `by_col`);
/// `keys` holds the sort key of each cell of `data`. The sort is stable.
pub fn fn_sort<T: Copy>(
    data: &Vec<Vec<T>>,
    keys: &Vec<Vec<SortKey>>,
    sort_index: i64,
    sort_order: i32,
    by_col: bool,
) -> (r: Result<Vec<Vec<T>>, CalcError>)
    requires
        same_shape(grid(data@), grid(keys@)),
        rows_at_least(grid(data@), width(grid(data@))),
    ensures
        match r {
            Err(e) => sort_error(data@.len() as int, width(grid(data@)), sort_index, sort_order, by_col)
                == Some((e.error, e.message@)),
            Ok(g) => sort_error(data@.len() as int, width(grid(data@)), sort_index, sort_order, by_col) is None
                && if data@.len() == 0 || width(grid(data@)) == 0 {
                    grid(g@) == Seq::<Seq<T>>::empty()
                } else {
                    exists|p: Seq<usize>| {
                        &&& #[trigger] is_stable_sort(
                            sort_keys(grid(keys@), sort_index as int, by_col),
                            seq![sort_direction(sort_order).unwrap()],
                            sort_length(grid(data@), by_col),
                            p)
                        &&& grid(g@) == if by_col { permute_columns(grid(data@), p) } else { permute_rows(grid(data@), p) }
                    }
                },
        },
{
    let ghost g = grid(data@);
    let ghost kg = grid(keys@);
    if data.len() == 0 || data[0].len() == 0 {
        let empty: Vec<Vec<T>> = Vec::new();
        assert(grid(empty@) =~= Seq::<Seq<T>>::empty());
        return Ok(empty);
    }
    let num_rows = data.len();
    let num_cols = data[0].len();
    if sort_index < 1 {
        return Err(CalcError { error: Error::VALUE, message: String::from_str("sort_index must be >= 1") });
    }
    let ascending = if sort_order == 1 {
        true
    } else if sort_order == -1 {
        false
    } else {
        return Err(CalcError { error: Error::VALUE, message: String::from_str("sort_order must be 1 or -1") });
    };
    let mut asc: Vec<bool> = Vec::new();
    asc.push(ascending);
    if !by_col {
        if sort_index as u64 > num_cols as u64 {
            return Err(CalcError { error: Error::VALUE, message: String::from_str("sort_index exceeds array width") });
        }
        let key_col = (sort_index - 1) as usize;
        let mut column: Vec<SortKey> = Vec::new();
        let mut r: usize = 0;
        while r < num_rows
            invariant
                g == grid(data@),
                kg == grid(keys@),
                same_shape(g, kg),
                rows_at_least(g, width(g)),
                num_rows == data@.len(),
                num_cols as int == width(g),
                key_col < num_cols,
                r <= num_rows,
                column@ == Seq::new(r as nat, |i: int| kg[i][key_col as int]),
            decreases num_rows - r,
        {
            assert(kg[r as int] == keys@[r as int]@ && g[r as int] == data@[r as int]@);
            column.push(keys[r][key_col]);
            r = r + 1;
            assert(column@ =~= Seq::new(r as nat, |i: int| kg[i][key_col as int]));
        }
        let mut sort_on: Vec<Vec<SortKey>> = Vec::new();
        sort_on.push(column);
        assert(grid(sort_on@) =~= sort_keys(kg, sort_index as int, by_col));
        let order = stable_sort_indices(&sort_on, &asc, num_rows);
        assert(asc@ =~= seq![sort_direction(sort_order).unwrap()]);
        let mut out: Vec<Vec<T>> = Vec::new();
        let mut k: usize = 0;
        while k < order.len()
            invariant
                g == grid(data@),
                order@.len() == num_rows,
                num_rows == data@.len(),
                forall|i: int| 0 <= i < num_rows ==> #[trigger] order@[i] < num_rows,
                k <= order.len(),
                grid(out@) == permute_rows(g, order@).take(k as int),
            decreases order.len() - k,
        {
            let row = crate::grid::slice_row(&data[order[k]], 0, data[order[k]].len());
            assert(row@ =~= g[order@[k as int] as int]);
            proof { lemma_grid_push(out@, row); }
            out.push(row);
            k = k + 1;
            assert(grid(out@) =~= permute_rows(g, order@).take(k as int));
        }
        assert(permute_rows(g, order@).take(k as int) =~= permute_rows(g, order@));
        assert(is_stable_sort(sort_keys(kg, sort_index as int, by_col), seq![sort_direction(sort_order).unwrap()],
            sort_length(g, by_col), order@));
        Ok(out)
    } else {
        if sort_index as u64 > num_rows as u64 {
            return Err(CalcError { error: Error::VALUE, message: String::from_str("sort_index exceeds array height") });
        }
        let key_row = (sort_index - 1) as usize;
        let mut sort_on: Vec<Vec<SortKey>> = Vec::new();
        assert(kg[key_row as int] == keys@[key_row as int]@);
        assert(g[key_row as int].len() >= num_cols);
        assert(kg[key_row as int].len() >= num_cols);
        assert(kg[0] == keys@[0]@);
        sort_on.push(crate::grid::slice_row(&keys[key_row], 0, num_cols));
        assert(grid(sort_on@) =~= sort_keys(kg, sort_index as int, by_col));
        let order = stable_sort_indices(&sort_on, &asc, num_cols);
        assert(asc@ =~= seq![sort_direction(sort_order).unwrap()]);
        let ghost target = permute_columns(g, order@);
        let mut out: Vec<Vec<T>> = Vec::new();
        let mut r: usize = 0;
        while r < num_rows
            invariant
                g == grid(data@),
                target == permute_columns(g, order@),
                rows_at_least(g, width(g)),
                num_rows == data@.len(),
                num_cols as int == width(g),
                order@.len() == num_cols,
                forall|i: int| 0 <= i < num_cols ==> #[trigger] order@[i] < num_cols,
                r <= num_rows,
                grid(out@) == target.take(r as int),
            decreases num_rows - r,
        {
            assert(g[r as int] == data@[r as int]@);
            let mut row: Vec<T> = Vec::new();
            let mut k: usize = 0;
            while k < num_cols
                invariant
                    g == grid(data@),
                    target == permute_columns(g, order@),
                    rows_at_least(g, width(g)),
                    num_rows == data@.len(),
                    num_cols as int == width(g),
                    order@.len() == num_cols,
                    forall|i: int| 0 <= i < num_cols ==> #[trigger] order@[i] < num_cols,
                    r < num_rows,
                    g[r as int] == data@[r as int]@,
                    k <= num_cols,
                    row@ == target[r as int].take(k as int),
                decreases num_cols - k,
            {
                row.push(data[r][order[k]]);
                k = k + 1;
                assert(row@ =~= target[r as int].take(k as int));
            }
            assert(row@ =~= target[r as int]);
            proof { lemma_grid_push(out@, row); }
            out.push(row);
            r = r + 1;
            assert(grid(out@) =~= target.take(r as int));
        }
        assert(target.take(r as int) =~= target);
        assert(is_stable_sort(sort_keys(kg, sort_index as int, by_col), seq![sort_direction(sort_order).unwrap()],
            sort_length(g, by_col), order@));
        Ok(out)
    }
}


/// The mask that FILTER applies and whether it filters rows (else columns),
/// given the truth value of each cell of `selection`.
pub open spec fn filter_mask(rows: int, cols: int, selection: Seq<Seq<bool>>) -> Option<(Seq<bool>, bool)> {
    if selection.len() == rows && selection[0].len() == 1 {
        Some((Seq::new(selection.len(), |i: int| selection[i][0]), true))
    } else if selection.len() == 1 && selection[0].len() == rows {
        Some((selection[0], true))
    } else if selection.len() == 1 && selection[0].len() == cols {
        Some((selection[0], false))
    } else if selection.len() == cols && selection[0].len() == 1 {
        Some((Seq::new(selection.len(), |i: int| selection[i][0]), false))
    } else {
        None
    }
}

/// What FILTER gives for `data`, the truth values of `selection` and the value
/// to return when nothing passes (`None` when missing or empty): when no row
/// (or column) is selected, that value, else #CALC!.
pub open spec fn filter_spec<T>(data: Seq<Seq<T>>, selection: Seq<Seq<bool>>, if_empty: Option<T>)
    -> Result<Seq<Seq<T>>, (Error, Seq<char>)>
{
    if data.len() == 0 || data[0].len() == 0 {
        Ok(Seq::empty())
    } else {
        match filter_mask(data.len() as int, width(data), selection) {
            None => Err((Error::VALUE, "include array dimensions must match array rows or columns"@)),
            Some((mask, by_rows)) => {
                let pos = selected_positions(mask);
                if pos.len() == 0 {
                    match if_empty {
                        Some(v) => Ok(seq![seq![v]]),
                        None => Err((Error::CALC, "No data returned by FILTER"@)),
                    }
                } else if by_rows {
                    Ok(rows_at(data, pos))
                } else {
                    Ok(columns_at(data, pos))
                }
            },
        }
    }
}

/// The first value of every row.
fn first_of_rows(rows: &Vec<Vec<bool>>) -> (r: Vec<bool>)
    requires
        forall|i: int| 0 <= i < rows@.len() ==> (#[trigger] rows@[i]).len() >= 1,
    ensures
        r@ == Seq::new(rows@.len(), |i: int| grid(rows@)[i][0]),
{
    let mut out: Vec<bool> = Vec::new();
    let mut i: usize = 0;
    while i < rows.len()
        invariant
            forall|k: int| 0 <= k < rows@.len() ==> (#[trigger] rows@[k]).len() >= 1,
            i <= rows.len(),
            out@ == Seq::new(i as nat, |k: int| grid(rows@)[k][0]),
        decreases rows.len() - i,
    {
        out.push(rows[i][0]);
        i = i + 1;
        assert(out@ =~= Seq::new(i as nat, |k: int| grid(rows@)[k][0]));
    }
    out
}

/// `=FILTER(array, selection, [if_empty])`
///
/// Returns only the rows (or columns) of array where `selection` is true;
/// `selection` holds the truth value of each cell of the selection argument.
pub fn fn_filter<T: Copy>(data: &Vec<Vec<T>>, selection: &Vec<Vec<bool>>, if_empty: Option<T>)
    -> (r: Result<Vec<Vec<T>>, CalcError>)
    requires
        (selection@.len() == data@.len() || selection@.len() == width(grid(data@))) && selection@.len() > 0
            && selection@[0].len() == 1 ==> forall|i: int| 0 <= i < selection@.len() ==> (#[trigger] selection@[i]).len() >= 1,
        data@.len() > 0 && width(grid(data@)) > 0 && (filter_mask(data@.len() as int, width(grid(data@)), grid(selection@)) matches Some((_, false)))
            ==> rows_at_least(grid(data@), width(grid(data@))),
    ensures
        grid_result(r) == filter_spec(grid(data@), grid(selection@), if_empty),
{
    let ghost g = grid(data@);
    let ghost ig = grid(selection@);
    if data.len() == 0 || data[0].len() == 0 {
        let empty: Vec<Vec<T>> = Vec::new();
        assert(grid(empty@) =~= Seq::<Seq<T>>::empty());
        return Ok(empty);
    }
    let num_rows = data.len();
    let num_cols = data[0].len();
    assert(selection@.len() > 0 ==> ig[0] == selection@[0]@);
    let (mask, filter_rows) = if selection.len() == num_rows && selection[0].len() == 1 {
        (first_of_rows(selection), true)
    } else if selection.len() == 1 && selection[0].len() == num_rows {
        (crate::grid::slice_row(&selection[0], 0, selection[0].len()), true)
    } else if selection.len() == 1 && selection[0].len() == num_cols {
        (crate::grid::slice_row(&selection[0], 0, selection[0].len()), false)
    } else if selection.len() == num_cols && selection[0].len() == 1 {
        (first_of_rows(selection), false)
    } else {
        return Err(CalcError {
            error: Error::VALUE,
            message: String::from_str("include array dimensions must match array rows or columns"),
        });
    };
    assert(filter_mask(num_rows as int, num_cols as int, ig) == Some((mask@, filter_rows)));
    let pos = positions_of(&mask);
    assert(pos@.map_values(|p: usize| p as int) =~= selected_positions(mask@));
    if pos.len() == 0 {
        match if_empty {
            Some(v) => {
                let mut row: Vec<T> = Vec::new();
                row.push(v);
                let mut out: Vec<Vec<T>> = Vec::new();
                proof { lemma_grid_push(out@, row); }
                out.push(row);
                assert(grid(out@) =~= seq![seq![v]]);
                Ok(out)
            },
            None => Err(CalcError { error: Error::CALC, message: String::from_str("No data returned by FILTER") }),
        }
    } else if filter_rows {
        Ok(select_rows(data, &pos))
    } else {
        Ok(select_columns(data, &pos, num_cols))
    }
}


/// An equality-normalised representation of a cell value, as UNIQUE
/// compares them: the bits of a number, a boolean, an identifier of the
/// upper-cased text (equal texts share it), the kind of an error, or empty.
#[derive(Clone, Copy, Debug, PartialEq, Eq, Structural)]
pub enum CellKey {
    Number(u64),
    Boolean(bool),
    Str(u64),
    Error(u8),
    Empty,
}

/// The discriminant of an error value used in cell keys.
pub fn error_discriminant(e: Error) -> (r: u8)
    ensures
        r == match e {
            Error::REF => 0u8,
            Error::NAME => 1u8,
            Error::VALUE => 2u8,
            Error::DIV => 3u8,
            Error::NA => 4u8,
            Error::NUM => 5u8,
            Error::ERROR => 6u8,
            Error::NIMPL => 7u8,
            Error::SPILL => 8u8,
            Error::CALC => 9u8,
            Error::CIRC => 10u8,
            Error::NULL => 11u8,
        },
{
    match e {
        Error::REF => 0,
        Error::NAME => 1,
        Error::VALUE => 2,
        Error::DIV => 3,
        Error::NA => 4,
        Error::NUM => 5,
        Error::ERROR => 6,
        Error::NIMPL => 7,
        Error::SPILL => 8,
        Error::CALC => 9,
        Error::CIRC => 10,
        Error::NULL => 11,
    }
}

/// Whether UNIQUE keeps entry `i` of `entries`: when it occurs exactly once
/// (`exactly_once`), or when no earlier entry equals it.
pub open spec fn unique_kept(entries: Seq<Seq<CellKey>>, i: int, exactly_once: bool) -> bool {
    if exactly_once {
        !exists|j: int| 0 <= j < entries.len() && j != i && #[trigger] entries[j] == entries[i]
    } else {
        !exists|j: int| 0 <= j < i && #[trigger] entries[j] == entries[i]
    }
}

/// UNIQUE keeps one of each entry: no two kept entries are equal, and every
/// entry equals a kept one at or before it (its first occurrence).
pub proof fn law_unique_keeps_one_of_each(entries: Seq<Seq<CellKey>>, i: int)
    requires
        0 <= i < entries.len(),
    ensures
        forall|j: int, k: int| 0 <= j < k < entries.len() && #[trigger] unique_kept(entries, j, false)
            && #[trigger] unique_kept(entries, k, false) ==> entries[j] != entries[k],
        exists|j: int| 0 <= j <= i && #[trigger] unique_kept(entries, j, false) && entries[j] == entries[i],
    decreases i,
{
    if !unique_kept(entries, i, false) {
        let j = choose|j: int| 0 <= j < i && #[trigger] entries[j] == entries[i];
        law_unique_keeps_one_of_each(entries, j);
        let k = choose|k: int| 0 <= k <= j && #[trigger] unique_kept(entries, k, false) && entries[k] == entries[j];
        assert(0 <= k <= i && unique_kept(entries, k, false) && entries[k] == entries[i]);
    }
}

/// With `exactly_once`, UNIQUE keeps just the entries that occur once.
pub proof fn law_unique_exactly_once_keeps_single_entries(entries: Seq<Seq<CellKey>>, i: int)
    requires
        0 <= i < entries.len(),
    ensures
        unique_kept(entries, i, true) <==> (forall|j: int| 0 <= j < entries.len() && entries[j] == entries[i] ==> j == i),
{
}

/// The entries that UNIQUE keeps, as a mask.
pub open spec fn unique_mask(entries: Seq<Seq<CellKey>>, exactly_once: bool) -> Seq<bool> {
    Seq::new(entries.len(), |i: int| unique_kept(entries, i, exactly_once))
}

/// What UNIQUE gives for `data`, whose cells have the keys `keys`.
pub open spec fn unique_spec<T>(data: Seq<Seq<T>>, keys: Seq<Seq<CellKey>>, by_col: bool, exactly_once: bool)
    -> Result<Seq<Seq<T>>, (Error, Seq<char>)>
{
    if data.len() == 0 || data[0].len() == 0 {
        Ok(Seq::empty())
    } else if !by_col {
        let pos = selected_positions(unique_mask(keys, exactly_once));
        if pos.len() == 0 {
            Err((Error::CALC, "UNIQUE found no matching rows"@))
        } else {
            Ok(rows_at(data, pos))
        }
    } else {
        let pos = selected_positions(unique_mask(transpose_spec(keys), exactly_once));
        if pos.len() == 0 {
            Err((Error::CALC, "UNIQUE found no matching columns"@))
        } else {
            Ok(columns_at(data, pos))
        }
    }
}

fn keys_equal(a: &Vec<CellKey>, b: &Vec<CellKey>) -> (r: bool)
    ensures
        r == (a@ == b@),
{
    if a.len() != b.len() {
        return false;
    }
    let mut k: usize = 0;
    while k < a.len()
        invariant
            a@.len() == b@.len(),
            k <= a.len(),
            forall|j: int| 0 <= j < k ==> a@[j] == b@[j],
        decreases a.len() - k,
    {
        if a[k] != b[k] {
            return false;
        }
        k = k + 1;
    }
    assert(a@ =~= b@);
    true
}

/// Which entries UNIQUE keeps.
fn unique_entries_mask(entries: &Vec<Vec<CellKey>>, exactly_once: bool) -> (r: Vec<bool>)
    ensures
        r@ == unique_mask(grid(entries@), exactly_once),
{
    let ghost e = grid(entries@);
    let mut out: Vec<bool> = Vec::new();
    let mut i: usize = 0;
    while i < entries.len()
        invariant
            e == grid(entries@),
            i <= entries.len(),
            out@ == unique_mask(e, exactly_once).take(i as int),
        decreases entries.len() - i,
    {
        let end = if exactly_once { entries.len() } else { i };
        let mut found = false;
        let mut j: usize = 0;
        while j < end
            invariant
                e == grid(entries@),
                i < entries.len(),
                end as int == (if exactly_once { entries@.len() as int } else { i as int }),
                j <= end,
                found == exists|j2: int| 0 <= j2 < j && j2 != i && #[trigger] e[j2] == e[i as int],
            decreases end - j,
        {
            if j != i && keys_equal(&entries[j], &entries[i]) {
                assert(e[j as int] == e[i as int]);
                found = true;
            }
            proof {
                if !(j != i && entries@[j as int]@ == entries@[i as int]@) {
                    assert(!(j != i && e[j as int] == e[i as int]));
                }
            }
            j = j + 1;
        }
        out.push(!found);
        i = i + 1;
        assert(out@ =~= unique_mask(e, exactly_once).take(i as int));
    }
    assert(unique_mask(e, exactly_once).take(i as int) =~= unique_mask(e, exactly_once));
    out
}

/// `=UNIQUE(array, [by_col], [exactly_once])`
///
/// Returns the distinct rows (or columns) of array, or with `exactly_once`
/// those that occur only once; `keys` holds the key of each cell.
pub fn fn_unique<T: Copy>(data: &Vec<Vec<T>>, keys: &Vec<Vec<CellKey>>, by_col: bool, exactly_once: bool)
    -> (r: Result<Vec<Vec<T>>, CalcError>)
    requires
        same_shape(grid(data@), grid(keys@)),
        by_col ==> rows_at_least(grid(data@), width(grid(data@))),
    ensures
        grid_result(r) == unique_spec(grid(data@), grid(keys@), by_col, exactly_once),
{
    let ghost g = grid(data@);
    let ghost kg = grid(keys@);
    if data.len() == 0 || data[0].len() == 0 {
        let empty: Vec<Vec<T>> = Vec::new();
        assert(grid(empty@) =~= Seq::<Seq<T>>::empty());
        return Ok(empty);
    }
    if !by_col {
        let mask = unique_entries_mask(keys, exactly_once);
        let pos = positions_of(&mask);
        assert(pos@.map_values(|p: usize| p as int) =~= selected_positions(mask@));
        if pos.len() == 0 {
            return Err(CalcError { error: Error::CALC, message: String::from_str("UNIQUE found no matching rows") });
        }
        Ok(select_rows(data, &pos))
    } else {
        let num_cols = data[0].len();
        assert(g[0] == data@[0]@ && kg[0] == keys@[0]@);
        assert(crate::grid::rows_at_least(kg, width(kg))) by {
            assert forall|i: int| 0 <= i < kg.len() implies #[trigger] kg[i].len() >= width(kg) by {
                assert(g[i].len() == kg[i].len());
            }
        }
        let columns = fn_transpose(keys);
        let mask = unique_entries_mask(&columns, exactly_once);
        let pos = positions_of(&mask);
        assert(pos@.map_values(|p: usize| p as int) =~= selected_positions(mask@));
        if pos.len() == 0 {
            return Err(CalcError { error: Error::CALC, message: String::from_str("UNIQUE found no matching columns") });
        }
        Ok(select_columns(data, &pos, num_cols))
    }
}

/// The key column that SORTBY reads from a by-array, for an array of `n`
/// rows: a column of `n`, a row of `n`, or the first column of an array of
/// `n` rows.
pub open spec fn key_column<T>(data: Seq<Seq<T>>, n: int) -> Option<Seq<T>> {
    if data.len() == 0 {
        None
    } else if data.len() == n && data[0].len() == 1 {
        Some(Seq::new(n as nat, |i: int| data[i][0]))
    } else if data.len() == 1 && data[0].len() == n {
        Some(data[0])
    } else if data.len() == n {
        Some(Seq::new(n as nat, |i: int| data[i][0]))
    } else {
        None
    }
}

/// Extract a 1-D column key from a 2-D by_array.
/// Accepts column vectors (N×1), row vectors (1×N), or the first column of a
/// multi-column array.
pub fn extract_key_column<T: Copy>(data: &Vec<Vec<T>>, expected_len: usize) -> (r: Option<Vec<T>>)
    requires
        data@.len() == expected_len ==> forall|i: int| 0 <= i < data@.len() ==> (#[trigger] data@[i]).len() >= 1,
    ensures
        match r {
            Some(v) => key_column(grid(data@), expected_len as int) == Some(v@),
            None => key_column(grid(data@), expected_len as int) is None,
        },
{
    let ghost g = grid(data@);
    if data.len() == 0 {
        return None;
    }
    assert(g[0] == data@[0]@);
    if data.len() == expected_len {
        let mut out: Vec<T> = Vec::new();
        let mut i: usize = 0;
        while i < data.len()
            invariant
                g == grid(data@),
                data@.len() == expected_len,
                forall|k: int| 0 <= k < data@.len() ==> (#[trigger] data@[k]).len() >= 1,
                i <= data.len(),
                out@ == Seq::new(i as nat, |k: int| g[k][0]),
            decreases data.len() - i,
        {
            assert(g[i as int] == data@[i as int]@);
            out.push(data[i][0]);
            i = i + 1;
            assert(out@ =~= Seq::new(i as nat, |k: int| g[k][0]));
        }
        Some(out)
    } else if data.len() == 1 && data[0].len() == expected_len {
        Some(crate::grid::slice_row(&data[0], 0, data[0].len()))
    } else {
        None
    }
}

/// One sort key of SORTBY: the by-array's cell keys and the optional sort
/// order argument (ascending when missing).
pub struct SortByKey {
    pub by_array: Vec<Vec<SortKey>>,
    pub order: Option<i32>,
}

/// The direction of a SORTBY key, if its order argument is valid.
pub open spec fn sortby_direction(order: Option<i32>) -> Option<bool> {
    match order {
        None => Some(true),
        Some(o) => sort_direction(o),
    }
}

/// The first error among the SORTBY keys from the `k`-th on, if any.
pub open spec fn sortby_error(by: Seq<SortByKey>, n: int, k: int) -> Option<(Error, Seq<char>)>
    decreases by.len() - k,
{
    if k < 0 || k >= by.len() {
        None
    } else if key_column(grid(by[k].by_array@), n) is None {
        if k == 0 {
            Some((Error::VALUE, "by_array1 must have the same number of rows as array"@))
        } else {
            Some((Error::VALUE, "by_array must have the same number of rows as array"@))
        }
    } else if sortby_direction(by[k].order) is None {
        Some((Error::VALUE, "sort_order must be 1 or -1"@))
    } else {
        sortby_error(by, n, k + 1)
    }
}

/// The key columns of SORTBY.
pub open spec fn sortby_keys(by: Seq<SortByKey>, n: int) -> Seq<Seq<SortKey>> {
    Seq::new(by.len(), |k: int| key_column(grid(by[k].by_array@), n).unwrap())
}

/// The directions of SORTBY's keys.
pub open spec fn sortby_directions(by: Seq<SortByKey>) -> Seq<bool> {
    Seq::new(by.len(), |k: int| sortby_direction(by[k].order).unwrap())
}

/// `=SORTBY(array, by_array1, [sort_order1], [by_array2, sort_order2], ...)`
///
/// Sorts the rows of array on one or more key arrays (stable, first key
/// first).
pub fn fn_sortby<T: Copy>(data: &Vec<Vec<T>>, by: &Vec<SortByKey>) -> (r: Result<Vec<Vec<T>>, CalcError>)
    requires
        forall|k: int| 0 <= k < by@.len() ==> #[trigger] by@[k].by_array@.len() == data@.len()
            ==> forall|i: int| 0 <= i < data@.len() ==> (#[trigger] by@[k].by_array@[i]).len() >= 1,
    ensures
        match r {
            Err(e) => data@.len() > 0 && width(grid(data@)) > 0
                && sortby_error(by@, data@.len() as int, 0) == Some((e.error, e.message@)),
            Ok(g) => if data@.len() == 0 || width(grid(data@)) == 0 {
                grid(g@) == Seq::<Seq<T>>::empty()
            } else {
                sortby_error(by@, data@.len() as int, 0) is None
                && exists|p: Seq<usize>| {
                    &&& #[trigger] is_stable_sort(sortby_keys(by@, data@.len() as int),
                        sortby_directions(by@), data@.len() as int, p)
                    &&& grid(g@) == permute_rows(grid(data@), p)
                }
            },
        },
{
    let ghost g = grid(data@);
    if data.len() == 0 || data[0].len() == 0 {
        let empty: Vec<Vec<T>> = Vec::new();
        assert(grid(empty@) =~= Seq::<Seq<T>>::empty());
        return Ok(empty);
    }
    let num_rows = data.len();
    let mut columns: Vec<Vec<SortKey>> = Vec::new();
    let mut asc: Vec<bool> = Vec::new();
    let mut k: usize = 0;
    while k < by.len()
        invariant
            num_rows == data@.len(),
            num_rows > 0,
            width(grid(data@)) > 0,
            forall|k2: int| 0 <= k2 < by@.len() ==> #[trigger] by@[k2].by_array@.len() == data@.len()
                ==> forall|i: int| 0 <= i < data@.len() ==> (#[trigger] by@[k2].by_array@[i]).len() >= 1,
            k <= by.len(),
            sortby_error(by@, num_rows as int, 0) == sortby_error(by@, num_rows as int, k as int),
            grid(columns@) == sortby_keys(by@, num_rows as int).take(k as int),
            asc@ == sortby_directions(by@).take(k as int),
            forall|k2: int| 0 <= k2 < k ==> key_column(grid(by@[k2].by_array@), num_rows as int) is Some
                && sortby_direction(by@[k2].order) is Some,
        decreases by.len() - k,
    {
        let column = match extract_key_column(&by[k].by_array, num_rows) {
            Some(c) => c,
            None => {
                if k == 0 {
                    return Err(CalcError {
                        error: Error::VALUE,
                        message: String::from_str("by_array1 must have the same number of rows as array"),
                    });
                } else {
                    return Err(CalcError {
                        error: Error::VALUE,
                        message: String::from_str("by_array must have the same number of rows as array"),
                    });
                }
            },
        };
        let ascending = match by[k].order {
            None => true,
            Some(o) => {
                if o == 1 {
                    true
                } else if o == -1 {
                    false
                } else {
                    return Err(CalcError { error: Error::VALUE, message: String::from_str("sort_order must be 1 or -1") });
                }
            },
        };
        proof { lemma_grid_push(columns@, column); }
        columns.push(column);
        asc.push(ascending);
        k = k + 1;
        assert(grid(columns@) =~= sortby_keys(by@, num_rows as int).take(k as int));
        assert(asc@ =~= sortby_directions(by@).take(k as int));
    }
    assert(sortby_keys(by@, num_rows as int).take(k as int) =~= sortby_keys(by@, num_rows as int));
    assert(sortby_directions(by@).take(k as int) =~= sortby_directions(by@));
    proof {
        assert forall|k2: int| 0 <= k2 < columns@.len() implies (#[trigger] columns@[k2]).len() == num_rows by {
            assert(grid(columns@)[k2] == columns@[k2]@);
        }
    }
    let order = stable_sort_indices(&columns, &asc, num_rows);
    let mut out: Vec<Vec<T>> = Vec::new();
    let mut i: usize = 0;
    while i < order.len()
        invariant
            g == grid(data@),
            order@.len() == num_rows,
            num_rows == data@.len(),
            forall|j: int| 0 <= j < num_rows ==> #[trigger] order@[j] < num_rows,
            i <= order.len(),
            grid(out@) == permute_rows(g, order@).take(i as int),
        decreases order.len() - i,
    {
        let row = crate::grid::slice_row(&data[order[i]], 0, data[order[i]].len());
        assert(row@ =~= g[order@[i as int] as int]);
        proof { lemma_grid_push(out@, row); }
        out.push(row);
        i = i + 1;
        assert(grid(out@) =~= permute_rows(g, order@).take(i as int));
    }
    assert(permute_rows(g, order@).take(i as int) =~= permute_rows(g, order@));
    assert(is_stable_sort(sortby_keys(by@, num_rows as int), sortby_directions(by@), num_rows as int, order@));
    Ok(out)
}

} // verus!
