//! Two-dimensional arrays of cell values: their views and the slicing
//! helpers that the array functions share.
use vstd::prelude::*;
use crate::types::{CalcError, Error};

verus! {

/// The rows of an array, each as a sequence.
pub open spec fn grid<T>(g: Seq<Vec<T>>) -> Seq<Seq<T>> {
    g.map_values(|r: Vec<T>| r@)
}

/// The number of columns of an array: the length of its first row.
pub open spec fn width<T>(g: Seq<Seq<T>>) -> int {
    if g.len() > 0 { g[0].len() as int } else { 0 }
}

/// Every row has at least `w` elements.
pub open spec fn rows_at_least<T>(g: Seq<Seq<T>>, w: int) -> bool {
    forall|i: int| 0 <= i < g.len() ==> #[trigger] g[i].len() >= w
}

/// Every row has exactly `w` elements.
pub open spec fn rectangular<T>(g: Seq<Seq<T>>, w: int) -> bool {
    forall|i: int| 0 <= i < g.len() ==> #[trigger] g[i].len() == w
}

/// Rows `r0..r1` of `g`, each cut to columns `c0..c1`.
pub open spec fn sub_grid<T>(g: Seq<Seq<T>>, r0: int, r1: int, c0: int, c1: int) -> Seq<Seq<T>> {
    Seq::new((r1 - r0) as nat, |i: int| g[r0 + i].subrange(c0, c1))
}

/// The view of a function result that is an array or an error.
pub open spec fn grid_result<T>(r: Result<Vec<Vec<T>>, CalcError>) -> Result<Seq<Seq<T>>, (Error, Seq<char>)> {
    match r {
        Ok(g) => Ok(grid(g@)),
        Err(e) => Err((e.error, e.message@)),
    }
}

/// Appending a row appends its view.
pub proof fn lemma_grid_push<T>(rows: Seq<Vec<T>>, row: Vec<T>)
    ensures
        grid(rows.push(row)) == grid(rows).push(row@),
{
    assert(grid(rows.push(row)) =~= grid(rows).push(row@));
}

/// A copy of `row[c0..c1]`.
pub fn slice_row<T: Copy>(row: &Vec<T>, c0: usize, c1: usize) -> (r: Vec<T>)
    requires
        c0 <= c1 <= row.len(),
    ensures
        r@ == row@.subrange(c0 as int, c1 as int),
{
    let mut out: Vec<T> = Vec::new();
    let mut c = c0;
    while c < c1
        invariant
            c0 <= c <= c1 <= row.len(),
            out@ == row@.subrange(c0 as int, c as int),
        decreases c1 - c,
    {
        out.push(row[c]);
        c = c + 1;
        assert(out@ =~= row@.subrange(c0 as int, c as int));
    }
    out
}

/// A copy of rows `r0..r1` of `data`, each cut to columns `c0..c1`.
pub fn slice_grid<T: Copy>(data: &Vec<Vec<T>>, r0: usize, r1: usize, c0: usize, c1: usize) -> (r: Vec<Vec<T>>)
    requires
        r0 <= r1 <= data.len(),
        c0 <= c1,
        forall|i: int| r0 <= i < r1 ==> c1 <= (#[trigger] data@[i]).len(),
    ensures
        grid(r@) == sub_grid(grid(data@), r0 as int, r1 as int, c0 as int, c1 as int),
{
    let mut out: Vec<Vec<T>> = Vec::new();
    let mut r = r0;
    while r < r1
        invariant
            r0 <= r <= r1 <= data.len(),
            c0 <= c1,
            forall|i: int| r0 <= i < r1 ==> c1 <= (#[trigger] data@[i]).len(),
            grid(out@) == sub_grid(grid(data@), r0 as int, r as int, c0 as int, c1 as int),
        decreases r1 - r,
    {
        let row = slice_row(&data[r], c0, c1);
        let ghost before = out@;
        out.push(row);
        r = r + 1;
        proof {
            let target = sub_grid(grid(data@), r0 as int, r as int, c0 as int, c1 as int);
            assert(grid(before) == sub_grid(grid(data@), r0 as int, r - 1, c0 as int, c1 as int));
            assert forall|i: int| 0 <= i < grid(out@).len() implies grid(out@)[i] == target[i] by {
                if i < before.len() {
                    assert(out@[i] == before[i]);
                    assert(grid(before)[i] == before[i]@);
                } else {
                    assert(out@[i] == row);
                }
            }
            assert(grid(out@) =~= target);
        }
    }
    out
}

/// The magnitude of an integer.
pub fn magnitude(n: i64) -> (r: u64)
    ensures
        r as int == (if n < 0 { -(n as int) } else { n as int }),
{
    if n >= 0 {
        n as u64
    } else if n == i64::MIN {
        9_223_372_036_854_775_808u64
    } else {
        (-n) as u64
    }
}

/// The smaller of the magnitude of `n` and `len`.
pub fn magnitude_at_most(n: i64, len: usize) -> (r: usize)
    ensures
        r as int == (if n < 0 { -(n as int) } else { n as int }) || r == len,
        r <= len,
        r as int == vstd::math::min(if n < 0 { -(n as int) } else { n as int }, len as int),
{
    let m = magnitude(n);
    if m < len as u64 {
        m as usize
    } else {
        len
    }
}

/// A copy of `row` padded with `pad` up to `len` elements.
pub fn padded_row<T: Copy>(row: &Vec<T>, len: usize, pad: T) -> (r: Vec<T>)
    ensures
        r@ == (if row.len() >= len { row@ } else { row@ + Seq::new((len - row.len()) as nat, |i: int| pad) }),
{
    let mut out: Vec<T> = Vec::new();
    let mut k: usize = 0;
    while k < row.len()
        invariant
            k <= row.len(),
            out@ == row@.take(k as int),
        decreases row.len() - k,
    {
        out.push(row[k]);
        k = k + 1;
        assert(out@ =~= row@.take(k as int));
    }
    assert(row@.take(k as int) =~= row@);
    let ghost base = out@;
    while out.len() < len
        invariant
            base == row@,
            out.len() >= row.len(),
            out.len() <= (if len > row.len() { len } else { row.len() }),
            out@ == base + Seq::new((out.len() - row.len()) as nat, |i: int| pad),
        decreases len - out.len(),
    {
        out.push(pad);
        assert(out@ =~= base + Seq::new((out.len() - row.len()) as nat, |i: int| pad));
    }
    if row.len() >= len {
        assert(out@ =~= row@);
    } else {
        assert(out@ =~= row@ + Seq::new((len - row.len()) as nat, |i: int| pad));
    }
    out
}


/// The positions where `mask` holds, in order.
pub open spec fn selected_positions(mask: Seq<bool>) -> Seq<int>
    decreases mask.len(),
{
    if mask.len() == 0 {
        Seq::empty()
    } else if mask.last() {
        selected_positions(mask.drop_last()).push(mask.len() - 1)
    } else {
        selected_positions(mask.drop_last())
    }
}

/// Every selected position is a position of the mask, and the selected
/// positions increase.
pub proof fn lemma_selected_positions_bounds(mask: Seq<bool>)
    ensures
        forall|k: int| 0 <= k < selected_positions(mask).len()
            ==> 0 <= #[trigger] selected_positions(mask)[k] < mask.len(),
    decreases mask.len(),
{
    if mask.len() > 0 {
        lemma_selected_positions_bounds(mask.drop_last());
        let prev = selected_positions(mask.drop_last());
        assert forall|k: int| 0 <= k < selected_positions(mask).len()
            implies 0 <= #[trigger] selected_positions(mask)[k] < mask.len() by {
            if k < prev.len() {
                assert(selected_positions(mask)[k] == prev[k]);
            }
        }
    }
}

/// The positions where `mask` holds.
pub fn positions_of(mask: &Vec<bool>) -> (r: Vec<usize>)
    ensures
        r@.len() == selected_positions(mask@).len(),
        forall|k: int| 0 <= k < r@.len() ==> #[trigger] r@[k] as int == selected_positions(mask@)[k],
        forall|k: int| 0 <= k < r@.len() ==> #[trigger] r@[k] < mask@.len(),
{
    let mut out: Vec<usize> = Vec::new();
    let mut i: usize = 0;
    while i < mask.len()
        invariant
            i <= mask.len(),
            out@.len() == selected_positions(mask@.take(i as int)).len(),
            forall|k: int| 0 <= k < out@.len() ==> #[trigger] out@[k] as int == selected_positions(mask@.take(i as int))[k],
            forall|k: int| 0 <= k < out@.len() ==> #[trigger] out@[k] < i,
        decreases mask.len() - i,
    {
        proof {
            assert(mask@.take(i + 1).drop_last() =~= mask@.take(i as int));
            lemma_selected_positions_bounds(mask@.take(i as int));
        }
        if mask[i] {
            out.push(i);
        }
        i = i + 1;
    }
    assert(mask@.take(i as int) =~= mask@);
    out
}

/// The rows of `g` at the positions `pos`.
pub open spec fn rows_at<T>(g: Seq<Seq<T>>, pos: Seq<int>) -> Seq<Seq<T>> {
    Seq::new(pos.len(), |k: int| g[pos[k]])
}

/// Every row of `g`, cut to the columns at the positions `pos`.
pub open spec fn columns_at<T>(g: Seq<Seq<T>>, pos: Seq<int>) -> Seq<Seq<T>> {
    Seq::new(g.len(), |r: int| Seq::new(pos.len(), |k: int| g[r][pos[k]]))
}

/// Copies of the rows of `data` at the positions `pos`.
pub fn select_rows<T: Copy>(data: &Vec<Vec<T>>, pos: &Vec<usize>) -> (r: Vec<Vec<T>>)
    requires
        forall|k: int| 0 <= k < pos@.len() ==> #[trigger] pos@[k] < data@.len(),
    ensures
        grid(r@) == rows_at(grid(data@), pos@.map_values(|p: usize| p as int)),
{
    let ghost target = rows_at(grid(data@), pos@.map_values(|p: usize| p as int));
    let mut out: Vec<Vec<T>> = Vec::new();
    let mut k: usize = 0;
    while k < pos.len()
        invariant
            target == rows_at(grid(data@), pos@.map_values(|p: usize| p as int)),
            forall|k2: int| 0 <= k2 < pos@.len() ==> #[trigger] pos@[k2] < data@.len(),
            k <= pos.len(),
            grid(out@) == target.take(k as int),
        decreases pos.len() - k,
    {
        let row = slice_row(&data[pos[k]], 0, data[pos[k]].len());
        assert(row@ =~= target[k as int]);
        proof { lemma_grid_push(out@, row); }
        out.push(row);
        k = k + 1;
        assert(grid(out@) =~= target.take(k as int));
    }
    assert(target.take(k as int) =~= target);
    out
}

/// Copies of the rows of `data`, each cut to the columns at `pos`.
pub fn select_columns<T: Copy>(data: &Vec<Vec<T>>, pos: &Vec<usize>, w: usize) -> (r: Vec<Vec<T>>)
    requires
        rows_at_least(grid(data@), w as int),
        forall|k: int| 0 <= k < pos@.len() ==> #[trigger] pos@[k] < w,
    ensures
        grid(r@) == columns_at(grid(data@), pos@.map_values(|p: usize| p as int)),
{
    let ghost g = grid(data@);
    let ghost target = columns_at(g, pos@.map_values(|p: usize| p as int));
    let mut out: Vec<Vec<T>> = Vec::new();
    let mut r: usize = 0;
    while r < data.len()
        invariant
            g == grid(data@),
            target == columns_at(g, pos@.map_values(|p: usize| p as int)),
            rows_at_least(g, w as int),
            forall|k: int| 0 <= k < pos@.len() ==> #[trigger] pos@[k] < w,
            r <= data.len(),
            grid(out@) == target.take(r as int),
        decreases data.len() - r,
    {
        assert(g[r as int] == data@[r as int]@);
        let mut row: Vec<T> = Vec::new();
        let mut k: usize = 0;
        while k < pos.len()
            invariant
                g == grid(data@),
                target == columns_at(g, pos@.map_values(|p: usize| p as int)),
                rows_at_least(g, w as int),
                forall|k2: int| 0 <= k2 < pos@.len() ==> #[trigger] pos@[k2] < w,
                r < data.len(),
                g[r as int] == data@[r as int]@,
                k <= pos.len(),
                row@ == target[r as int].take(k as int),
            decreases pos.len() - k,
        {
            row.push(data[r][pos[k]]);
            k = k + 1;
            assert(row@ =~= target[r as int].take(k as int));
        }
        assert(row@ =~= target[r as int]);
        proof { lemma_grid_push(out@, row); }
        out.push(row);
        r = r + 1;
        assert(grid(out@) =~= target.take(r as int));
    }
    assert(target.take(r as int) =~= target);
    out
}

} // verus!
