//! EXPAND: an array padded to larger dimensions.
use vstd::prelude::*;
use vstd::string::*;
use crate::grid::{grid, grid_result, lemma_grid_push, width};
use crate::lookup_and_reference::drop_take::take_spec;
use crate::types::{CalcError, Error};

verus! {

/// The element at `(r, c)` of `g`, or `pad` outside of it.
pub open spec fn element_or<T>(g: Seq<Seq<T>>, r: int, c: int, pad: T) -> T {
    if 0 <= r < g.len() && 0 <= c < g[r].len() { g[r][c] } else { pad }
}

/// What EXPAND gives for `data`, the target size and the padding value.
pub open spec fn expand_spec<T>(data: Seq<Seq<T>>, rows: int, cols: Option<int>, pad: T)
    -> Result<Seq<Seq<T>>, (Error, Seq<char>)>
{
    let target_cols = match cols { Some(c) => c, None => width(data) };
    if rows < data.len() {
        Err((Error::VALUE, "rows must be >= array row count"@))
    } else if target_cols < width(data) {
        Err((Error::VALUE, "columns must be >= array column count"@))
    } else {
        Ok(Seq::new(rows as nat, |r: int| Seq::new(target_cols as nat, |c: int| element_or(data, r, c, pad))))
    }
}

/// `=EXPAND(array, rows, [columns], [pad_with])`
///
/// Expands or pads an array to the specified dimensions; new cells hold
/// `pad` (the caller passes #N/A when `pad_with` is missing).
pub fn fn_expand<T: Copy>(data: &Vec<Vec<T>>, rows: usize, cols: Option<usize>, pad: T)
    -> (r: Result<Vec<Vec<T>>, CalcError>)
    ensures
        grid_result(r) == expand_spec(grid(data@), rows as int,
            match cols { Some(c) => Some(c as int), None => None }, pad),
{
    let ghost g = grid(data@);
    let src_rows = data.len();
    let src_cols = if data.len() > 0 { data[0].len() } else { 0 };
    let target_cols = match cols { Some(c) => c, None => src_cols };
    if rows < src_rows {
        return Err(CalcError { error: Error::VALUE, message: String::from_str("rows must be >= array row count") });
    }
    if target_cols < src_cols {
        return Err(CalcError {
            error: Error::VALUE,
            message: String::from_str("columns must be >= array column count"),
        });
    }
    let ghost target = Seq::new(rows as nat, |r: int| Seq::new(target_cols as nat, |c: int| element_or(g, r, c, pad)));
    let mut out: Vec<Vec<T>> = Vec::new();
    let mut r: usize = 0;
    while r < rows
        invariant
            g == grid(data@),
            target == Seq::new(rows as nat, |r: int| Seq::new(target_cols as nat, |c: int| element_or(g, r, c, pad))),
            r <= rows,
            grid(out@) == target.take(r as int),
        decreases rows - r,
    {
        let mut row: Vec<T> = Vec::new();
        let mut c: usize = 0;
        while c < target_cols
            invariant
                g == grid(data@),
                target == Seq::new(rows as nat, |r: int| Seq::new(target_cols as nat, |c: int| element_or(g, r, c, pad))),
                r < rows,
                c <= target_cols,
                row@ == target[r as int].take(c as int),
            decreases target_cols - c,
        {
            let v = if r < data.len() && c < data[r].len() { data[r][c] } else { pad };
            assert(r < data@.len() ==> g[r as int] == data@[r as int]@);
            row.push(v);
            c = c + 1;
            assert(row@ =~= target[r as int].take(c as int));
        }
        assert(row@ =~= target[r as int]);
        proof { lemma_grid_push(out@, row); }
        out.push(row);
        r = r + 1;
        assert(grid(out@) =~= target.take(r as int));
    }
    assert(target.take(r as int) =~= target);
    Ok(out)
}

/// TAKE undoes EXPAND: taking as many rows and columns as a rectangular
/// array has from its expansion gives the array back.
pub proof fn law_take_undoes_expand<T>(data: Seq<Seq<T>>, rows: int, cols: int, pad: T)
    requires
        data.len() > 0,
        width(data) > 0,
        forall|i: int| 0 <= i < data.len() ==> #[trigger] data[i].len() == width(data),
        rows >= data.len(),
        cols >= width(data),
        data.len() <= i64::MAX,
        width(data) <= i64::MAX,
    ensures
        expand_spec(data, rows, Some(cols), pad) is Ok,
        take_spec(expand_spec(data, rows, Some(cols), pad)->Ok_0, data.len() as i64, Some(width(data) as i64))
            == Ok::<Seq<Seq<T>>, (Error, Seq<char>)>(data),
{
    let e = expand_spec(data, rows, Some(cols), pad)->Ok_0;
    assert(e.len() == rows && e[0].len() == cols);
    let t = take_spec(e, data.len() as i64, Some(width(data) as i64))->Ok_0;
    assert forall|i: int| 0 <= i < data.len() implies #[trigger] t[i] == data[i] by {
        assert(t[i] =~= data[i]);
    }
    assert(t =~= data);
}

/// EXPAND keeps every cell of a rectangular array where it was and fills
/// every new cell with the padding value; the result has exactly the asked
/// number of rows and columns.
pub proof fn law_expand_keeps_cells_and_pads<T>(data: Seq<Seq<T>>, rows: int, cols: int, pad: T)
    requires
        forall|i: int| 0 <= i < data.len() ==> #[trigger] data[i].len() == width(data),
        rows >= data.len(),
        cols >= width(data),
    ensures
        expand_spec(data, rows, Some(cols), pad) is Ok,
        ({
            let e = expand_spec(data, rows, Some(cols), pad)->Ok_0;
            &&& e.len() == rows
            &&& forall|r: int| 0 <= r < rows ==> #[trigger] e[r].len() == cols
            &&& forall|r: int, c: int| 0 <= r < data.len() && 0 <= c < width(data) ==> #[trigger] e[r][c] == data[r][c]
            &&& forall|r: int, c: int| 0 <= r < rows && 0 <= c < cols && (r >= data.len() || c >= width(data))
                ==> #[trigger] e[r][c] == pad
        }),
{
}

/// Expanding an array to its own size gives it back.
pub proof fn law_expand_to_own_size_is_identity<T>(data: Seq<Seq<T>>, pad: T)
    requires
        forall|i: int| 0 <= i < data.len() ==> #[trigger] data[i].len() == width(data),
    ensures
        expand_spec(data, data.len() as int, None, pad) == Ok::<Seq<Seq<T>>, (Error, Seq<char>)>(data),
{
    let e = expand_spec(data, data.len() as int, None, pad)->Ok_0;
    assert forall|r: int| 0 <= r < data.len() implies #[trigger] e[r] == data[r] by {
        assert(e[r] =~= data[r]);
    }
    assert(e =~= data);
}

} // verus!
