//! TRANSPOSE: rows become columns.
use vstd::prelude::*;
use crate::grid::{grid, lemma_grid_push, rectangular, rows_at_least, width};

verus! {

/// The transpose of `g`: element `(j, i)` is `g[i][j]`; as wide as `g` is
/// high, and as high as the first row of `g` is long.
pub open spec fn transpose_spec<T>(g: Seq<Seq<T>>) -> Seq<Seq<T>> {
    Seq::new(width(g) as nat, |j: int| Seq::new(g.len(), |i: int| g[i][j]))
}

/// `=TRANSPOSE(array)`
///
/// Returns the transpose of the array: rows become columns and vice versa.
pub fn fn_transpose<T: Copy>(data: &Vec<Vec<T>>) -> (r: Vec<Vec<T>>)
    requires
        rows_at_least(grid(data@), width(grid(data@))),
    ensures
        grid(r@) == transpose_spec(grid(data@)),
{
    let ghost g = grid(data@);
    let ghost target = transpose_spec(g);
    if data.len() == 0 {
        let empty: Vec<Vec<T>> = Vec::new();
        assert(grid(empty@) =~= target);
        return empty;
    }
    let num_rows = data.len();
    let num_cols = data[0].len();
    let mut out: Vec<Vec<T>> = Vec::new();
    let mut j: usize = 0;
    while j < num_cols
        invariant
            g == grid(data@),
            target == transpose_spec(g),
            num_rows == data.len(),
            num_cols as int == width(g),
            rows_at_least(g, width(g)),
            j <= num_cols,
            grid(out@) == target.take(j as int),
        decreases num_cols - j,
    {
        let mut col: Vec<T> = Vec::new();
        let mut i: usize = 0;
        while i < num_rows
            invariant
                g == grid(data@),
                target == transpose_spec(g),
                num_rows == data.len(),
                num_cols as int == width(g),
                rows_at_least(g, width(g)),
                j < num_cols,
                i <= num_rows,
                col@ == target[j as int].take(i as int),
            decreases num_rows - i,
        {
            assert(g[i as int] == data@[i as int]@);
            col.push(data[i][j]);
            i = i + 1;
            assert(col@ =~= target[j as int].take(i as int));
        }
        assert(col@ =~= target[j as int]);
        proof { lemma_grid_push(out@, col); }
        out.push(col);
        j = j + 1;
        assert(grid(out@) =~= target.take(j as int));
    }
    assert(target.take(j as int) =~= target);
    out
}

/// Transposing twice gives back a rectangular array (one whose rows are all
/// as long as the first, and not empty).
pub proof fn law_transpose_twice<T>(g: Seq<Seq<T>>)
    requires
        rectangular(g, width(g)),
        g.len() > 0 ==> width(g) > 0,
    ensures
        transpose_spec(transpose_spec(g)) == g,
{
    let t = transpose_spec(g);
    if g.len() > 0 {
        assert(width(t) == g.len());
        assert forall|i: int| 0 <= i < g.len() implies transpose_spec(t)[i] =~= g[i] by {
            assert(g[i].len() == width(g));
        }
    }
    assert(transpose_spec(t) =~= g);
}

/// Transposing moves each cell across the diagonal: a rectangular array of
/// `h` rows and `w` columns becomes one of `w` rows and `h` columns, with
/// the cell of row `i` and column `j` at row `j` and column `i`.
pub proof fn law_transpose_moves_cells<T>(g: Seq<Seq<T>>)
    requires
        rectangular(g, width(g)),
    ensures
        transpose_spec(g).len() == width(g),
        forall|j: int| 0 <= j < width(g) ==> #[trigger] transpose_spec(g)[j].len() == g.len(),
        forall|i: int, j: int| 0 <= i < g.len() && 0 <= j < width(g) ==> #[trigger] transpose_spec(g)[j][i] == g[i][j],
{
}

/// A single row transposed is a column holding its values in order, and a
/// column transposed is a row.
pub proof fn law_transpose_row_and_column<T>(s: Seq<T>)
    requires
        s.len() > 0,
    ensures
        transpose_spec(seq![s]) == Seq::new(s.len(), |k: int| seq![s[k]]),
        transpose_spec(Seq::new(s.len(), |k: int| seq![s[k]])) == seq![s],
{
    let row = seq![s];
    let col = Seq::new(s.len(), |k: int| seq![s[k]]);
    assert forall|k: int| 0 <= k < s.len() implies #[trigger] transpose_spec(row)[k] == col[k] by {
        assert(transpose_spec(row)[k] =~= col[k]);
    }
    assert(transpose_spec(row) =~= col);
    assert(width(col) == 1);
    assert(transpose_spec(col)[0] =~= s);
    assert(transpose_spec(col) =~= seq![s]);
}

} // verus!
