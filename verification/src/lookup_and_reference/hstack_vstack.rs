//! HSTACK and VSTACK: arrays side by side or one on top of another.
use vstd::prelude::*;
use crate::grid::{grid, lemma_grid_push, padded_row, width};

verus! {

/// The views of a list of arrays.
pub open spec fn arrays_view<T>(arrays: Seq<Vec<Vec<T>>>) -> Seq<Seq<Seq<T>>> {
    arrays.map_values(|a: Vec<Vec<T>>| grid(a@))
}

/// The largest number of rows among the arrays.
pub open spec fn max_rows<T>(arrays: Seq<Seq<Seq<T>>>) -> int
    decreases arrays.len(),
{
    if arrays.len() == 0 { 0 } else { vstd::math::max(max_rows(arrays.drop_last()), arrays.last().len() as int) }
}

/// The largest width among the arrays.
pub open spec fn max_width<T>(arrays: Seq<Seq<Seq<T>>>) -> int
    decreases arrays.len(),
{
    if arrays.len() == 0 { 0 } else { vstd::math::max(max_width(arrays.drop_last()), width(arrays.last())) }
}

/// Row `r` of one array in HSTACK: the row itself, or `na` repeated as wide
/// as the array when it has no such row.
pub open spec fn hstack_piece<T>(a: Seq<Seq<T>>, r: int, na: T) -> Seq<T> {
    if r < a.len() { a[r] } else { Seq::new(width(a) as nat, |k: int| na) }
}

/// Row `r` of HSTACK: the rows `r` of all arrays, side by side.
pub open spec fn hstack_row<T>(arrays: Seq<Seq<Seq<T>>>, r: int, na: T) -> Seq<T>
    decreases arrays.len(),
{
    if arrays.len() == 0 {
        Seq::empty()
    } else {
        hstack_row(arrays.drop_last(), r, na) + hstack_piece(arrays.last(), r, na)
    }
}

/// What HSTACK gives: as many rows as the tallest array.
pub open spec fn hstack_spec<T>(arrays: Seq<Seq<Seq<T>>>, na: T) -> Seq<Seq<T>> {
    Seq::new(max_rows(arrays) as nat, |r: int| hstack_row(arrays, r, na))
}

/// A row padded with `na` up to `w` elements (longer rows are kept).
pub open spec fn pad_row<T>(row: Seq<T>, w: int, na: T) -> Seq<T> {
    if row.len() >= w { row } else { row + Seq::new((w - row.len()) as nat, |i: int| na) }
}

/// The rows of all arrays one after the other, each padded to `w`.
pub open spec fn vstack_rows<T>(arrays: Seq<Seq<Seq<T>>>, w: int, na: T) -> Seq<Seq<T>>
    decreases arrays.len(),
{
    if arrays.len() == 0 {
        Seq::empty()
    } else {
        vstack_rows(arrays.drop_last(), w, na) + arrays.last().map_values(|row: Seq<T>| pad_row(row, w, na))
    }
}

/// What VSTACK gives: nothing when every array has width 0.
pub open spec fn vstack_spec<T>(arrays: Seq<Seq<Seq<T>>>, na: T) -> Seq<Seq<T>> {
    if max_width(arrays) == 0 { Seq::empty() } else { vstack_rows(arrays, max_width(arrays), na) }
}

proof fn lemma_take_last<A>(s: Seq<A>, k: int)
    requires
        0 <= k < s.len(),
    ensures
        s.take(k + 1).drop_last() == s.take(k),
        s.take(k + 1).last() == s[k],
{
    assert(s.take(k + 1).drop_last() =~= s.take(k));
}

/// `=HSTACK(array1, [array2], ...)`
///
/// Stacks arrays horizontally into one array; shorter ones are padded with
/// `na` (#N/A) to match the tallest array.
pub fn fn_hstack<T: Copy>(arrays: &Vec<Vec<Vec<T>>>, na: T) -> (r: Vec<Vec<T>>)
    ensures
        grid(r@) == hstack_spec(arrays_view(arrays@), na),
{
    let ghost views = arrays_view(arrays@);
    let mut max_r: usize = 0;
    let mut k: usize = 0;
    while k < arrays.len()
        invariant
            views == arrays_view(arrays@),
            k <= arrays.len(),
            max_r as int == max_rows(views.take(k as int)),
        decreases arrays.len() - k,
    {
        proof { lemma_take_last(views, k as int); }
        if arrays[k].len() > max_r {
            max_r = arrays[k].len();
        }
        k = k + 1;
    }
    assert(views.take(k as int) =~= views);
    let ghost target = hstack_spec(views, na);
    let mut out: Vec<Vec<T>> = Vec::new();
    let mut r: usize = 0;
    while r < max_r
        invariant
            views == arrays_view(arrays@),
            target == hstack_spec(views, na),
            max_r as int == max_rows(views),
            r <= max_r,
            grid(out@) == target.take(r as int),
        decreases max_r - r,
    {
        let mut row: Vec<T> = Vec::new();
        let mut k: usize = 0;
        while k < arrays.len()
            invariant
                views == arrays_view(arrays@),
                k <= arrays.len(),
                row@ == hstack_row(views.take(k as int), r as int, na),
            decreases arrays.len() - k,
        {
            proof { lemma_take_last(views, k as int); }
            let arr = &arrays[k];
            assert(views[k as int] == grid(arr@));
            let ghost before = row@;
            if r < arr.len() {
                let mut c: usize = 0;
                while c < arr[r].len()
                    invariant
                        r < arr.len(),
                        c <= arr@[r as int].len(),
                        row@ == before + arr@[r as int]@.take(c as int),
                    decreases arr@[r as int].len() - c,
                {
                    row.push(arr[r][c]);
                    c = c + 1;
                    assert(row@ =~= before + arr@[r as int]@.take(c as int));
                }
                assert(arr@[r as int]@.take(c as int) =~= arr@[r as int]@);
                assert(grid(arr@)[r as int] == arr@[r as int]@);
            } else {
                let ncols = if arr.len() > 0 { arr[0].len() } else { 0 };
                assert(arr.len() > 0 ==> grid(arr@)[0] == arr@[0]@);
                let mut c: usize = 0;
                while c < ncols
                    invariant
                        c <= ncols,
                        row@ == before + Seq::new(c as nat, |i: int| na),
                    decreases ncols - c,
                {
                    row.push(na);
                    c = c + 1;
                    assert(row@ =~= before + Seq::new(c as nat, |i: int| na));
                }
            }
            k = k + 1;
            assert(row@ =~= hstack_row(views.take(k as int), r as int, na));
        }
        assert(views.take(k as int) =~= views);
        proof { lemma_grid_push(out@, row); }
        out.push(row);
        r = r + 1;
        assert(grid(out@) =~= target.take(r as int));
    }
    assert(target.take(r as int) =~= target);
    out
}

/// `=VSTACK(array1, [array2], ...)`
///
/// Stacks arrays vertically into one array; narrower rows are padded with
/// `na` (#N/A) to match the widest array.
pub fn fn_vstack<T: Copy>(arrays: &Vec<Vec<Vec<T>>>, na: T) -> (r: Vec<Vec<T>>)
    ensures
        grid(r@) == vstack_spec(arrays_view(arrays@), na),
{
    let ghost views = arrays_view(arrays@);
    let mut max_c: usize = 0;
    let mut k: usize = 0;
    while k < arrays.len()
        invariant
            views == arrays_view(arrays@),
            k <= arrays.len(),
            max_c as int == max_width(views.take(k as int)),
        decreases arrays.len() - k,
    {
        proof { lemma_take_last(views, k as int); }
        assert(arrays@[k as int].len() > 0 ==> grid(arrays@[k as int]@)[0] == arrays@[k as int]@[0]@);
        if arrays[k].len() > 0 && arrays[k][0].len() > max_c {
            max_c = arrays[k][0].len();
        }
        k = k + 1;
    }
    assert(views.take(k as int) =~= views);
    if max_c == 0 {
        let empty: Vec<Vec<T>> = Vec::new();
        assert(grid(empty@) =~= vstack_spec(views, na));
        return empty;
    }
    let mut out: Vec<Vec<T>> = Vec::new();
    let mut k: usize = 0;
    while k < arrays.len()
        invariant
            views == arrays_view(arrays@),
            max_c as int == max_width(views),
            k <= arrays.len(),
            grid(out@) == vstack_rows(views.take(k as int), max_c as int, na),
        decreases arrays.len() - k,
    {
        proof { lemma_take_last(views, k as int); }
        let arr = &arrays[k];
        let ghost before = grid(out@);
        let ghost padded = grid(arr@).map_values(|row: Seq<T>| pad_row(row, max_c as int, na));
        let mut i: usize = 0;
        while i < arr.len()
            invariant
                i <= arr.len(),
                padded == grid(arr@).map_values(|row: Seq<T>| pad_row(row, max_c as int, na)),
                grid(out@) == before + padded.take(i as int),
            decreases arr.len() - i,
        {
            let row = padded_row(&arr[i], max_c, na);
            assert(row@ == pad_row(grid(arr@)[i as int], max_c as int, na));
            proof { lemma_grid_push(out@, row); }
            out.push(row);
            i = i + 1;
            assert(grid(out@) =~= before + padded.take(i as int));
        }
        assert(padded.take(i as int) =~= padded);
        k = k + 1;
    }
    assert(views.take(k as int) =~= views);
    out
}

/// VSTACK of two arrays of the same width puts the rows of the second under
/// those of the first, unchanged.
pub proof fn law_vstack_puts_rows_under<T>(a: Seq<Seq<T>>, b: Seq<Seq<T>>, na: T)
    requires
        a.len() > 0,
        b.len() > 0,
        width(a) > 0,
        width(a) == width(b),
        forall|i: int| 0 <= i < a.len() ==> #[trigger] a[i].len() == width(a),
        forall|i: int| 0 <= i < b.len() ==> #[trigger] b[i].len() == width(b),
    ensures
        vstack_spec(seq![a, b], na) == a + b,
{
    let arrays = seq![a, b];
    let w = width(a);
    assert(arrays.drop_last() =~= seq![a]);
    let one = seq![a];
    assert(one.drop_last() =~= Seq::<Seq<Seq<T>>>::empty());
    assert(one.last() == a);
    assert(max_width(one.drop_last()) == 0);
    assert(max_width(one) == w);
    assert(arrays.last() == b);
    assert(max_width(arrays) == w);
    let pa = a.map_values(|row: Seq<T>| pad_row(row, w, na));
    let pb = b.map_values(|row: Seq<T>| pad_row(row, w, na));
    assert(pa =~= a);
    assert(pb =~= b);
    assert(vstack_rows(one.drop_last(), w, na) == Seq::<Seq<T>>::empty());
    assert(vstack_rows(one, w, na) == vstack_rows(one.drop_last(), w, na) + pa);
    assert(vstack_rows(one, w, na) =~= pa);
    assert(vstack_rows(arrays, w, na) == vstack_rows(one, w, na) + pb);
    assert(vstack_spec(arrays, na) =~= a + b);
}

/// HSTACK of two arrays of the same height puts them side by side: each
/// row is the row of the first followed by the row of the second.
pub proof fn law_hstack_puts_rows_side_by_side<T>(a: Seq<Seq<T>>, b: Seq<Seq<T>>, na: T)
    requires
        a.len() > 0,
        a.len() == b.len(),
    ensures
        hstack_spec(seq![a, b], na) == Seq::new(a.len(), |i: int| a[i] + b[i]),
{
    let arrays = seq![a, b];
    assert(arrays.drop_last() =~= seq![a]);
    let one = seq![a];
    assert(one.drop_last() =~= Seq::<Seq<Seq<T>>>::empty());
    assert(one.last() == a);
    assert(arrays.last() == b);
    assert(max_rows(one.drop_last()) == 0);
    assert(max_rows(one) == a.len());
    assert(max_rows(arrays) == a.len());
    let h = hstack_spec(arrays, na);
    assert forall|i: int| 0 <= i < a.len() implies #[trigger] h[i] == a[i] + b[i] by {
        assert(hstack_row(one.drop_last(), i, na) == Seq::<T>::empty());
        assert(hstack_row(one, i, na) == hstack_row(one.drop_last(), i, na) + a[i]);
        assert(hstack_row(one, i, na) =~= a[i]);
        assert(hstack_row(arrays, i, na) == hstack_row(one, i, na) + b[i]);
        assert(h[i] =~= a[i] + b[i]);
    }
    assert(h =~= Seq::new(a.len(), |i: int| a[i] + b[i]));
}

} // verus!
