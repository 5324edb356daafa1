//! CHOOSECOLS and CHOOSEROWS: selected columns or rows of an array.
use vstd::prelude::*;
use vstd::string::*;
use crate::grid::{grid, grid_result, lemma_grid_push, rows_at_least, width};
use crate::types::{CalcError, Error};

verus! {

/// The 0-based position that a 1-based index `n` selects among `count`
/// (negative indices count from the end).
pub open spec fn chosen_position(n: int, count: int) -> int {
    if n > 0 { n - 1 } else { count + n }
}

/// `n` selects an element among `count`: it is not 0 and at most `count`
/// in magnitude.
pub open spec fn valid_choice(n: int, count: int) -> bool {
    n != 0 && (if n < 0 { -n } else { n }) <= count
}

/// Every index of `nums` selects an element among `count`.
pub open spec fn all_valid_choices(nums: Seq<i64>, count: int) -> bool {
    forall|k: int| 0 <= k < nums.len() ==> valid_choice(#[trigger] nums[k] as int, count)
}

/// What CHOOSECOLS gives for `data` and the column indices `nums`.
pub open spec fn choosecols_spec<T>(data: Seq<Seq<T>>, nums: Seq<i64>) -> Result<Seq<Seq<T>>, (Error, Seq<char>)> {
    if data.len() == 0 || data[0].len() == 0 {
        Ok(Seq::empty())
    } else if !all_valid_choices(nums, width(data)) {
        Err((Error::VALUE, "Column number out of range"@))
    } else {
        Ok(Seq::new(data.len(), |i: int| Seq::new(nums.len(),
            |k: int| data[i][chosen_position(nums[k] as int, width(data))])))
    }
}

/// What CHOOSEROWS gives for `data` and the row indices `nums`.
pub open spec fn chooserows_spec<T>(data: Seq<Seq<T>>, nums: Seq<i64>) -> Result<Seq<Seq<T>>, (Error, Seq<char>)> {
    if data.len() == 0 {
        Ok(Seq::empty())
    } else if !all_valid_choices(nums, data.len() as int) {
        Err((Error::VALUE, "Row number out of range"@))
    } else {
        Ok(Seq::new(nums.len(), |k: int| data[chosen_position(nums[k] as int, data.len() as int)]))
    }
}

/// Checks the indices `nums` against `count` and turns them into 0-based
/// positions; `None` at the first index out of range.
fn chosen_positions(nums: &Vec<i64>, count: usize) -> (r: Option<Vec<usize>>)
    requires
        forall|k: int| 0 <= k < nums@.len() ==> nums@[k] != i64::MIN,
    ensures
        r is None <==> !all_valid_choices(nums@, count as int),
        r matches Some(p) ==> p@.len() == nums@.len() && forall|k: int| 0 <= k < p@.len()
            ==> #[trigger] p@[k] as int == chosen_position(nums@[k] as int, count as int)
                && p@[k] < count,
{
    let mut out: Vec<usize> = Vec::new();
    let mut k: usize = 0;
    while k < nums.len()
        invariant
            k <= nums.len(),
            forall|j: int| 0 <= j < nums@.len() ==> nums@[j] != i64::MIN,
            forall|j: int| 0 <= j < k ==> valid_choice(#[trigger] nums@[j] as int, count as int),
            out@.len() == k,
            forall|j: int| 0 <= j < k ==> #[trigger] out@[j] as int
                == chosen_position(nums@[j] as int, count as int) && out@[j] < count,
        decreases nums.len() - k,
    {
        let n = nums[k];
        let m: u64 = if n < 0 { (-n) as u64 } else { n as u64 };
        if n == 0 || m > count as u64 {
            assert(!valid_choice(nums@[k as int] as int, count as int));
            return None;
        }
        let idx: usize = if n > 0 { (n - 1) as usize } else { count - (m as usize) };
        out.push(idx);
        k = k + 1;
    }
    Some(out)
}

/// `=CHOOSECOLS(array, col_num1, [col_num2], ...)`
///
/// Returns the specified columns from an array or range.
/// Column numbers are 1-based; negative numbers select from the right.
pub fn fn_choosecols<T: Copy>(data: &Vec<Vec<T>>, nums: &Vec<i64>) -> (r: Result<Vec<Vec<T>>, CalcError>)
    requires
        forall|k: int| 0 <= k < nums@.len() ==> nums@[k] != i64::MIN,
        all_valid_choices(nums@, width(grid(data@))) ==> rows_at_least(grid(data@), width(grid(data@))),
    ensures
        grid_result(r) == choosecols_spec(grid(data@), nums@),
{
    if data.len() == 0 || data[0].len() == 0 {
        let empty: Vec<Vec<T>> = Vec::new();
        assert(grid(empty@) =~= Seq::<Seq<T>>::empty());
        return Ok(empty);
    }
    let num_cols = data[0].len();
    let cols = match chosen_positions(nums, num_cols) {
        Some(p) => p,
        None => {
            return Err(CalcError { error: Error::VALUE, message: String::from_str("Column number out of range") });
        },
    };
    let ghost g = grid(data@);
    let ghost target = Seq::new(g.len(), |i: int| Seq::new(nums@.len(),
        |k: int| g[i][chosen_position(nums@[k] as int, width(g))]));
    let mut out: Vec<Vec<T>> = Vec::new();
    let mut i: usize = 0;
    while i < data.len()
        invariant
            g == grid(data@),
            target == Seq::new(g.len(), |i: int| Seq::new(nums@.len(),
                |k: int| g[i][chosen_position(nums@[k] as int, width(g))])),
            num_cols as int == width(g),
            rows_at_least(g, width(g)),
            cols@.len() == nums@.len(),
            forall|k: int| 0 <= k < cols@.len() ==> #[trigger] cols@[k] as int
                == chosen_position(nums@[k] as int, num_cols as int) && cols@[k] < num_cols,
            i <= data.len(),
            grid(out@) == target.take(i as int),
        decreases data.len() - i,
    {
        let row = &data[i];
        assert(row@ == g[i as int]);
        let mut new_row: Vec<T> = Vec::new();
        let mut k: usize = 0;
        while k < cols.len()
            invariant
                target == Seq::new(g.len(), |i: int| Seq::new(nums@.len(),
                    |k: int| g[i][chosen_position(nums@[k] as int, width(g))])),
                g.len() == data@.len(),
                num_cols as int == width(g),
                row@ == g[i as int],
                row@.len() >= num_cols,
                cols@.len() == nums@.len(),
                forall|k2: int| 0 <= k2 < cols@.len() ==> #[trigger] cols@[k2] as int
                    == chosen_position(nums@[k2] as int, num_cols as int) && cols@[k2] < num_cols,
                k <= cols.len(),
                new_row@ == target[i as int].take(k as int),
                i < data.len(),
            decreases cols.len() - k,
        {
            new_row.push(row[cols[k]]);
            k = k + 1;
            assert(new_row@ =~= target[i as int].take(k as int));
        }
        assert(new_row@ =~= target[i as int]);
        proof { lemma_grid_push(out@, new_row); }
        out.push(new_row);
        i = i + 1;
        assert(grid(out@) =~= target.take(i as int));
    }
    assert(target.take(i as int) =~= target);
    Ok(out)
}

/// `=CHOOSEROWS(array, row_num1, [row_num2], ...)`
///
/// Returns the specified rows from an array or range.
/// Row numbers are 1-based; negative numbers select from the bottom.
pub fn fn_chooserows<T: Copy>(data: &Vec<Vec<T>>, nums: &Vec<i64>) -> (r: Result<Vec<Vec<T>>, CalcError>)
    requires
        forall|k: int| 0 <= k < nums@.len() ==> nums@[k] != i64::MIN,
    ensures
        grid_result(r) == chooserows_spec(grid(data@), nums@),
{
    if data.len() == 0 {
        let empty: Vec<Vec<T>> = Vec::new();
        assert(grid(empty@) =~= Seq::<Seq<T>>::empty());
        return Ok(empty);
    }
    let rows = match chosen_positions(nums, data.len()) {
        Some(p) => p,
        None => {
            return Err(CalcError { error: Error::VALUE, message: String::from_str("Row number out of range") });
        },
    };
    let ghost g = grid(data@);
    let ghost target = Seq::new(nums@.len(), |k: int| g[chosen_position(nums@[k] as int, g.len() as int)]);
    let mut out: Vec<Vec<T>> = Vec::new();
    let mut k: usize = 0;
    while k < rows.len()
        invariant
            g == grid(data@),
            target == Seq::new(nums@.len(), |k: int| g[chosen_position(nums@[k] as int, g.len() as int)]),
            rows@.len() == nums@.len(),
            forall|k2: int| 0 <= k2 < rows@.len() ==> #[trigger] rows@[k2] as int
                == chosen_position(nums@[k2] as int, data.len() as int) && rows@[k2] < data.len(),
            k <= rows.len(),
            grid(out@) == target.take(k as int),
        decreases rows.len() - k,
    {
        let copy = crate::grid::slice_row(&data[rows[k]], 0, data[rows[k]].len());
        assert(copy@ =~= g[rows@[k as int] as int]);
        proof { lemma_grid_push(out@, copy); }
        out.push(copy);
        k = k + 1;
        assert(grid(out@) =~= target.take(k as int));
    }
    assert(target.take(k as int) =~= target);
    Ok(out)
}

/// The index that counts the same position from the start as the negative
/// index `n` counts from the end, among `count`.
pub open spec fn from_the_start(n: int, count: int) -> int {
    count + 1 + n
}

/// A negative column index counts from the right: CHOOSECOLS with `-j`
/// picks the same column as with `width + 1 - j`, so `-1` is the last
/// column and `-width` the first.
pub proof fn law_choosecols_negative_counts_from_the_right<T>(data: Seq<Seq<T>>, nums: Seq<i64>, k: int)
    requires
        data.len() > 0,
        data[0].len() > 0,
        width(data) <= i64::MAX,
        all_valid_choices(nums, width(data)),
        0 <= k < nums.len(),
        nums[k] < 0,
    ensures
        choosecols_spec(data, nums) == choosecols_spec(data,
            nums.update(k, from_the_start(nums[k] as int, width(data)) as i64)),
{
    let w = width(data);
    let m = nums.update(k, from_the_start(nums[k] as int, w) as i64);
    assert forall|j: int| 0 <= j < m.len() implies valid_choice(#[trigger] m[j] as int, w) by {
        if j != k {
            assert(m[j] == nums[j]);
            assert(valid_choice(nums[j] as int, w));
        }
    }
    assert(all_valid_choices(m, w));
    let a = choosecols_spec(data, nums)->Ok_0;
    let b = choosecols_spec(data, m)->Ok_0;
    assert forall|i: int| 0 <= i < data.len() implies #[trigger] a[i] == b[i] by {
        assert forall|j: int| 0 <= j < nums.len() implies #[trigger] a[i][j] == b[i][j] by {
            if j != k {
                assert(m[j] == nums[j]);
            }
        }
        assert(a[i] =~= b[i]);
    }
    assert(a =~= b);
}

/// A negative row index counts from the bottom: CHOOSEROWS with `-j` picks
/// the same row as with `rows + 1 - j`.
pub proof fn law_chooserows_negative_counts_from_the_bottom<T>(data: Seq<Seq<T>>, nums: Seq<i64>, k: int)
    requires
        data.len() > 0,
        data.len() <= i64::MAX,
        all_valid_choices(nums, data.len() as int),
        0 <= k < nums.len(),
        nums[k] < 0,
    ensures
        chooserows_spec(data, nums) == chooserows_spec(data,
            nums.update(k, from_the_start(nums[k] as int, data.len() as int) as i64)),
{
    let n = data.len() as int;
    let m = nums.update(k, from_the_start(nums[k] as int, n) as i64);
    assert forall|j: int| 0 <= j < m.len() implies valid_choice(#[trigger] m[j] as int, n) by {
        if j != k {
            assert(m[j] == nums[j]);
            assert(valid_choice(nums[j] as int, n));
        }
    }
    let a = chooserows_spec(data, nums)->Ok_0;
    let b = chooserows_spec(data, m)->Ok_0;
    assert forall|j: int| 0 <= j < nums.len() implies #[trigger] a[j] == b[j] by {
        if j != k {
            assert(m[j] == nums[j]);
        }
    }
    assert(a =~= b);
}

/// The indices `-1, -2, ..., -count`.
pub open spec fn from_the_end(count: int) -> Seq<i64> {
    Seq::new(count as nat, |k: int| (-(k + 1)) as i64)
}

/// The indices `-1, -2, ..., -width` select every column, right to left:
/// CHOOSECOLS with them mirrors each row, so distinct negative indices pick
/// distinct columns.
pub proof fn law_choosecols_all_from_the_right_mirrors<T>(data: Seq<Seq<T>>)
    requires
        data.len() > 0,
        data[0].len() > 0,
        width(data) <= i64::MAX,
    ensures
        choosecols_spec(data, from_the_end(width(data))) is Ok,
        forall|i: int, k: int| 0 <= i < data.len() && 0 <= k < width(data) ==>
            #[trigger] choosecols_spec(data, from_the_end(width(data)))->Ok_0[i][k] == data[i][width(data) - 1 - k],
{
    let w = width(data);
    let nums = from_the_end(w);
    assert forall|j: int| 0 <= j < nums.len() implies valid_choice(#[trigger] nums[j] as int, w) by {
        assert(nums[j] as int == -(j + 1));
    }
    assert forall|i: int, k: int| 0 <= i < data.len() && 0 <= k < w implies
        #[trigger] choosecols_spec(data, nums)->Ok_0[i][k] == data[i][w - 1 - k] by {
        assert(nums[k] as int == -(k + 1));
    }
}

/// The indices `-1, -2, ..., -rows` select every row, bottom to top:
/// CHOOSEROWS with them turns the array upside down.
pub proof fn law_chooserows_all_from_the_bottom_reverses<T>(data: Seq<Seq<T>>)
    requires
        data.len() > 0,
        data.len() <= i64::MAX,
    ensures
        chooserows_spec(data, from_the_end(data.len() as int)) == Ok::<Seq<Seq<T>>, (Error, Seq<char>)>(data.reverse()),
{
    let n = data.len() as int;
    let nums = from_the_end(n);
    assert forall|j: int| 0 <= j < nums.len() implies valid_choice(#[trigger] nums[j] as int, n) by {
        assert(nums[j] as int == -(j + 1));
    }
    let a = chooserows_spec(data, nums)->Ok_0;
    assert forall|k: int| 0 <= k < n implies #[trigger] a[k] == data.reverse()[k] by {
        assert(nums[k] as int == -(k + 1));
    }
    assert(a =~= data.reverse());
}

/// The indices `1, 2, ..., count`.
pub open spec fn from_the_start_all(count: int) -> Seq<i64> {
    Seq::new(count as nat, |k: int| (k + 1) as i64)
}

/// Choosing every column in order, `1, 2, ..., width`, gives back a
/// rectangular array unchanged: index `j` is the `j`-th column.
pub proof fn law_choosecols_all_in_order_is_identity<T>(data: Seq<Seq<T>>)
    requires
        data.len() > 0,
        data[0].len() > 0,
        width(data) <= i64::MAX,
        forall|i: int| 0 <= i < data.len() ==> #[trigger] data[i].len() == width(data),
    ensures
        choosecols_spec(data, from_the_start_all(width(data))) == Ok::<Seq<Seq<T>>, (Error, Seq<char>)>(data),
{
    let w = width(data);
    let nums = from_the_start_all(w);
    assert forall|j: int| 0 <= j < nums.len() implies valid_choice(#[trigger] nums[j] as int, w) by {
        assert(nums[j] as int == j + 1);
    }
    let a = choosecols_spec(data, nums)->Ok_0;
    assert forall|i: int| 0 <= i < data.len() implies #[trigger] a[i] == data[i] by {
        assert forall|k: int| 0 <= k < w implies #[trigger] a[i][k] == data[i][k] by {
            assert(nums[k] as int == k + 1);
        }
        assert(a[i] =~= data[i]);
    }
    assert(a =~= data);
}

/// Choosing every row in order, `1, 2, ..., rows`, gives back the array.
pub proof fn law_chooserows_all_in_order_is_identity<T>(data: Seq<Seq<T>>)
    requires
        data.len() > 0,
        data.len() <= i64::MAX,
    ensures
        chooserows_spec(data, from_the_start_all(data.len() as int)) == Ok::<Seq<Seq<T>>, (Error, Seq<char>)>(data),
{
    let n = data.len() as int;
    let nums = from_the_start_all(n);
    assert forall|j: int| 0 <= j < nums.len() implies valid_choice(#[trigger] nums[j] as int, n) by {
        assert(nums[j] as int == j + 1);
    }
    let a = chooserows_spec(data, nums)->Ok_0;
    assert forall|k: int| 0 <= k < n implies #[trigger] a[k] == data[k] by {
        assert(nums[k] as int == k + 1);
    }
    assert(a =~= data);
}

} // verus!
