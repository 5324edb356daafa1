//! LARGE, SMALL and MEDIAN: the k-th largest or smallest values of a list.
//!
//! Values are given by keys that order them as the numbers do (equal
//! numbers, equal keys); the functions return the position of the value.
use vstd::prelude::*;
use crate::types::{new_error, CalcError, Error};

verus! {

/// `x` comes before `v` in the order of the function: greater for LARGE,
/// smaller for SMALL.
pub open spec fn beyond(x: i64, v: i64, largest: bool) -> bool {
    if largest { x > v } else { x < v }
}

/// How many values of `s` come before `v`.
pub open spec fn count_beyond(s: Seq<i64>, v: i64, largest: bool) -> nat
    decreases s.len(),
{
    if s.len() == 0 {
        0
    } else {
        count_beyond(s.drop_last(), v, largest) + if beyond(s.last(), v, largest) { 1nat } else { 0nat }
    }
}

/// How many values of `s` come before `v` or equal it.
pub open spec fn count_reaching(s: Seq<i64>, v: i64, largest: bool) -> nat
    decreases s.len(),
{
    if s.len() == 0 {
        0
    } else {
        count_reaching(s.drop_last(), v, largest) + if s.last() == v || beyond(s.last(), v, largest) {
            1nat
        } else {
            0nat
        }
    }
}

/// The value at position `p` is the `k`-th in the order of the function:
/// fewer than `k` values come before it, and at least `k` come before it or
/// equal it.
pub open spec fn is_kth(s: Seq<i64>, k: int, largest: bool, p: int) -> bool {
    &&& 0 <= p < s.len()
    &&& count_beyond(s, s[p], largest) < k
    &&& k <= count_reaching(s, s[p], largest)
}

/// Among the first `i` positions whose value `k` or more values reach, the
/// one whose value comes first.
pub open spec fn first_reaching(s: Seq<i64>, k: int, largest: bool, i: int) -> Option<int>
    decreases i,
{
    if i <= 0 {
        None
    } else {
        let prev = first_reaching(s, k, largest, i - 1);
        if count_reaching(s, s[i - 1], largest) >= k && (prev is None || beyond(s[i - 1], s[prev->Some_0], largest)) {
            Some(i - 1)
        } else {
            prev
        }
    }
}

/// Among the first `i` positions whose value comes before `v`, the one
/// whose value comes last.
pub open spec fn last_beyond(s: Seq<i64>, v: i64, largest: bool, i: int) -> Option<int>
    decreases i,
{
    if i <= 0 {
        None
    } else {
        let prev = last_beyond(s, v, largest, i - 1);
        if beyond(s[i - 1], v, largest) && (prev is None || beyond(s[prev->Some_0], s[i - 1], largest)) {
            Some(i - 1)
        } else {
            prev
        }
    }
}

/// Among the first `i` positions, the one whose value comes last.
pub open spec fn last_of_all(s: Seq<i64>, largest: bool, i: int) -> int
    decreases i,
{
    if i <= 1 {
        0
    } else {
        let prev = last_of_all(s, largest, i - 1);
        if beyond(s[prev], s[i - 1], largest) { i - 1 } else { prev }
    }
}

proof fn lemma_first_reaching(s: Seq<i64>, k: int, largest: bool, i: int)
    requires
        0 <= i <= s.len(),
    ensures
        match first_reaching(s, k, largest, i) {
            None => forall|q: int| 0 <= q < i ==> count_reaching(s, s[q], largest) < k,
            Some(p) => {
                &&& 0 <= p < i
                &&& count_reaching(s, s[p], largest) >= k
                &&& forall|q: int| 0 <= q < i && count_reaching(s, s[q], largest) >= k ==> !beyond(s[q], s[p], largest)
            },
        },
    decreases i,
{
    if i > 0 {
        lemma_first_reaching(s, k, largest, i - 1);
    }
}

proof fn lemma_last_beyond(s: Seq<i64>, v: i64, largest: bool, i: int)
    requires
        0 <= i <= s.len(),
    ensures
        match last_beyond(s, v, largest, i) {
            None => forall|q: int| 0 <= q < i ==> !beyond(s[q], v, largest),
            Some(p) => {
                &&& 0 <= p < i
                &&& beyond(s[p], v, largest)
                &&& forall|q: int| 0 <= q < i && beyond(s[q], v, largest) ==> !beyond(s[p], s[q], largest)
            },
        },
    decreases i,
{
    if i > 0 {
        lemma_last_beyond(s, v, largest, i - 1);
    }
}

proof fn lemma_last_of_all(s: Seq<i64>, largest: bool, i: int)
    requires
        1 <= i <= s.len(),
    ensures
        0 <= last_of_all(s, largest, i) < i,
        forall|q: int| 0 <= q < i ==> !beyond(s[last_of_all(s, largest, i)], s[q], largest),
    decreases i,
{
    if i > 1 {
        lemma_last_of_all(s, largest, i - 1);
        let prev = last_of_all(s, largest, i - 1);
        let r = last_of_all(s, largest, i);
        assert(r == if beyond(s[prev], s[i - 1], largest) { i - 1 } else { prev });
        assert forall|q: int| 0 <= q < i implies !beyond(s[r], s[q], largest) by {
            if q < i - 1 {
                assert(!beyond(s[prev], s[q], largest));
            }
        }
    }
}

/// A value that every value reaches is reached by all of them.
proof fn lemma_count_reaching_all(s: Seq<i64>, v: i64, largest: bool)
    requires
        forall|q: int| 0 <= q < s.len() ==> (s[q] == v || beyond(s[q], v, largest)),
    ensures
        count_reaching(s, v, largest) == s.len(),
    decreases s.len(),
{
    if s.len() > 0 {
        let t = s.drop_last();
        assert forall|q: int| 0 <= q < t.len() implies (t[q] == v || beyond(t[q], v, largest)) by {
            assert(t[q] == s[q]);
        }
        lemma_count_reaching_all(t, v, largest);
    }
}

/// Counting the values that reach `w` counts those that come before `v`,
/// when these are the same values.
proof fn lemma_count_same(s: Seq<i64>, v: i64, w: i64, largest: bool)
    requires
        forall|q: int| 0 <= q < s.len() ==> ((s[q] == w || beyond(s[q], w, largest)) <==> beyond(s[q], v, largest)),
    ensures
        count_reaching(s, w, largest) == count_beyond(s, v, largest),
    decreases s.len(),
{
    if s.len() > 0 {
        let t = s.drop_last();
        assert forall|q: int| 0 <= q < t.len() implies ((t[q] == w || beyond(t[q], w, largest)) <==> beyond(t[q], v, largest)) by {
            assert(t[q] == s[q]);
        }
        lemma_count_same(t, v, w, largest);
    }
}

proof fn lemma_count_bounds(s: Seq<i64>, v: i64, largest: bool)
    ensures
        count_beyond(s, v, largest) <= count_reaching(s, v, largest) <= s.len(),
    decreases s.len(),
{
    if s.len() > 0 {
        lemma_count_bounds(s.drop_last(), v, largest);
    }
}

/// For every `k` from 1 to the number of values, some value is the `k`-th.
pub proof fn lemma_kth_exists(s: Seq<i64>, k: int, largest: bool)
    requires
        1 <= k <= s.len(),
    ensures
        exists|p: int| is_kth(s, k, largest, p),
{
    let n = s.len() as int;
    lemma_last_of_all(s, largest, n);
    let m = last_of_all(s, largest, n);
    assert forall|q: int| 0 <= q < n implies (s[q] == s[m] || beyond(s[q], s[m], largest)) by {
        assert(!beyond(s[m], s[q], largest));
    }
    lemma_count_reaching_all(s, s[m], largest);
    lemma_first_reaching(s, k, largest, n);
    let p = first_reaching(s, k, largest, n)->Some_0;
    lemma_count_bounds(s, s[p], largest);
    if count_beyond(s, s[p], largest) >= k {
        lemma_last_beyond(s, s[p], largest, n);
        if last_beyond(s, s[p], largest, n) is None {
            lemma_count_same_none(s, s[p], largest);
        } else {
            let q = last_beyond(s, s[p], largest, n)->Some_0;
            assert forall|x: int| 0 <= x < n implies ((s[x] == s[q] || beyond(s[x], s[q], largest)) <==> beyond(s[x], s[p], largest)) by {
                if beyond(s[x], s[p], largest) {
                    assert(!beyond(s[q], s[x], largest));
                }
            }
            lemma_count_same(s, s[p], s[q], largest);
            assert(count_reaching(s, s[q], largest) >= k);
            assert(!beyond(s[q], s[p], largest));
        }
    }
    assert(is_kth(s, k, largest, p));
}

/// With no value coming before `v`, none is counted.
proof fn lemma_count_same_none(s: Seq<i64>, v: i64, largest: bool)
    requires
        forall|q: int| 0 <= q < s.len() ==> !beyond(s[q], v, largest),
    ensures
        count_beyond(s, v, largest) == 0,
    decreases s.len(),
{
    if s.len() > 0 {
        let t = s.drop_last();
        assert forall|q: int| 0 <= q < t.len() implies !beyond(t[q], v, largest) by {
            assert(t[q] == s[q]);
        }
        lemma_count_same_none(t, v, largest);
    }
}

/// How many values come before `v`, and how many come before it or equal it.
fn counts_around(values: &Vec<i64>, v: i64, largest: bool) -> (r: (usize, usize))
    ensures
        r.0 == count_beyond(values@, v, largest),
        r.1 == count_reaching(values@, v, largest),
{
    let mut before: usize = 0;
    let mut reaching: usize = 0;
    let mut i: usize = 0;
    assert(values@.take(0) =~= Seq::<i64>::empty());
    while i < values.len()
        invariant
            i <= values.len(),
            before == count_beyond(values@.take(i as int), v, largest),
            reaching == count_reaching(values@.take(i as int), v, largest),
        decreases values.len() - i,
    {
        assert(values@.take(i + 1).drop_last() =~= values@.take(i as int));
        proof {
            lemma_count_bounds(values@.take(i as int), v, largest);
        }
        let x = values[i];
        let ahead = if largest { x > v } else { x < v };
        if ahead {
            before = before + 1;
        }
        if ahead || x == v {
            reaching = reaching + 1;
        }
        i = i + 1;
    }
    assert(values@.take(i as int) =~= values@);
    (before, reaching)
}

/// The first position whose value is the `k`-th in the order of the
/// function.
pub fn kth_position(values: &Vec<i64>, k: usize, largest: bool) -> (p: usize)
    requires
        1 <= k <= values@.len(),
    ensures
        is_kth(values@, k as int, largest, p as int),
        forall|q: int| 0 <= q < p ==> !is_kth(values@, k as int, largest, q),
{
    proof {
        lemma_kth_exists(values@, k as int, largest);
    }
    let mut p: usize = 0;
    while p < values.len()
        invariant
            p <= values.len(),
            1 <= k <= values@.len(),
            exists|q: int| is_kth(values@, k as int, largest, q),
            forall|q: int| 0 <= q < p ==> !is_kth(values@, k as int, largest, q),
        decreases values.len() - p,
    {
        let (before, reaching) = counts_around(values, values[p], largest);
        if before < k && k <= reaching {
            return p;
        }
        p = p + 1;
    }
    proof {
        let q = choose|q: int| is_kth(values@, k as int, largest, q);
        assert(!is_kth(values@, k as int, largest, q));
    }
    0
}

/// What LARGE (`largest`) or SMALL gives for `values` and the `k` argument
/// (truncated): the position of its value, or the error.
pub open spec fn kth_spec(values: Seq<i64>, k: int, largest: bool, p: int) -> bool {
    &&& 1 <= k <= values.len()
    &&& is_kth(values, k, largest, p)
    &&& forall|q: int| 0 <= q < p ==> !is_kth(values, k, largest, q)
}

fn kth_value(values: &Vec<i64>, k: i64, largest: bool, empty_message: &str) -> (r: Result<usize, CalcError>)
    ensures
        match r {
            Ok(p) => kth_spec(values@, k as int, largest, p as int),
            Err(e) => e.error == Error::NUM && if k < 1 {
                e.message@ == "K must be >= 1"@
            } else if values@.len() == 0 {
                e.message@ == empty_message@
            } else {
                k > values@.len() && e.message@ == "K is larger than the number of data points"@
            },
        },
{
    if k < 1 {
        return Err(new_error(Error::NUM, "K must be >= 1"));
    }
    if values.len() == 0 {
        return Err(new_error(Error::NUM, empty_message));
    }
    if k as u64 > values.len() as u64 {
        return Err(new_error(Error::NUM, "K is larger than the number of data points"));
    }
    let p = kth_position(values, k as usize, largest);
    Ok(p)
}

/// `=LARGE(array, k)`: the position in `values` (the keys of the numbers of
/// `array`) of the `k`-th largest value, the first such position.
pub fn fn_large(values: &Vec<i64>, k: i64) -> (r: Result<usize, CalcError>)
    ensures
        match r {
            Ok(p) => kth_spec(values@, k as int, true, p as int),
            Err(e) => e.error == Error::NUM && if k < 1 {
                e.message@ == "K must be >= 1"@
            } else if values@.len() == 0 {
                e.message@ == "No numeric values for LARGE"@
            } else {
                k > values@.len() && e.message@ == "K is larger than the number of data points"@
            },
        },
{
    kth_value(values, k, true, "No numeric values for LARGE")
}

/// `=SMALL(array, k)`: the position in `values` (the keys of the numbers of
/// `array`) of the `k`-th smallest value, the first such position.
pub fn fn_small(values: &Vec<i64>, k: i64) -> (r: Result<usize, CalcError>)
    ensures
        match r {
            Ok(p) => kth_spec(values@, k as int, false, p as int),
            Err(e) => e.error == Error::NUM && if k < 1 {
                e.message@ == "K must be >= 1"@
            } else if values@.len() == 0 {
                e.message@ == "No numeric values for SMALL"@
            } else {
                k > values@.len() && e.message@ == "K is larger than the number of data points"@
            },
        },
{
    kth_value(values, k, false, "No numeric values for SMALL")
}

/// `=MEDIAN(number1, [number2], ...)`: the positions in `values` (the keys
/// of the numbers) of the two middle values in ascending order, the same
/// position twice for an odd count; the median is their average.
/// `#NUM!` without values.
pub fn median_positions(values: &Vec<i64>) -> (r: Result<(usize, usize), CalcError>)
    ensures
        match r {
            Ok((p, q)) => values@.len() > 0
                && kth_spec(values@, (values@.len() as int + 1) / 2, false, p as int)
                && kth_spec(values@, values@.len() as int / 2 + 1, false, q as int),
            Err(e) => values@.len() == 0 && e.error == Error::NUM && e.message@ == "No numeric values for MEDIAN"@,
        },
{
    let n = values.len();
    if n == 0 {
        return Err(new_error(Error::NUM, "No numeric values for MEDIAN"));
    }
    let low = kth_position(values, (n - 1) / 2 + 1, false);
    let high = kth_position(values, n / 2 + 1, false);
    Ok((low, high))
}

proof fn lemma_counts_complement(s: Seq<i64>, v: i64)
    ensures
        count_beyond(s, v, true) + count_reaching(s, v, false) == s.len(),
        count_reaching(s, v, true) + count_beyond(s, v, false) == s.len(),
    decreases s.len(),
{
    if s.len() > 0 {
        lemma_counts_complement(s.drop_last(), v);
    }
}

proof fn lemma_counts_monotone(s: Seq<i64>, v: i64, w: i64)
    requires
        v < w,
    ensures
        count_reaching(s, v, false) <= count_beyond(s, w, false),
    decreases s.len(),
{
    if s.len() > 0 {
        lemma_counts_monotone(s.drop_last(), v, w);
    }
}

/// SMALL and LARGE count from opposite ends: the `k`-th smallest value of
/// `n` values is the `(n + 1 - k)`-th largest.
pub proof fn law_small_is_large_from_the_other_end(s: Seq<i64>, k: int, p: int, q: int)
    requires
        1 <= k <= s.len(),
        is_kth(s, k, false, p),
        is_kth(s, s.len() + 1 - k, true, q),
    ensures
        s[p] == s[q],
{
    let v = s[p];
    let w = s[q];
    lemma_counts_complement(s, w);
    if v < w {
        lemma_counts_monotone(s, v, w);
    } else if w < v {
        lemma_counts_monotone(s, w, v);
    }
}

} // verus!
