//! FREQUENCY: how many values fall into each interval that a list of bins
//! marks out.
//!
//! Values and bins are given by keys that order them as the numbers do
//! (equal numbers, equal keys).
use vstd::prelude::*;

verus! {

/// Bin `j` is the first bin with its value.
pub open spec fn first_of_value(bins: Seq<i64>, j: int) -> bool {
    forall|k: int| 0 <= k < j ==> bins[k] != bins[j]
}

/// The value `v` falls into bin `j`. For `j` below the number of bins: `j`
/// is the first bin with its value, `v` is at most that value, and every bin
/// below that value is below `v` too. For `j` equal to the number of bins
/// (the last interval): every bin is below `v`.
pub open spec fn in_bin(bins: Seq<i64>, j: int, v: i64) -> bool {
    if j == bins.len() {
        forall|k: int| 0 <= k < bins.len() ==> bins[k] < v
    } else {
        &&& 0 <= j < bins.len()
        &&& first_of_value(bins, j)
        &&& v <= bins[j]
        &&& forall|k: int| 0 <= k < bins.len() && bins[k] < bins[j] ==> bins[k] < v
    }
}

/// How many of `data` fall into bin `j`.
pub open spec fn bin_count(data: Seq<i64>, bins: Seq<i64>, j: int) -> nat
    decreases data.len(),
{
    if data.len() == 0 {
        0
    } else {
        bin_count(data.drop_last(), bins, j) + if in_bin(bins, j, data.last()) { 1nat } else { 0nat }
    }
}

/// Among the first `k` bins, the first one with the smallest value at or
/// above `v`, if any.
pub open spec fn best_bin(bins: Seq<i64>, v: i64, k: int) -> Option<int>
    decreases k,
{
    if k <= 0 {
        None
    } else {
        let prev = best_bin(bins, v, k - 1);
        if v <= bins[k - 1] && (prev is None || bins[k - 1] < bins[prev->Some_0]) {
            Some(k - 1)
        } else {
            prev
        }
    }
}

proof fn lemma_best_bin(bins: Seq<i64>, v: i64, k: int)
    requires
        0 <= k <= bins.len(),
    ensures
        match best_bin(bins, v, k) {
            None => forall|m: int| 0 <= m < k ==> bins[m] < v,
            Some(j) => {
                &&& 0 <= j < k
                &&& v <= bins[j]
                &&& forall|m: int| 0 <= m < k && v <= bins[m] ==> bins[j] <= bins[m] && (bins[m] == bins[j] ==> j <= m)
            },
        },
    decreases k,
{
    if k > 0 {
        lemma_best_bin(bins, v, k - 1);
    }
}

/// Each value falls into exactly one bin, the one `best_bin` finds (the
/// last interval where it finds none).
pub proof fn lemma_bin_of(bins: Seq<i64>, v: i64)
    ensures
        forall|j: int| 0 <= j <= bins.len() ==> (#[trigger] in_bin(bins, j, v) <==> j == match best_bin(bins, v, bins.len() as int) {
            None => bins.len() as int,
            Some(b) => b,
        }),
{
    lemma_best_bin(bins, v, bins.len() as int);
    let n = bins.len() as int;
    match best_bin(bins, v, n) {
        None => {
            assert forall|j: int| 0 <= j < n implies !in_bin(bins, j, v) by {
                assert(bins[j] < v);
            }
        },
        Some(b) => {
            assert(in_bin(bins, b, v));
            assert(!in_bin(bins, n, v)) by {
                assert(!(bins[b] < v));
            }
            assert forall|j: int| 0 <= j < n && in_bin(bins, j, v) implies j == b by {
                assert(!(bins[b] < bins[j]));
                assert(bins[j] <= bins[b]);
                if j < b {
                    assert(bins[j] == bins[b]);
                } else if b < j {
                    assert(bins[b] == bins[j]);
                }
            }
        },
    }
}

/// The bin that `v` falls into.
fn bin_of(bins: &Vec<i64>, v: i64) -> (j: usize)
    ensures
        j <= bins.len(),
        in_bin(bins@, j as int, v),
        forall|m: int| 0 <= m <= bins.len() && in_bin(bins@, m, v) ==> m == j,
{
    let mut best: Option<usize> = None;
    let mut k: usize = 0;
    while k < bins.len()
        invariant
            k <= bins.len(),
            match best {
                None => best_bin(bins@, v, k as int) is None,
                Some(j) => best_bin(bins@, v, k as int) == Some(j as int),
            },
        decreases bins.len() - k,
    {
        proof {
            lemma_best_bin(bins@, v, k as int);
        }
        if v <= bins[k] {
            match best {
                None => {
                    best = Some(k);
                },
                Some(j) => {
                    if bins[k] < bins[j] {
                        best = Some(k);
                    }
                },
            }
        }
        k = k + 1;
    }
    let j = match best {
        None => bins.len(),
        Some(j) => j,
    };
    proof {
        lemma_bin_of(bins@, v);
        lemma_best_bin(bins@, v, k as int);
        assert(in_bin(bins@, j as int, v));
    }
    j
}

proof fn lemma_bin_count_bound(data: Seq<i64>, bins: Seq<i64>, j: int)
    ensures
        bin_count(data, bins, j) <= data.len(),
    decreases data.len(),
{
    if data.len() > 0 {
        lemma_bin_count_bound(data.drop_last(), bins, j);
    }
}

/// `=FREQUENCY(data_array, bins_array)`: for each bin, in the order given,
/// how many values fall into it, and last how many lie above every bin.
/// With no bins, the one count is the number of values.
pub fn frequency_counts(data: &Vec<i64>, bins: &Vec<i64>) -> (r: Vec<usize>)
    ensures
        r@.len() == bins@.len() + 1,
        forall|j: int| 0 <= j <= bins@.len() ==> #[trigger] r@[j] as int == bin_count(data@, bins@, j),
{
    let nb = bins.len();
    let mut counts: Vec<usize> = Vec::new();
    let mut j: usize = 0;
    while j < nb
        invariant
            j <= nb,
            nb == bins.len(),
            counts@.len() == j,
            forall|m: int| 0 <= m < j ==> #[trigger] counts@[m] == 0,
        decreases nb - j,
    {
        counts.push(0);
        j = j + 1;
    }
    counts.push(0);
    assert(data@.take(0) =~= Seq::<i64>::empty());
    let mut i: usize = 0;
    while i < data.len()
        invariant
            i <= data.len(),
            nb == bins.len(),
            counts@.len() == nb + 1,
            forall|m: int| 0 <= m <= nb ==> #[trigger] counts@[m] as int == bin_count(data@.take(i as int), bins@, m),
        decreases data.len() - i,
    {
        let b = bin_of(bins, data[i]);
        assert(data@.take(i + 1).drop_last() =~= data@.take(i as int));
        proof {
            lemma_bin_count_bound(data@.take(i as int), bins@, b as int);
        }
        let c = counts[b];
        counts.set(b, c + 1);
        i = i + 1;
    }
    assert(data@.take(i as int) =~= data@);
    counts
}

/// How many of the bins `0..m` the value `v` falls into.
pub open spec fn bins_hit(bins: Seq<i64>, v: i64, m: int) -> nat
    decreases m,
{
    if m <= 0 {
        0
    } else {
        bins_hit(bins, v, m - 1) + if in_bin(bins, m - 1, v) { 1nat } else { 0nat }
    }
}

/// The counts of bins `0..m`, added up.
pub open spec fn counts_total(data: Seq<i64>, bins: Seq<i64>, m: int) -> nat
    decreases m,
{
    if m <= 0 {
        0
    } else {
        counts_total(data, bins, m - 1) + bin_count(data, bins, m - 1)
    }
}

proof fn lemma_bins_hit_one(bins: Seq<i64>, v: i64, m: int)
    requires
        0 <= m <= bins.len() + 1,
    ensures
        bins_hit(bins, v, m) == if (match best_bin(bins, v, bins.len() as int) {
            None => bins.len() as int,
            Some(b) => b,
        }) < m { 1nat } else { 0nat },
    decreases m,
{
    lemma_bin_of(bins, v);
    lemma_best_bin(bins, v, bins.len() as int);
    if m > 0 {
        lemma_bins_hit_one(bins, v, m - 1);
        assert(in_bin(bins, m - 1, v) == (m - 1 == match best_bin(bins, v, bins.len() as int) {
            None => bins.len() as int,
            Some(b) => b,
        }));
    }
}

proof fn lemma_counts_total_step(data: Seq<i64>, bins: Seq<i64>, m: int)
    requires
        data.len() > 0,
        m >= 0,
    ensures
        counts_total(data, bins, m) == counts_total(data.drop_last(), bins, m) + bins_hit(bins, data.last(), m),
    decreases m,
{
    if m > 0 {
        lemma_counts_total_step(data, bins, m - 1);
    }
}

proof fn lemma_counts_total_empty(data: Seq<i64>, bins: Seq<i64>, m: int)
    requires
        data.len() == 0,
    ensures
        counts_total(data, bins, m) == 0,
    decreases m,
{
    if m > 0 {
        lemma_counts_total_empty(data, bins, m - 1);
    }
}

/// FREQUENCY counts every value exactly once: its counts add up to the
/// number of values.
pub proof fn law_frequency_counts_every_value(data: Seq<i64>, bins: Seq<i64>)
    ensures
        counts_total(data, bins, (bins.len() + 1) as int) == data.len(),
    decreases data.len(),
{
    if data.len() == 0 {
        lemma_counts_total_empty(data, bins, (bins.len() + 1) as int);
    } else {
        law_frequency_counts_every_value(data.drop_last(), bins);
        lemma_counts_total_step(data, bins, (bins.len() + 1) as int);
        lemma_bins_hit_one(bins, data.last(), (bins.len() + 1) as int);
        lemma_best_bin(bins, data.last(), bins.len() as int);
    }
}

} // verus!
