//! MODE.SNGL and MODE.MULT: the values that occur most often.
//!
//! Values are given by keys that are equal exactly when the values are the
//! same (the bit patterns of the numbers).
use vstd::prelude::*;
use crate::types::{new_error, CalcError, Error};

verus! {

/// How often `x` occurs in `s`.
pub open spec fn occurrences(s: Seq<u64>, x: u64) -> nat
    decreases s.len(),
{
    if s.len() == 0 {
        0
    } else {
        occurrences(s.drop_last(), x) + if s.last() == x { 1nat } else { 0nat }
    }
}

/// The distinct values of `s`, in the order in which each first occurs.
pub open spec fn distinct_values(s: Seq<u64>) -> Seq<u64>
    decreases s.len(),
{
    if s.len() == 0 {
        Seq::empty()
    } else {
        let d = distinct_values(s.drop_last());
        if d.contains(s.last()) {
            d
        } else {
            d.push(s.last())
        }
    }
}

/// The largest number of `t` (zero for none).
pub open spec fn seq_max(t: Seq<nat>) -> nat
    decreases t.len(),
{
    if t.len() == 0 {
        0
    } else {
        let m = seq_max(t.drop_last());
        if t.last() > m {
            t.last()
        } else {
            m
        }
    }
}

/// How often the most frequent value of `s` occurs (zero when `s` is empty).
pub open spec fn max_occurrences(s: Seq<u64>) -> nat {
    seq_max(distinct_values(s).map_values(|x: u64| occurrences(s, x)))
}

/// The values of `s` that occur most often, each once, in the order in
/// which they first occur.
pub open spec fn modes_spec(s: Seq<u64>) -> Seq<u64> {
    distinct_values(s).filter(|x: u64| occurrences(s, x) == max_occurrences(s))
}

proof fn lemma_occurrences_bound(s: Seq<u64>, x: u64)
    ensures
        occurrences(s, x) <= s.len(),
        occurrences(s, x) > 0 <==> s.contains(x),
    decreases s.len(),
{
    if s.len() > 0 {
        lemma_occurrences_bound(s.drop_last(), x);
        if s.drop_last().contains(x) {
            let i = choose|i: int| 0 <= i < s.drop_last().len() && s.drop_last()[i] == x;
            assert(s[i] == x);
        }
        if s.contains(x) && s.last() != x {
            let i = choose|i: int| 0 <= i < s.len() && s[i] == x;
            assert(s.drop_last()[i] == x);
        }
    }
}

proof fn lemma_distinct_values(s: Seq<u64>)
    ensures
        distinct_values(s).no_duplicates(),
        forall|x: u64| #[trigger] distinct_values(s).contains(x) <==> s.contains(x),
    decreases s.len(),
{
    if s.len() > 0 {
        let p = s.drop_last();
        lemma_distinct_values(p);
        let d = distinct_values(p);
        assert forall|x: u64| #[trigger] distinct_values(s).contains(x) <==> s.contains(x) by {
            if s.contains(x) && x != s.last() {
                let i = choose|i: int| 0 <= i < s.len() && s[i] == x;
                assert(p[i] == x);
                assert(p.contains(x));
            }
            if p.contains(x) {
                let i = choose|i: int| 0 <= i < p.len() && p[i] == x;
                assert(s[i] == x);
            }
            assert(s[s.len() - 1] == s.last());
            assert(s.contains(x) <==> (p.contains(x) || x == s.last()));
            if !d.contains(s.last()) {
                assert(d.push(s.last())[d.len() as int] == s.last());
                if d.push(s.last()).contains(x) && x != s.last() {
                    let i = choose|i: int| 0 <= i < d.push(s.last()).len() && d.push(s.last())[i] == x;
                    assert(d[i] == x);
                }
                if d.contains(x) {
                    let i = choose|i: int| 0 <= i < d.len() && d[i] == x;
                    assert(d.push(s.last())[i] == x);
                }
            }
        }
        if !d.contains(s.last()) {
            assert forall|i: int, j: int| 0 <= i < j < d.push(s.last()).len() implies
                d.push(s.last())[i] != d.push(s.last())[j] by {
                if j == d.len() {
                    assert(d.contains(d[i]));
                }
            }
        }
    }
}

proof fn lemma_seq_max(t: Seq<nat>)
    ensures
        forall|i: int| 0 <= i < t.len() ==> #[trigger] t[i] <= seq_max(t),
        t.len() > 0 ==> exists|i: int| 0 <= i < t.len() && t[i] == seq_max(t),
    decreases t.len(),
{
    if t.len() > 0 {
        let p = t.drop_last();
        lemma_seq_max(p);
        assert forall|i: int| 0 <= i < t.len() implies #[trigger] t[i] <= seq_max(t) by {
            if i < t.len() - 1 {
                assert(t[i] == p[i]);
            }
        }
        if t.last() <= seq_max(p) && p.len() > 0 {
            let i = choose|i: int| 0 <= i < p.len() && p[i] == seq_max(p);
            assert(t[i] == seq_max(t));
        } else {
            assert(t[t.len() - 1] == seq_max(t));
        }
    }
}

proof fn lemma_filter_no_duplicates(s: Seq<u64>, p: spec_fn(u64) -> bool)
    requires
        s.no_duplicates(),
    ensures
        s.filter(p).no_duplicates(),
    decreases s.len(),
{
    reveal(Seq::filter);
    if s.len() > 0 {
        let q = s.drop_last();
        assert forall|i: int, j: int| 0 <= i < j < q.len() implies q[i] != q[j] by {
            assert(q[i] == s[i] && q[j] == s[j]);
        }
        lemma_filter_no_duplicates(q, p);
        if p(s.last()) {
            let f = q.filter(p);
            if f.contains(s.last()) {
                q.lemma_filter_contains_rev(p, s.last());
                let i = choose|i: int| 0 <= i < q.len() && q[i] == s.last();
                assert(s[i] == s[s.len() - 1]);
            }
            assert forall|i: int, j: int| 0 <= i < j < f.push(s.last()).len() implies
                f.push(s.last())[i] != f.push(s.last())[j] by {
                if j == f.len() {
                    assert(f.contains(f[i]));
                }
            }
        }
    }
}

/// Whether `x` is among `v`.
fn contains_value(v: &Vec<u64>, x: u64) -> (r: bool)
    ensures
        r == v@.contains(x),
{
    let mut i: usize = 0;
    while i < v.len()
        invariant
            i <= v.len(),
            forall|k: int| 0 <= k < i ==> v@[k] != x,
        decreases v.len() - i,
    {
        if v[i] == x {
            return true;
        }
        i = i + 1;
    }
    false
}

/// How often `x` occurs in `values`.
fn count_occurrences(values: &Vec<u64>, x: u64) -> (r: usize)
    ensures
        r == occurrences(values@, x),
{
    let mut c: usize = 0;
    let mut i: usize = 0;
    assert(values@.take(0) =~= Seq::<u64>::empty());
    while i < values.len()
        invariant
            i <= values.len(),
            c == occurrences(values@.take(i as int), x),
        decreases values.len() - i,
    {
        assert(values@.take(i + 1).drop_last() =~= values@.take(i as int));
        proof {
            lemma_occurrences_bound(values@.take(i as int), x);
        }
        if values[i] == x {
            c = c + 1;
        }
        i = i + 1;
    }
    assert(values@.take(i as int) =~= values@);
    c
}

/// The distinct values of `values` in the order in which each first occurs.
fn distinct_of(values: &Vec<u64>) -> (r: Vec<u64>)
    ensures
        r@ == distinct_values(values@),
{
    let mut d: Vec<u64> = Vec::new();
    let mut i: usize = 0;
    assert(values@.take(0) =~= Seq::<u64>::empty());
    while i < values.len()
        invariant
            i <= values.len(),
            d@ == distinct_values(values@.take(i as int)),
        decreases values.len() - i,
    {
        assert(values@.take(i + 1).drop_last() =~= values@.take(i as int));
        if !contains_value(&d, values[i]) {
            d.push(values[i]);
        }
        i = i + 1;
    }
    assert(values@.take(i as int) =~= values@);
    d
}

/// The values that occur most often in `values`, in the order in which each
/// first occurs, and how often they occur.
pub fn find_modes(values: &Vec<u64>) -> (r: (Vec<u64>, usize))
    ensures
        r.0@ == modes_spec(values@),
        r.1 == max_occurrences(values@),
{
    let d = distinct_of(values);
    let ghost f = |x: u64| occurrences(values@, x);
    let ghost t = d@.map_values(f);
    let mut counts: Vec<usize> = Vec::new();
    let mut best: usize = 0;
    let mut k: usize = 0;
    assert(t.take(0) =~= Seq::<nat>::empty());
    while k < d.len()
        invariant
            k <= d.len(),
            t == d@.map_values(f),
            f == (|x: u64| occurrences(values@, x)),
            counts@.len() == k,
            forall|j: int| 0 <= j < k ==> #[trigger] counts@[j] as int == t[j],
            best == seq_max(t.take(k as int)),
        decreases d.len() - k,
    {
        let c = count_occurrences(values, d[k]);
        assert(t.take(k + 1).drop_last() =~= t.take(k as int));
        assert(t[k as int] == c);
        counts.push(c);
        if c > best {
            best = c;
        }
        k = k + 1;
    }
    assert(t.take(k as int) =~= t);
    let ghost pred = |x: u64| occurrences(values@, x) == max_occurrences(values@);
    let mut modes: Vec<u64> = Vec::new();
    let mut j: usize = 0;
    assert(d@.take(0) =~= Seq::<u64>::empty());
    proof {
        reveal(Seq::filter);
    }
    while j < d.len()
        invariant
            j <= d.len() == counts@.len(),
            t == d@.map_values(f),
            f == (|x: u64| occurrences(values@, x)),
            pred == (|x: u64| occurrences(values@, x) == max_occurrences(values@)),
            forall|i: int| 0 <= i < d.len() ==> #[trigger] counts@[i] as int == t[i],
            best == max_occurrences(values@),
            modes@ == d@.take(j as int).filter(pred),
        decreases d.len() - j,
    {
        assert(d@.take(j + 1).drop_last() =~= d@.take(j as int));
        proof {
            reveal(Seq::filter);
        }
        assert(counts@[j as int] as int == occurrences(values@, d@[j as int]));
        if counts[j] == best {
            modes.push(d[j]);
        }
        j = j + 1;
    }
    assert(d@.take(j as int) =~= d@);
    (modes, best)
}

/// `=MODE.SNGL(number1, [number2], ...)`: the value that occurs most often,
/// the first one seen among equals; `#N/A` with no values, or when no value
/// occurs twice.
pub fn fn_mode_sngl(values: &Vec<u64>) -> (r: Result<u64, CalcError>)
    ensures
        match r {
            Ok(v) => values@.len() > 0 && max_occurrences(values@) >= 2 && v == modes_spec(values@)[0],
            Err(e) => e.error == Error::NA && if values@.len() == 0 {
                e.message@ == "MODE.SNGL: no numeric values"@
            } else {
                max_occurrences(values@) < 2 && e.message@ == "MODE.SNGL: no value appears more than once"@
            },
        },
{
    if values.len() == 0 {
        return Err(new_error(Error::NA, "MODE.SNGL: no numeric values"));
    }
    let (modes, max_count) = find_modes(values);
    if max_count < 2 {
        return Err(new_error(Error::NA, "MODE.SNGL: no value appears more than once"));
    }
    proof {
        law_modes_are_the_most_frequent(values@);
        lemma_occurrences_bound(values@, values@[0]);
        assert(values@.contains(values@[0]));
    }
    Ok(modes[0])
}

/// `=MODE.MULT(number1, [number2], ...)`: every value that occurs most
/// often, in the order in which each first occurs; `#N/A` with no values, or
/// when no value occurs twice.
pub fn fn_mode_mult(values: &Vec<u64>) -> (r: Result<Vec<u64>, CalcError>)
    ensures
        match r {
            Ok(v) => values@.len() > 0 && max_occurrences(values@) >= 2 && v@ == modes_spec(values@),
            Err(e) => e.error == Error::NA && if values@.len() == 0 {
                e.message@ == "MODE.MULT: no numeric values"@
            } else {
                max_occurrences(values@) < 2 && e.message@ == "MODE.MULT: no value appears more than once"@
            },
        },
{
    if values.len() == 0 {
        return Err(new_error(Error::NA, "MODE.MULT: no numeric values"));
    }
    let (modes, max_count) = find_modes(values);
    if max_count < 2 {
        return Err(new_error(Error::NA, "MODE.MULT: no value appears more than once"));
    }
    Ok(modes)
}

/// The modes are exactly the values that occur as often as the most frequent
/// value, each listed once; no value occurs more often; and a non-empty list
/// has at least one mode.
pub proof fn law_modes_are_the_most_frequent(s: Seq<u64>)
    ensures
        forall|x: u64| #[trigger] modes_spec(s).contains(x) <==> (s.contains(x) && occurrences(s, x) == max_occurrences(s)),
        forall|i: int| 0 <= i < s.len() ==> occurrences(s, #[trigger] s[i]) <= max_occurrences(s),
        modes_spec(s).no_duplicates(),
        s.len() > 0 ==> modes_spec(s).len() > 0,
{
    let d = distinct_values(s);
    let f = |x: u64| occurrences(s, x);
    let pred = |x: u64| occurrences(s, x) == max_occurrences(s);
    let t = d.map_values(f);
    lemma_distinct_values(s);
    lemma_seq_max(t);
    broadcast use vstd::seq_lib::group_filter_ensures;
    assert forall|x: u64| #[trigger] modes_spec(s).contains(x) <==> (s.contains(x) && occurrences(s, x) == max_occurrences(s)) by {
        if s.contains(x) && occurrences(s, x) == max_occurrences(s) {
            assert(d.contains(x));
            let i = choose|i: int| 0 <= i < d.len() && d[i] == x;
            assert(pred(d[i]));
        }
        if modes_spec(s).contains(x) {
            let i = choose|i: int| 0 <= i < modes_spec(s).len() && modes_spec(s)[i] == x;
            assert(pred(modes_spec(s)[i]));
            assert(d.filter(pred).contains(x));
            d.lemma_filter_contains_rev(pred, x);
        }
    }
    assert forall|i: int| 0 <= i < s.len() implies occurrences(s, #[trigger] s[i]) <= max_occurrences(s) by {
        assert(s.contains(s[i]));
        assert(d.contains(s[i]));
        let k = choose|k: int| 0 <= k < d.len() && d[k] == s[i];
        assert(t[k] == occurrences(s, s[i]));
    }
    lemma_filter_no_duplicates(d, pred);
    if s.len() > 0 {
        assert(s.contains(s[0]));
        assert(d.contains(s[0]));
        let k = choose|k: int| 0 <= k < t.len() && t[k] == seq_max(t);
        assert(pred(d[k]));
        assert(modes_spec(s).contains(d[k]));
    }
}

} // verus!
