//! RANK.EQ and RANK.AVG: the place of a number among a list of numbers.
//!
//! Numbers are given by keys that order them as the numbers do; `None`
//! stands for a value that is not a number (NaN), which ranks nowhere.
use vstd::prelude::*;
use crate::types::{new_error, CalcError, Error};

verus! {

/// `v` ranks before `number`: greater when the order is descending, smaller
/// when it is ascending.
pub open spec fn ranks_before(v: Option<i64>, number: Option<i64>, descending: bool) -> bool {
    match (v, number) {
        (Some(a), Some(b)) => if descending { a > b } else { a < b },
        _ => false,
    }
}

/// `v` is the same number as `number`.
pub open spec fn ranks_equal(v: Option<i64>, number: Option<i64>) -> bool {
    v is Some && v == number
}

/// How many values of `s` rank before `number`, and how many equal it.
pub open spec fn rank_tally_spec(s: Seq<Option<i64>>, number: Option<i64>, descending: bool) -> (nat, nat)
    decreases s.len(),
{
    if s.len() == 0 {
        (0, 0)
    } else {
        let (b, e) = rank_tally_spec(s.drop_last(), number, descending);
        (
            b + if ranks_before(s.last(), number, descending) { 1nat } else { 0nat },
            e + if ranks_equal(s.last(), number) { 1nat } else { 0nat },
        )
    }
}

proof fn lemma_rank_tally_bound(s: Seq<Option<i64>>, number: Option<i64>, descending: bool)
    ensures
        rank_tally_spec(s, number, descending).0 + rank_tally_spec(s, number, descending).1 <= s.len(),
    decreases s.len(),
{
    if s.len() > 0 {
        lemma_rank_tally_bound(s.drop_last(), number, descending);
    }
}

/// How many of `values` rank before `number`, and how many equal it.
pub fn rank_tally(number: Option<i64>, values: &Vec<Option<i64>>, descending: bool) -> (r: (usize, usize))
    ensures
        (r.0 as nat, r.1 as nat) == rank_tally_spec(values@, number, descending),
{
    let mut better: usize = 0;
    let mut equal: usize = 0;
    let mut i: usize = 0;
    assert(values@.take(0) =~= Seq::<Option<i64>>::empty());
    while i < values.len()
        invariant
            i <= values.len(),
            (better as nat, equal as nat) == rank_tally_spec(values@.take(i as int), number, descending),
        decreases values.len() - i,
    {
        assert(values@.take(i + 1).drop_last() =~= values@.take(i as int));
        proof {
            lemma_rank_tally_bound(values@.take(i as int), number, descending);
        }
        match (values[i], number) {
            (Some(v), Some(n)) => {
                if (descending && v > n) || (!descending && v < n) {
                    better = better + 1;
                } else if v == n {
                    equal = equal + 1;
                }
            },
            _ => {},
        }
        i = i + 1;
    }
    assert(values@.take(i as int) =~= values@);
    (better, equal)
}

/// `=RANK.EQ(number, ref, [order])`: one more than the number of values that
/// rank before `number` (`descending` when the order is 0, the default).
/// `#NUM!` when `ref` has no values, `#N/A` when `number` is not among them.
pub fn fn_rank_eq(number: Option<i64>, values: &Vec<Option<i64>>, descending: bool) -> (r: Result<usize, CalcError>)
    ensures
        match r {
            Ok(rank) => values@.len() > 0 && rank_tally_spec(values@, number, descending).1 > 0
                && rank == rank_tally_spec(values@, number, descending).0 + 1,
            Err(e) => if values@.len() == 0 {
                e.error == Error::NUM && e.message@ == "No numeric values for RANK.EQ"@
            } else {
                rank_tally_spec(values@, number, descending).1 == 0 && e.error == Error::NA
                    && e.message@ == "Number not found in reference for RANK.EQ"@
            },
        },
{
    if values.len() == 0 {
        return Err(new_error(Error::NUM, "No numeric values for RANK.EQ"));
    }
    let (better, equal) = rank_tally(number, values, descending);
    if equal == 0 {
        return Err(new_error(Error::NA, "Number not found in reference for RANK.EQ"));
    }
    proof {
        lemma_rank_tally_bound(values@, number, descending);
    }
    Ok(better + 1)
}

/// `=RANK.AVG(number, ref, [order])`: the values that rank before `number`
/// and the values equal to it; the rank is the average of the places that
/// the equal values take, `better + (equal + 1) / 2`. `#NUM!` when `ref`
/// has no values, `#N/A` when `number` is not among them.
pub fn fn_rank_avg(number: Option<i64>, values: &Vec<Option<i64>>, descending: bool) -> (r: Result<(usize, usize), CalcError>)
    ensures
        match r {
            Ok((better, equal)) => values@.len() > 0 && equal > 0
                && (better as nat, equal as nat) == rank_tally_spec(values@, number, descending),
            Err(e) => if values@.len() == 0 {
                e.error == Error::NUM && e.message@ == "No numeric values for RANK.AVG"@
            } else {
                rank_tally_spec(values@, number, descending).1 == 0 && e.error == Error::NA
                    && e.message@ == "Number not found in reference for RANK.AVG"@
            },
        },
{
    if values.len() == 0 {
        return Err(new_error(Error::NUM, "No numeric values for RANK.AVG"));
    }
    let (better, equal) = rank_tally(number, values, descending);
    if equal == 0 {
        return Err(new_error(Error::NA, "Number not found in reference for RANK.AVG"));
    }
    Ok((better, equal))
}

} // verus!
