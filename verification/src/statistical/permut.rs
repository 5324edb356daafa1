//! PERMUT and PERMUTATIONA: the checks on their arguments.
use vstd::prelude::*;
use crate::types::{new_error, CalcError, Error};

verus! {

/// `=PERMUT(number, number_chosen)` accepts `0 <= k <= n` (both rounded
/// down); the count of permutations `n * (n - 1) * ... * (n - k + 1)` is
/// then a product of the numbers `n - k + 1 ..= n`.
pub fn permut_check(n: i64, k: i64) -> (r: Result<(), CalcError>)
    ensures
        match r {
            Ok(()) => 0 <= k <= n,
            Err(e) => !(0 <= k <= n) && e.error == Error::NUM && e.message@ == "PERMUT: requires 0 ≤ k ≤ n"@,
        },
{
    if n < 0 || k < 0 || k > n {
        return Err(new_error(Error::NUM, "PERMUT: requires 0 ≤ k ≤ n"));
    }
    Ok(())
}

/// `=PERMUTATIONA(number, number_chosen)` accepts `n >= 0` and `k >= 0`
/// (both rounded down); the count is then `n` to the power `k`.
pub fn permutationa_check(n: i64, k: i64) -> (r: Result<(), CalcError>)
    ensures
        match r {
            Ok(()) => n >= 0 && k >= 0,
            Err(e) => (n < 0 || k < 0) && e.error == Error::NUM && e.message@ == "PERMUTATIONA: requires n ≥ 0 and k ≥ 0"@,
        },
{
    if n < 0 || k < 0 {
        return Err(new_error(Error::NUM, "PERMUTATIONA: requires n ≥ 0 and k ≥ 0"));
    }
    Ok(())
}

} // verus!
