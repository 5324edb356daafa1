//! The argument checks of COUNTIFS, AVERAGEIFS, MINIFS and MAXIFS: how many
//! arguments they take, and which of their arguments must be ranges.
use vstd::prelude::*;
use vstd::string::*;
use crate::types::{args_number_error, new_error, CalcError, Error, Range};

verus! {

/// An argument that must be a range, as it evaluated.
pub enum RangeArgument {
    Range(Range),
    Error(CalcError),
    Other,
}

/// The error an evaluated argument gives where a range is expected, if any:
/// an error is passed on, a range must lie on one sheet, and anything else
/// is refused.
pub open spec fn range_argument_error(a: RangeArgument) -> Option<(Error, Seq<char>)> {
    match a {
        RangeArgument::Range(r) => if r.left.sheet != r.right.sheet {
            Some((Error::VALUE, "Ranges are in different sheets"@))
        } else {
            None
        },
        RangeArgument::Error(e) => Some((e.error, e.message@)),
        RangeArgument::Other => Some((Error::VALUE, "Expected a range"@)),
    }
}

/// The range an argument holds (meaningful for a `Range` only).
pub open spec fn argument_range(a: RangeArgument) -> Range {
    match a {
        RangeArgument::Range(r) => r,
        _ => arbitrary(),
    }
}

/// `i` is the first argument that is not an acceptable range.
pub open spec fn first_bad_argument(args: Seq<RangeArgument>, i: int) -> bool {
    &&& 0 <= i < args.len()
    &&& range_argument_error(args[i]) is Some
    &&& forall|j: int| 0 <= j < i ==> range_argument_error(#[trigger] args[j]) is None
}

/// Checks, in the order they are evaluated, the arguments that must be
/// ranges: the first one that is not gives its error; otherwise the ranges.
pub fn criteria_ranges(args: &Vec<RangeArgument>) -> (r: Result<Vec<Range>, CalcError>)
    ensures
        match r {
            Ok(v) => {
                &&& forall|i: int| 0 <= i < args@.len() ==> range_argument_error(#[trigger] args@[i]) is None
                &&& v@.len() == args@.len()
                &&& forall|i: int| 0 <= i < args@.len() ==> v@[i] == argument_range(#[trigger] args@[i])
            },
            Err(e) => exists|i: int| #[trigger] first_bad_argument(args@, i)
                && range_argument_error(args@[i]) == Some((e.error, e.message@)),
        },
{
    let mut ranges: Vec<Range> = Vec::new();
    let mut k: usize = 0;
    while k < args.len()
        invariant
            k <= args@.len(),
            ranges@.len() == k,
            forall|j: int| 0 <= j < k ==> range_argument_error(#[trigger] args@[j]) is None,
            forall|j: int| 0 <= j < k ==> ranges@[j] == argument_range(#[trigger] args@[j]),
        decreases args@.len() - k,
    {
        match &args[k] {
            RangeArgument::Range(r) => {
                if r.left.sheet != r.right.sheet {
                    let e = new_error(Error::VALUE, "Ranges are in different sheets");
                    proof {
                        reveal_strlit("Ranges are in different sheets");
                        assert(first_bad_argument(args@, k as int));
                    }
                    return Err(e);
                }
                ranges.push(*r);
            },
            RangeArgument::Error(e) => {
                let out = CalcError { error: e.error, message: e.message.clone() };
                proof {
                    assert(first_bad_argument(args@, k as int));
                }
                return Err(out);
            },
            RangeArgument::Other => {
                let e = new_error(Error::VALUE, "Expected a range");
                proof {
                    reveal_strlit("Expected a range");
                    assert(first_bad_argument(args@, k as int));
                }
                return Err(e);
            },
        }
        k = k + 1;
    }
    Ok(ranges)
}

/// COUNTIFS takes pairs of a criteria range and a criterion: the number of
/// pairs, or the wrong-number-of-arguments error.
pub fn countifs_case_count(arg_count: usize) -> (r: Result<usize, CalcError>)
    ensures
        match r {
            Ok(n) => arg_count >= 2 && arg_count % 2 == 0 && n == arg_count / 2,
            Err(e) => (arg_count < 2 || arg_count % 2 == 1) && e.error == Error::ERROR
                && e.message@ == "Wrong number of arguments"@,
        },
{
    if arg_count < 2 || arg_count % 2 == 1 {
        return Err(args_number_error());
    }
    Ok(arg_count / 2)
}

/// AVERAGEIFS, MINIFS and MAXIFS take a range and then pairs of a criteria
/// range and a criterion: the number of pairs, or the
/// wrong-number-of-arguments error.
pub fn ifs_case_count(arg_count: usize) -> (r: Result<usize, CalcError>)
    ensures
        match r {
            Ok(n) => arg_count >= 3 && arg_count % 2 == 1 && n == (arg_count - 1) / 2,
            Err(e) => (arg_count < 3 || arg_count % 2 == 0) && e.error == Error::ERROR
                && e.message@ == "Wrong number of arguments"@,
        },
{
    if arg_count < 3 || arg_count % 2 == 0 {
        return Err(args_number_error());
    }
    Ok((arg_count - 1) / 2)
}

} // verus!
