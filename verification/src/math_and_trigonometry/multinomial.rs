//! MULTINOMIAL: the checks on its arguments and the counts it reads from
//! them.
use vstd::prelude::*;
use vstd::string::*;
use crate::types::{new_error, CalcError, Error};

verus! {

/// One value read from the arguments of MULTINOMIAL, in order: scalar
/// arguments, the cells of ranges and the elements of arrays.
pub enum MultinomialItem {
    /// A number: whether it is below zero, and its value truncated toward
    /// zero.
    Number { negative: bool, truncated: u64 },
    /// An empty cell or argument, read as 0.
    Empty,
    /// An error value of an argument or of a range cell, passed on unchanged.
    ErrorValue { error: Error, message: String },
    /// An error element of an array, passed on with no message.
    ArrayError(Error),
    /// A range whose two corners are in different sheets.
    RangeInDifferentSheets,
    /// Any other value (a text, a boolean).
    NonNumeric,
}

/// What one item adds to the counts, or the error it gives.
pub open spec fn item_count(item: MultinomialItem) -> Result<u64, (Error, Seq<char>)> {
    match item {
        MultinomialItem::Number { negative, truncated } => if negative {
            Err((Error::NUM, "MULTINOMIAL requires non-negative values"@))
        } else {
            Ok(truncated)
        },
        MultinomialItem::Empty => Ok(0u64),
        MultinomialItem::ErrorValue { error, message } => Err((error, message@)),
        MultinomialItem::ArrayError(e) => Err((e, Seq::empty())),
        MultinomialItem::RangeInDifferentSheets => Err((Error::VALUE, "Ranges are in different sheets"@)),
        MultinomialItem::NonNumeric => Err((Error::VALUE, "MULTINOMIAL requires numeric values"@)),
    }
}

/// The counts read from the items in order, or the first error.
pub open spec fn multinomial_counts(items: Seq<MultinomialItem>) -> Result<Seq<u64>, (Error, Seq<char>)>
    decreases items.len(),
{
    if items.len() == 0 {
        Ok(Seq::empty())
    } else {
        match multinomial_counts(items.drop_last()) {
            Err(e) => Err(e),
            Ok(counts) => match item_count(items.last()) {
                Err(e) => Err(e),
                Ok(c) => Ok(counts.push(c)),
            },
        }
    }
}

proof fn lemma_counts_failure_stays(items: Seq<MultinomialItem>, i: int)
    requires
        0 <= i <= items.len(),
        multinomial_counts(items.take(i)) is Err,
    ensures
        multinomial_counts(items) == multinomial_counts(items.take(i)),
    decreases items.len() - i,
{
    if i < items.len() {
        assert(items.take(i + 1).drop_last() =~= items.take(i));
        lemma_counts_failure_stays(items, i + 1);
    } else {
        assert(items.take(i) =~= items);
    }
}

/// `=MULTINOMIAL(number1, [number2], ...)`: the counts `n1, n2, ...` whose
/// multinomial coefficient `(n1 + n2 + ...)! / (n1! n2! ...)` the function
/// returns, or the first error among its values.
pub fn multinomial_values(items: &Vec<MultinomialItem>) -> (r: Result<Vec<u64>, CalcError>)
    ensures
        match r {
            Ok(v) => multinomial_counts(items@) == Ok::<Seq<u64>, (Error, Seq<char>)>(v@),
            Err(e) => multinomial_counts(items@) == Err::<Seq<u64>, (Error, Seq<char>)>((e.error, e.message@)),
        },
{
    let mut values: Vec<u64> = Vec::new();
    let mut i: usize = 0;
    assert(items@.take(0) =~= Seq::<MultinomialItem>::empty());
    while i < items.len()
        invariant
            i <= items.len(),
            multinomial_counts(items@.take(i as int)) == Ok::<Seq<u64>, (Error, Seq<char>)>(values@),
        decreases items.len() - i,
    {
        assert(items@.take(i + 1).drop_last() =~= items@.take(i as int));
        assert(items@.take(i + 1).last() == items@[i as int]);
        let step: Result<u64, CalcError> = match &items[i] {
            MultinomialItem::Number { negative, truncated } => if *negative {
                Err(new_error(Error::NUM, "MULTINOMIAL requires non-negative values"))
            } else {
                Ok(*truncated)
            },
            MultinomialItem::Empty => Ok(0),
            MultinomialItem::ErrorValue { error, message } => Err(CalcError { error: *error, message: message.clone() }),
            MultinomialItem::ArrayError(e) => Err(new_error(*e, "")),
            MultinomialItem::RangeInDifferentSheets => Err(new_error(Error::VALUE, "Ranges are in different sheets")),
            MultinomialItem::NonNumeric => Err(new_error(Error::VALUE, "MULTINOMIAL requires numeric values")),
        };
        proof {
            reveal_strlit("");
            assert(""@ =~= Seq::<char>::empty());
        }
        assert(match step {
            Ok(c) => item_count(items@[i as int]) == Ok::<u64, (Error, Seq<char>)>(c),
            Err(e) => item_count(items@[i as int]) == Err::<u64, (Error, Seq<char>)>((e.error, e.message@)),
        });
        match step {
            Ok(c) => {
                values.push(c);
            },
            Err(e) => {
                proof {
                    lemma_counts_failure_stays(items@, i + 1);
                }
                return Err(e);
            },
        }
        i = i + 1;
    }
    assert(items@.take(i as int) =~= items@);
    Ok(values)
}

} // verus!
