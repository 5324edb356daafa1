//! The walk over the values of the arguments of the statistical functions
//! (AVERAGE and the others that take every value, their "A" forms, AVERAGEA,
//! VAR.S, VAR.P, AVEDEV and DEVSQ): which values are taken, which errors are
//! passed on or raised, and when there are too few numbers. The arithmetic
//! on the numbers is done by the caller.
use vstd::prelude::*;
use vstd::string::*;
use crate::types::{args_number_error, new_error, CalcError, Error};

verus! {

/// The walks over the values, by the function that makes them.
#[derive(Clone, Copy, Debug, PartialEq, Eq, Structural)]
pub enum StatKind {
    /// VAR.S (`sample`) or VAR.P.
    Var { sample: bool },
    AveDev,
    DevSq,
    /// AVERAGE: the plain walk, and #DIV/0! when it finds no number.
    Average,
    /// The plain walk over every value (MEDIAN and the others).
    Values,
    /// The walk of the "A" functions: booleans and texts of ranges and
    /// arrays count too.
    ValuesA,
    AverageA,
}

/// One item produced while reading the arguments, in order: scalar
/// arguments, then for a range its start and its cells, for an array its
/// start and its elements.
pub enum StatItem<N> {
    /// A number: an argument, a cell of a range or an element of an array.
    Number(N),
    /// A boolean written in the formula.
    Boolean(bool),
    /// A boolean argument read through a reference.
    ReferencedBoolean(bool),
    /// A text written in the formula: the number it parses to, if any.
    Text(Option<N>),
    /// A text argument read through a reference.
    ReferencedText,
    /// An error argument, an error cell of a range, or the error of reading
    /// a range's extent: passed on unchanged.
    ErrorValue(CalcError),
    /// The start of an array argument (its elements follow), or a cell of a
    /// range that holds an array.
    ArrayStart,
    /// A boolean element of an array.
    ArrayBoolean(bool),
    /// A text element of an array.
    ArrayText,
    /// An error element of an array.
    ArrayError(Error),
    /// The start of a range argument, with the sheets of its two corners.
    RangeStart { left_sheet: u32, right_sheet: u32 },
    /// A boolean cell of a range.
    CellBoolean(bool),
    /// A text cell of a range.
    CellText,
    /// A cell of a range that evaluates to a range.
    UnexpectedRange,
    /// Anything that is skipped: an empty cell or argument, ...
    Ignored,
}

/// A value that is taken: a number, a boolean (counted as 1 or 0), or a
/// text counted as 0.
#[derive(Clone, Copy, Debug, PartialEq, Eq)]
pub enum StatValue<N> {
    Number(N),
    Logical(bool),
    Zero,
}

/// The walk of AVERAGE and of the functions that take every value.
pub open spec fn plain_walk(kind: StatKind) -> bool {
    kind == StatKind::Average || kind == StatKind::Values
}

/// The walks that count the booleans and texts of ranges.
pub open spec fn a_walk(kind: StatKind) -> bool {
    kind == StatKind::ValuesA || kind == StatKind::AverageA
}

/// AVEDEV and DEVSQ skip booleans and texts written in the formula.
pub open spec fn numbers_only(kind: StatKind) -> bool {
    kind == StatKind::AveDev || kind == StatKind::DevSq
}

/// What one item does: take a value, skip, or stop with an error.
pub open spec fn stat_step<N>(kind: StatKind, item: StatItem<N>) -> Result<Option<StatValue<N>>, (Error, Seq<char>)> {
    match item {
        StatItem::Number(x) => Ok(Some(StatValue::Number(x))),
        StatItem::Boolean(b) => if numbers_only(kind) { Ok(None) } else { Ok(Some(StatValue::Logical(b))) },
        StatItem::ReferencedBoolean(b) => if kind == StatKind::AverageA { Ok(Some(StatValue::Logical(b))) } else { Ok(None) },
        StatItem::Text(parsed) => if numbers_only(kind) {
            Ok(None)
        } else {
            match parsed {
                Some(x) => Ok(Some(StatValue::Number(x))),
                None => Err((Error::VALUE, "Argument cannot be cast into number"@)),
            }
        },
        StatItem::ReferencedText => if kind == StatKind::AverageA { Ok(Some(StatValue::Zero)) } else { Ok(None) },
        StatItem::ErrorValue(e) => Err((e.error, e.message@)),
        StatItem::ArrayStart => if kind is Var || kind == StatKind::AverageA {
            Err((Error::NIMPL, "Arrays not supported yet"@))
        } else {
            Ok(None)
        },
        StatItem::ArrayBoolean(b) => if plain_walk(kind) || kind == StatKind::ValuesA { Ok(Some(StatValue::Logical(b))) } else { Ok(None) },
        StatItem::ArrayText => if kind == StatKind::ValuesA { Ok(Some(StatValue::Zero)) } else { Ok(None) },
        StatItem::ArrayError(e) => Err((e, "Error in array"@)),
        StatItem::RangeStart { left_sheet, right_sheet } => if left_sheet != right_sheet {
            Err((Error::VALUE, "Ranges are in different sheets"@))
        } else {
            Ok(None)
        },
        StatItem::CellBoolean(b) => if a_walk(kind) { Ok(Some(StatValue::Logical(b))) } else { Ok(None) },
        StatItem::CellText => if a_walk(kind) { Ok(Some(StatValue::Zero)) } else { Ok(None) },
        StatItem::UnexpectedRange => if plain_walk(kind) || a_walk(kind) {
            Err((Error::ERROR, "Unexpected Range"@))
        } else {
            Ok(None)
        },
        StatItem::Ignored => Ok(None),
    }
}

/// The values taken from the first `k` items, or the first error.
pub open spec fn stat_collect<N>(kind: StatKind, items: Seq<StatItem<N>>, k: int) -> Result<Seq<StatValue<N>>, (Error, Seq<char>)>
    decreases k,
{
    if k <= 0 {
        Ok(Seq::empty())
    } else {
        match stat_collect(kind, items, k - 1) {
            Err(e) => Err(e),
            Ok(vs) => match stat_step(kind, items[k - 1]) {
                Err(e) => Err(e),
                Ok(None) => Ok(vs),
                Ok(Some(v)) => Ok(vs.push(v)),
            },
        }
    }
}

/// The #DIV/0! raised when too few values were taken, if any: VAR.S needs
/// two, VAR.P, AVEDEV, DEVSQ, AVERAGE and AVERAGEA one; the plain walks need
/// none.
pub open spec fn too_few_values(kind: StatKind, n: int) -> Option<(Error, Seq<char>)> {
    match kind {
        StatKind::Var { sample } => if (sample && n < 2) || (!sample && n == 0) {
            Some((Error::DIV, "Division by 0"@))
        } else {
            None
        },
        StatKind::AveDev => if n == 0 { Some((Error::DIV, "AVEDEV with no numeric data"@)) } else { None },
        StatKind::DevSq => if n == 0 { Some((Error::DIV, "DEVSQ with no numeric data"@)) } else { None },
        StatKind::Average | StatKind::AverageA => if n == 0 { Some((Error::DIV, "Division by Zero"@)) } else { None },
        StatKind::Values | StatKind::ValuesA => None,
    }
}

/// What the reading of the arguments gives: the values taken, or the error.
pub open spec fn stat_values_spec<N>(kind: StatKind, arg_count: int, items: Seq<StatItem<N>>) -> Result<Seq<StatValue<N>>, (Error, Seq<char>)> {
    if arg_count == 0 {
        Err((Error::ERROR, "Wrong number of arguments"@))
    } else {
        match stat_collect(kind, items, items.len() as int) {
            Err(e) => Err(e),
            Ok(vs) => match too_few_values(kind, vs.len() as int) {
                Some(e) => Err(e),
                None => Ok(vs),
            },
        }
    }
}

fn stat_take<N: Copy>(kind: StatKind, item: &StatItem<N>) -> (r: Result<Option<StatValue<N>>, CalcError>)
    ensures
        match r {
            Ok(v) => stat_step(kind, *item) == Ok::<Option<StatValue<N>>, (Error, Seq<char>)>(v),
            Err(e) => stat_step(kind, *item) == Err::<Option<StatValue<N>>, (Error, Seq<char>)>((e.error, e.message@)),
        },
{
    let var = match kind {
        StatKind::Var { .. } => true,
        _ => false,
    };
    let numbers_only = kind == StatKind::AveDev || kind == StatKind::DevSq;
    let plain = kind == StatKind::Average || kind == StatKind::Values;
    let a_walk = kind == StatKind::ValuesA || kind == StatKind::AverageA;
    match item {
        StatItem::Number(x) => Ok(Some(StatValue::Number(*x))),
        StatItem::Boolean(b) => if numbers_only { Ok(None) } else { Ok(Some(StatValue::Logical(*b))) },
        StatItem::ReferencedBoolean(b) => {
            if kind == StatKind::AverageA { Ok(Some(StatValue::Logical(*b))) } else { Ok(None) }
        },
        StatItem::Text(parsed) => {
            if numbers_only {
                Ok(None)
            } else {
                match parsed {
                    Some(x) => Ok(Some(StatValue::Number(*x))),
                    None => Err(new_error(Error::VALUE, "Argument cannot be cast into number")),
                }
            }
        },
        StatItem::ReferencedText => if kind == StatKind::AverageA { Ok(Some(StatValue::Zero)) } else { Ok(None) },
        StatItem::ErrorValue(e) => Err(CalcError { error: e.error, message: e.message.clone() }),
        StatItem::ArrayStart => {
            if var || kind == StatKind::AverageA {
                Err(new_error(Error::NIMPL, "Arrays not supported yet"))
            } else {
                Ok(None)
            }
        },
        StatItem::ArrayBoolean(b) => {
            if plain || kind == StatKind::ValuesA { Ok(Some(StatValue::Logical(*b))) } else { Ok(None) }
        },
        StatItem::ArrayText => if kind == StatKind::ValuesA { Ok(Some(StatValue::Zero)) } else { Ok(None) },
        StatItem::ArrayError(e) => Err(new_error(*e, "Error in array")),
        StatItem::RangeStart { left_sheet, right_sheet } => {
            if *left_sheet != *right_sheet {
                Err(new_error(Error::VALUE, "Ranges are in different sheets"))
            } else {
                Ok(None)
            }
        },
        StatItem::CellBoolean(b) => if a_walk { Ok(Some(StatValue::Logical(*b))) } else { Ok(None) },
        StatItem::CellText => if a_walk { Ok(Some(StatValue::Zero)) } else { Ok(None) },
        StatItem::UnexpectedRange => {
            if plain || a_walk {
                Err(new_error(Error::ERROR, "Unexpected Range"))
            } else {
                Ok(None)
            }
        },
        StatItem::Ignored => Ok(None),
    }
}

/// Reads the arguments of a statistical function (`arg_count` of them,
/// giving `items`): the values to compute on, or the error the function
/// returns.
pub fn stat_values<N: Copy>(kind: StatKind, arg_count: usize, items: &Vec<StatItem<N>>) -> (r: Result<Vec<StatValue<N>>, CalcError>)
    ensures
        match r {
            Ok(v) => stat_values_spec(kind, arg_count as int, items@) == Ok::<Seq<StatValue<N>>, (Error, Seq<char>)>(v@),
            Err(e) => stat_values_spec(kind, arg_count as int, items@) == Err::<Seq<StatValue<N>>, (Error, Seq<char>)>((e.error, e.message@)),
        },
{
    if arg_count == 0 {
        return Err(args_number_error());
    }
    let mut out: Vec<StatValue<N>> = Vec::new();
    let mut k: usize = 0;
    while k < items.len()
        invariant
            k <= items@.len(),
            arg_count > 0,
            stat_collect(kind, items@, k as int) == Ok::<Seq<StatValue<N>>, (Error, Seq<char>)>(out@),
        decreases items@.len() - k,
    {
        match stat_take(kind, &items[k]) {
            Ok(Some(v)) => out.push(v),
            Ok(None) => {},
            Err(e) => {
                proof {
                    assert(stat_collect(kind, items@, k as int + 1) == Err::<Seq<StatValue<N>>, (Error, Seq<char>)>((e.error, e.message@)));
                    lemma_stat_collect_stops(kind, items@, k as int + 1, items@.len() as int);
                }
                return Err(e);
            },
        }
        k = k + 1;
    }
    let n = out.len();
    match kind {
        StatKind::Var { sample } => {
            if (sample && n < 2) || (!sample && n == 0) {
                return Err(new_error(Error::DIV, "Division by 0"));
            }
        },
        StatKind::AveDev => {
            if n == 0 {
                return Err(new_error(Error::DIV, "AVEDEV with no numeric data"));
            }
        },
        StatKind::DevSq => {
            if n == 0 {
                return Err(new_error(Error::DIV, "DEVSQ with no numeric data"));
            }
        },
        StatKind::Average | StatKind::AverageA => {
            if n == 0 {
                return Err(new_error(Error::DIV, "Division by Zero"));
            }
        },
        StatKind::Values | StatKind::ValuesA => {},
    }
    Ok(out)
}

/// Once the reading fails, it stays failed with the same error.
proof fn lemma_stat_collect_stops<N>(kind: StatKind, items: Seq<StatItem<N>>, k: int, m: int)
    requires
        1 <= k <= m,
        stat_collect(kind, items, k) is Err,
    ensures
        stat_collect(kind, items, m) == stat_collect(kind, items, k),
    decreases m - k,
{
    if k < m {
        lemma_stat_collect_stops(kind, items, k, m - 1);
    }
}

} // verus!
