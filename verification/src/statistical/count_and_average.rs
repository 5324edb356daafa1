//! COUNT, COUNTA and COUNTBLANK.
use vstd::prelude::*;
use vstd::string::*;
use crate::types::{CalcError, Error};

verus! {

/// What a cell or an evaluated argument holds, as the counting functions
/// see it.
#[derive(Clone, Copy, Debug, PartialEq, Eq, Structural)]
pub enum CellContent {
    Number,
    Boolean,
    /// A text: whether it is empty and whether it reads as a number.
    Text { empty: bool, numeric: bool },
    /// An empty cell or an empty argument.
    Empty,
    Error,
    /// Anything else (an array, a function value).
    Other,
}

/// An evaluated argument of a counting function: a value (and whether the
/// argument was written as a reference), or a range and its cells.
pub enum CountArgument {
    Value { content: CellContent, from_reference: bool },
    Range { same_sheet: bool, cells: Vec<CellContent> },
}

/// Which counting function.
#[derive(Clone, Copy, Debug, PartialEq, Eq, Structural)]
pub enum CountKind {
    Count,
    CountA,
    CountBlank,
}

/// Whether a value argument counts.
pub open spec fn value_counts(kind: CountKind, content: CellContent, from_reference: bool) -> bool {
    match kind {
        CountKind::Count => match content {
            CellContent::Number => true,
            CellContent::Boolean => !from_reference,
            CellContent::Text { numeric, .. } => !from_reference && numeric,
            _ => false,
        },
        CountKind::CountA => content != CellContent::Empty,
        CountKind::CountBlank => content == CellContent::Empty || content == (CellContent::Text { empty: true, numeric: false })
            || content == (CellContent::Text { empty: true, numeric: true }),
    }
}

/// Whether a cell of a range counts.
pub open spec fn cell_counts(kind: CountKind, content: CellContent) -> bool {
    match kind {
        CountKind::Count => content == CellContent::Number,
        CountKind::CountA => content != CellContent::Empty,
        CountKind::CountBlank => content == CellContent::Empty || (content matches CellContent::Text { empty, .. } && empty),
    }
}

/// The number of cells of `cells` that count.
pub open spec fn counted_cells(kind: CountKind, cells: Seq<CellContent>) -> nat
    decreases cells.len(),
{
    if cells.len() == 0 {
        0
    } else {
        counted_cells(kind, cells.drop_last()) + if cell_counts(kind, cells.last()) { 1nat } else { 0nat }
    }
}

/// The number that the arguments contribute.
pub open spec fn counted_arguments(kind: CountKind, args: Seq<CountArgument>) -> nat
    decreases args.len(),
{
    if args.len() == 0 {
        0
    } else {
        counted_arguments(kind, args.drop_last()) + match args.last() {
            CountArgument::Value { content, from_reference } => if value_counts(kind, content, from_reference) { 1nat } else { 0nat },
            CountArgument::Range { cells, .. } => counted_cells(kind, cells@),
        }
    }
}

/// Some argument is a range whose corners are on different sheets.
pub open spec fn has_split_range(args: Seq<CountArgument>) -> bool {
    exists|i: int| 0 <= i < args.len() && (#[trigger] args[i] matches CountArgument::Range { same_sheet, .. } && !same_sheet)
}

/// The number of values held by the arguments (each cell of a range is one).
pub open spec fn value_total(args: Seq<CountArgument>) -> nat
    decreases args.len(),
{
    if args.len() == 0 {
        0
    } else {
        value_total(args.drop_last()) + match args.last() {
            CountArgument::Value { .. } => 1nat,
            CountArgument::Range { cells, .. } => cells@.len(),
        }
    }
}

proof fn lemma_counted_cells_bound(kind: CountKind, cells: Seq<CellContent>)
    ensures
        counted_cells(kind, cells) <= cells.len(),
    decreases cells.len(),
{
    if cells.len() > 0 {
        lemma_counted_cells_bound(kind, cells.drop_last());
    }
}

proof fn lemma_counted_arguments_bound(kind: CountKind, args: Seq<CountArgument>)
    ensures
        counted_arguments(kind, args) <= value_total(args),
    decreases args.len(),
{
    if args.len() > 0 {
        lemma_counted_arguments_bound(kind, args.drop_last());
        if let CountArgument::Range { cells, .. } = args.last() {
            lemma_counted_cells_bound(kind, cells@);
        }
    }
}

proof fn lemma_value_total_prefix(args: Seq<CountArgument>, i: int)
    requires
        0 <= i <= args.len(),
    ensures
        value_total(args.take(i)) <= value_total(args),
    decreases args.len() - i,
{
    if i < args.len() {
        lemma_value_total_prefix(args, i + 1);
        assert(args.take(i + 1).drop_last() =~= args.take(i));
    } else {
        assert(args.take(i) =~= args);
    }
}

fn content_counts(kind: CountKind, content: CellContent, from_reference: bool, in_range: bool) -> (r: bool)
    ensures
        r == if in_range { cell_counts(kind, content) } else { value_counts(kind, content, from_reference) },
{
    match kind {
        CountKind::Count => match content {
            CellContent::Number => true,
            CellContent::Boolean => !in_range && !from_reference,
            CellContent::Text { numeric, .. } => !in_range && !from_reference && numeric,
            _ => false,
        },
        CountKind::CountA => match content {
            CellContent::Empty => false,
            _ => true,
        },
        CountKind::CountBlank => match content {
            CellContent::Empty => true,
            CellContent::Text { empty, .. } => empty,
            _ => false,
        },
    }
}

/// COUNT, COUNTA or COUNTBLANK of the evaluated arguments.
pub fn count_values(kind: CountKind, args: &Vec<CountArgument>) -> (r: Result<u64, CalcError>)
    requires
        value_total(args@) <= u64::MAX,
    ensures
        match r {
            Ok(n) => !has_split_range(args@) && n as int == counted_arguments(kind, args@),
            Err(e) => has_split_range(args@) && e.error == Error::VALUE && e.message@ == "Ranges are in different sheets"@,
        },
{
    let mut total: u64 = 0;
    let mut i: usize = 0;
    while i < args.len()
        invariant
            i <= args.len(),
            value_total(args@) <= u64::MAX,
            total as int == counted_arguments(kind, args@.take(i as int)),
            !has_split_range(args@.take(i as int)),
        decreases args.len() - i,
    {
        proof {
            assert(args@.take(i + 1).drop_last() =~= args@.take(i as int));
            assert(args@.take(i + 1).last() == args@[i as int]);
            lemma_value_total_prefix(args@, i + 1);
            lemma_counted_arguments_bound(kind, args@.take(i + 1));
        }
        match &args[i] {
            CountArgument::Value { content, from_reference } => {
                if content_counts(kind, *content, *from_reference, false) {
                    total = total + 1;
                }
            },
            CountArgument::Range { same_sheet, cells } => {
                if !*same_sheet {
                    assert(args@[i as int] matches CountArgument::Range { same_sheet, .. } && !same_sheet);
                    return Err(CalcError {
                        error: Error::VALUE,
                        message: String::from_str("Ranges are in different sheets"),
                    });
                }
                let ghost before = total as int;
                let mut k: usize = 0;
                while k < cells.len()
                    invariant
                        k <= cells.len(),
                        before + counted_cells(kind, cells@) <= u64::MAX,
                        total as int == before + counted_cells(kind, cells@.take(k as int)),
                    decreases cells.len() - k,
                {
                    proof {
                        assert(cells@.take(k + 1).drop_last() =~= cells@.take(k as int));
                        lemma_counted_cells_bound(kind, cells@.take(k + 1));
                        lemma_counted_cells_monotone(kind, cells@, k + 1);
                    }
                    if content_counts(kind, cells[k], false, true) {
                        total = total + 1;
                    }
                    k = k + 1;
                }
                assert(cells@.take(k as int) =~= cells@);
            },
        }
        proof {
            assert forall|j: int| 0 <= j < i + 1 implies !(#[trigger] args@.take(i + 1)[j] matches CountArgument::Range { same_sheet, .. } && !same_sheet) by {
                if j < i {
                    assert(args@.take(i + 1)[j] == args@.take(i as int)[j]);
                }
            }
        }
        i = i + 1;
    }
    assert(args@.take(i as int) =~= args@);
    Ok(total)
}

proof fn lemma_counted_cells_monotone(kind: CountKind, cells: Seq<CellContent>, k: int)
    requires
        0 <= k <= cells.len(),
    ensures
        counted_cells(kind, cells.take(k)) <= counted_cells(kind, cells),
    decreases cells.len() - k,
{
    if k < cells.len() {
        lemma_counted_cells_monotone(kind, cells, k + 1);
        assert(cells.take(k + 1).drop_last() =~= cells.take(k));
    } else {
        assert(cells.take(k) =~= cells);
    }
}

/// `COUNT(value1, ...)`: the numbers among the arguments (booleans and
/// numeric texts written directly count; in ranges only numbers count).
pub fn fn_count(args: &Vec<CountArgument>) -> (r: Result<u64, CalcError>)
    requires
        value_total(args@) <= u64::MAX,
    ensures
        match r {
            Ok(n) => !has_split_range(args@) && n as int == counted_arguments(CountKind::Count, args@),
            Err(e) => has_split_range(args@) && e.error == Error::VALUE && e.message@ == "Ranges are in different sheets"@,
        },
{
    count_values(CountKind::Count, args)
}

/// `COUNTA(value1, ...)`: the values that are not empty.
pub fn fn_counta(args: &Vec<CountArgument>) -> (r: Result<u64, CalcError>)
    requires
        value_total(args@) <= u64::MAX,
    ensures
        match r {
            Ok(n) => !has_split_range(args@) && n as int == counted_arguments(CountKind::CountA, args@),
            Err(e) => has_split_range(args@) && e.error == Error::VALUE && e.message@ == "Ranges are in different sheets"@,
        },
{
    count_values(CountKind::CountA, args)
}

/// `COUNTBLANK(range)`: the empty cells and empty texts.
pub fn fn_countblank(args: &Vec<CountArgument>) -> (r: Result<u64, CalcError>)
    requires
        value_total(args@) <= u64::MAX,
    ensures
        match r {
            Ok(n) => !has_split_range(args@) && n as int == counted_arguments(CountKind::CountBlank, args@),
            Err(e) => has_split_range(args@) && e.error == Error::VALUE && e.message@ == "Ranges are in different sheets"@,
        },
{
    count_values(CountKind::CountBlank, args)
}

/// COUNTA and COUNTBLANK together count every cell of a range once, except
/// an empty text, which both count.
pub proof fn law_counta_countblank_split_ranges(cells: Seq<CellContent>)
    ensures
        counted_cells(CountKind::CountA, cells) + counted_cells(CountKind::CountBlank, cells)
            == cells.len() + count_empty_texts(cells),
    decreases cells.len(),
{
    if cells.len() > 0 {
        law_counta_countblank_split_ranges(cells.drop_last());
    }
}

/// The number of empty texts among `cells`.
pub open spec fn count_empty_texts(cells: Seq<CellContent>) -> nat
    decreases cells.len(),
{
    if cells.len() == 0 {
        0
    } else {
        count_empty_texts(cells.drop_last()) + if cells.last() matches CellContent::Text { empty, .. } && empty { 1nat } else { 0nat }
    }
}

/// A cell that holds a number.
pub open spec fn holds_number(c: CellContent) -> bool {
    c == CellContent::Number
}

/// A cell that is not empty.
pub open spec fn holds_value(c: CellContent) -> bool {
    c != CellContent::Empty
}

/// A cell that is empty or holds an empty text.
pub open spec fn looks_blank(c: CellContent) -> bool {
    c == CellContent::Empty || (c matches CellContent::Text { empty, .. } && empty)
}

/// Over the cells of a range, COUNT counts exactly the cells that hold a
/// number (a text, even one that reads as a number, and a boolean add
/// nothing), COUNTA the cells that are not empty, and COUNTBLANK the empty
/// cells and empty texts.
pub proof fn law_range_counts_by_content(cells: Seq<CellContent>)
    ensures
        counted_cells(CountKind::Count, cells) == cells.filter(|c: CellContent| holds_number(c)).len(),
        counted_cells(CountKind::CountA, cells) == cells.filter(|c: CellContent| holds_value(c)).len(),
        counted_cells(CountKind::CountBlank, cells) == cells.filter(|c: CellContent| looks_blank(c)).len(),
    decreases cells.len(),
{
    reveal(Seq::filter);
    if cells.len() > 0 {
        law_range_counts_by_content(cells.drop_last());
    }
}

/// COUNT of a single range on one sheet is the number of its cells that
/// hold a number.
pub proof fn law_count_of_a_range(cells: Vec<CellContent>)
    ensures
        counted_arguments(CountKind::Count, seq![CountArgument::Range { same_sheet: true, cells }])
            == cells@.filter(|c: CellContent| holds_number(c)).len(),
        !has_split_range(seq![CountArgument::Range { same_sheet: true, cells }]),
{
    let args = seq![CountArgument::Range { same_sheet: true, cells }];
    assert(args.drop_last() =~= Seq::<CountArgument>::empty());
    assert(counted_arguments(CountKind::Count, args.drop_last()) == 0);
    assert(args.last() == CountArgument::Range { same_sheet: true, cells });
    assert(counted_arguments(CountKind::Count, args) == counted_cells(CountKind::Count, cells@));
    law_range_counts_by_content(cells@);
}

/// A value read through a reference counts as the same value in a cell of a
/// range does: only a value written in the formula (a boolean, a numeric
/// text) counts differently.
pub proof fn law_referenced_value_counts_as_a_cell(kind: CountKind, content: CellContent)
    ensures
        value_counts(kind, content, true) == cell_counts(kind, content),
{
}

/// COUNT never counts more than COUNTA: whatever COUNT counts is a value
/// that is not empty.
pub proof fn law_count_at_most_counta(args: Seq<CountArgument>)
    ensures
        counted_arguments(CountKind::Count, args) <= counted_arguments(CountKind::CountA, args),
    decreases args.len(),
{
    if args.len() > 0 {
        law_count_at_most_counta(args.drop_last());
        if let CountArgument::Range { cells, .. } = args.last() {
            lemma_count_cells_at_most_counta(cells@);
        }
    }
}

proof fn lemma_count_cells_at_most_counta(cells: Seq<CellContent>)
    ensures
        counted_cells(CountKind::Count, cells) <= counted_cells(CountKind::CountA, cells),
    decreases cells.len(),
{
    if cells.len() > 0 {
        lemma_count_cells_at_most_counta(cells.drop_last());
    }
}

/// A value argument counts for COUNTA exactly when it is not empty, and for
/// COUNTBLANK exactly when it is empty or an empty text, however it was
/// written; so each value is counted by one of the two, an empty text by
/// both.
pub proof fn law_counta_countblank_split_values(content: CellContent, from_reference: bool)
    ensures
        value_counts(CountKind::CountA, content, from_reference) == holds_value(content),
        value_counts(CountKind::CountBlank, content, from_reference) == looks_blank(content),
        value_counts(CountKind::CountA, content, from_reference) || value_counts(CountKind::CountBlank, content, from_reference),
        (value_counts(CountKind::CountA, content, from_reference) && value_counts(CountKind::CountBlank, content, from_reference))
            == (content matches CellContent::Text { empty, .. } && empty),
{
}

/// COUNT counts a value written in the formula when it is a number, a
/// boolean or a text that reads as a number, and a value read through a
/// reference only when it is a number; an empty value, an error or a text
/// that does not read as a number never counts.
pub proof fn law_count_values(content: CellContent, from_reference: bool)
    ensures
        value_counts(CountKind::Count, content, from_reference) ==> holds_value(content) && content != CellContent::Error,
        from_reference ==> (value_counts(CountKind::Count, content, from_reference) == holds_number(content)),
        holds_number(content) ==> value_counts(CountKind::Count, content, from_reference),
        (content matches CellContent::Text { numeric, .. } && !numeric) ==> !value_counts(CountKind::Count, content, from_reference),
{
}

} // verus!
