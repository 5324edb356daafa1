//! ADDRESS and AREAS.
use vstd::prelude::*;
use vstd::string::*;
use crate::text::{chars_to_string, decimal, push_decimal, push_str};
use crate::types::{CalcError, Error, LAST_COLUMN};

verus! {

/// The letter for a digit `d` (0 to 25) of a column name.
pub open spec fn column_letter(d: int) -> char {
    ((d + 65) as u32) as char
}

/// The letters of column `n` (1-based): bijective base 26, `A`..`Z`, `AA`..
pub open spec fn column_name(n: int) -> Seq<char>
    decreases n,
{
    if n <= 26 {
        seq![column_letter(n - 1)]
    } else {
        column_name((n - 1) / 26).push(column_letter((n - 1) % 26))
    }
}

fn letter(d: i32) -> (c: char)
    requires
        0 <= d < 26,
    ensures
        c == column_letter(d as int),
{
    let b: u8 = (d + 65) as u8;
    b as char
}

fn push_column_name(out: &mut Vec<char>, n: i32)
    requires
        1 <= n,
    ensures
        final(out)@ == old(out)@ + column_name(n as int),
    decreases n,
{
    if n <= 26 {
        out.push(letter(n - 1));
    } else {
        push_column_name(out, (n - 1) / 26);
        out.push(letter((n - 1) % 26));
        assert(column_name(n as int) == column_name((n - 1) / 26).push(column_letter((n - 1) % 26)));
    }
}

/// The letters of column `n`, for `1 <= n <= LAST_COLUMN`.
pub fn number_to_column(n: i32) -> (r: Option<String>)
    ensures
        match r {
            Some(s) => 1 <= n <= LAST_COLUMN && s@ == column_name(n as int),
            None => !(1 <= n <= LAST_COLUMN),
        },
{
    if n < 1 || n > LAST_COLUMN {
        return None;
    }
    let mut v: Vec<char> = Vec::new();
    push_column_name(&mut v, n);
    assert(v@ =~= column_name(n as int));
    Some(chars_to_string(&v))
}

/// The text that ADDRESS returns, or its error: `abs_num` 1 = `$A$1`,
/// 2 = `A$1`, 3 = `$A1`, 4 = `A1`; R1C1 style when not `a1`; `sheet` is the
/// (quoted) sheet name to prefix.
pub open spec fn address_spec(row: int, col: int, abs_num: int, a1: bool, sheet: Option<Seq<char>>)
    -> Result<Seq<char>, (Error, Seq<char>)>
{
    let prefix = match sheet { Some(s) => s + seq!['!'], None => Seq::empty() };
    if row < 1 {
        Err((Error::VALUE, "row_num must be >= 1"@))
    } else if col < 1 {
        Err((Error::VALUE, "col_num must be >= 1"@))
    } else if !(1 <= abs_num <= 4) {
        Err((Error::VALUE, "abs_num must be 1, 2, 3, or 4"@))
    } else if a1 {
        if col > LAST_COLUMN {
            Err((Error::VALUE, "col_num out of range"@))
        } else {
            let col_abs = if abs_num == 1 || abs_num == 3 { seq!['$'] } else { Seq::<char>::empty() };
            let row_abs = if abs_num == 1 || abs_num == 2 { seq!['$'] } else { Seq::<char>::empty() };
            Ok(prefix + col_abs + column_name(col) + row_abs + decimal(row as nat))
        }
    } else {
        let row_part = if abs_num == 1 || abs_num == 2 {
            seq!['R'] + decimal(row as nat)
        } else {
            seq!['R', '['] + decimal(row as nat) + seq![']']
        };
        let col_part = if abs_num == 1 || abs_num == 3 {
            seq!['C'] + decimal(col as nat)
        } else {
            seq!['C', '['] + decimal(col as nat) + seq![']']
        };
        Ok(prefix + row_part + col_part)
    }
}

/// `=ADDRESS(row_num, col_num, [abs_num], [a1], [sheet_text])`
///
/// Returns a cell address as text. `sheet` is the quoted sheet name (none
/// when `sheet_text` is missing or empty).
#[verifier::spinoff_prover]
#[verifier::rlimit(40)]
pub fn fn_address(row_num: i32, col_num: i32, abs_num: i32, use_a1: bool, sheet: Option<&str>)
    -> (r: Result<String, CalcError>)
    ensures
        match r {
            Ok(s) => address_spec(row_num as int, col_num as int, abs_num as int, use_a1,
                match sheet { Some(s) => Some(s@), None => None }) == Ok::<Seq<char>, (Error, Seq<char>)>(s@),
            Err(e) => address_spec(row_num as int, col_num as int, abs_num as int, use_a1,
                match sheet { Some(s) => Some(s@), None => None })
                == Err::<Seq<char>, (Error, Seq<char>)>((e.error, e.message@)),
        },
{
    if row_num < 1 {
        return Err(CalcError { error: Error::VALUE, message: String::from_str("row_num must be >= 1") });
    }
    if col_num < 1 {
        return Err(CalcError { error: Error::VALUE, message: String::from_str("col_num must be >= 1") });
    }
    if !(1 <= abs_num && abs_num <= 4) {
        return Err(CalcError { error: Error::VALUE, message: String::from_str("abs_num must be 1, 2, 3, or 4") });
    }
    let mut out: Vec<char> = Vec::new();
    if let Some(s) = sheet {
        push_str(&mut out, s);
        out.push('!');
    }
    let ghost prefix = out@;
    assert(prefix =~= match sheet { Some(s) => s@ + seq!['!'], None => Seq::<char>::empty() });
    if use_a1 {
        if col_num > LAST_COLUMN {
            return Err(CalcError { error: Error::VALUE, message: String::from_str("col_num out of range") });
        }
        if abs_num == 1 || abs_num == 3 {
            out.push('$');
        }
        push_column_name(&mut out, col_num);
        if abs_num == 1 || abs_num == 2 {
            out.push('$');
        }
        push_decimal(&mut out, row_num as u64);
        let ghost col_abs = if abs_num == 1 || abs_num == 3 { seq!['$'] } else { Seq::<char>::empty() };
        let ghost row_abs = if abs_num == 1 || abs_num == 2 { seq!['$'] } else { Seq::<char>::empty() };
        assert(out@ =~= prefix + col_abs + column_name(col_num as int) + row_abs + decimal(row_num as nat));
    } else {
        out.push('R');
        if abs_num == 1 || abs_num == 2 {
            push_decimal(&mut out, row_num as u64);
        } else {
            out.push('[');
            push_decimal(&mut out, row_num as u64);
            out.push(']');
        }
        let ghost after_row = out@;
        out.push('C');
        if abs_num == 1 || abs_num == 3 {
            push_decimal(&mut out, col_num as u64);
        } else {
            out.push('[');
            push_decimal(&mut out, col_num as u64);
            out.push(']');
        }
        let ghost row_part = if abs_num == 1 || abs_num == 2 {
            seq!['R'] + decimal(row_num as nat)
        } else {
            seq!['R', '['] + decimal(row_num as nat) + seq![']']
        };
        let ghost col_part = if abs_num == 1 || abs_num == 3 {
            seq!['C'] + decimal(col_num as nat)
        } else {
            seq!['C', '['] + decimal(col_num as nat) + seq![']']
        };
        assert(after_row =~= prefix + row_part);
        assert(out@ =~= prefix + row_part + col_part);
    }
    Ok(chars_to_string(&out))
}

/// `=AREAS(reference)`: the number of areas of a reference, always 1 (there
/// are no multi-area references); an error argument is passed on.
pub fn fn_areas(argument: Result<(), CalcError>) -> (r: Result<u32, CalcError>)
    ensures
        match argument {
            Ok(()) => r matches Ok(n) && n == 1,
            Err(e) => r matches Err(x) && x.error == e.error && x.message@ == e.message@,
        },
{
    match argument {
        Ok(()) => Ok(1),
        Err(e) => Err(e),
    }
}

/// The characters of a decimal number are digits, and there is at least one.
proof fn lemma_decimal_digits_only(n: nat)
    ensures
        decimal(n).len() >= 1,
        forall|i: int| 0 <= i < decimal(n).len() ==> '0' <= #[trigger] decimal(n)[i] <= '9',
    decreases n,
{
    if n >= 10 {
        lemma_decimal_digits_only(n / 10);
        assert forall|i: int| 0 <= i < decimal(n).len() implies '0' <= #[trigger] decimal(n)[i] <= '9' by {
            if i < decimal(n / 10).len() {
                assert(decimal(n)[i] == decimal(n / 10)[i]);
            }
        }
    }
}

/// The prefix that ADDRESS puts before the address for a sheet name.
pub open spec fn sheet_prefix(sheet: Option<Seq<char>>) -> Seq<char> {
    match sheet { Some(s) => s + seq!['!'], None => Seq::empty() }
}

/// In R1C1 style the address, after the sheet prefix, is an `R`, then the
/// row, then `C` and the column. A part is relative (written in brackets,
/// `R[3]`) exactly when the A1 style leaves it without a `$`: the row is
/// absolute for `abs_num` 1 and 2 and relative for 3 and 4, the column
/// absolute for 1 and 3 and relative for 2 and 4. The row number follows the
/// `R` (or `R[`) digit by digit.
pub proof fn law_address_r1c1_relative_parts(row: int, col: int, abs_num: int, sheet: Option<Seq<char>>)
    requires
        row >= 1,
        col >= 1,
        1 <= abs_num <= 4,
    ensures
        address_spec(row, col, abs_num, false, sheet) is Ok,
        ({
            let s = address_spec(row, col, abs_num, false, sheet)->Ok_0;
            let p = sheet_prefix(sheet).len() as int;
            let d = decimal(row as nat);
            let row_relative = abs_num == 3 || abs_num == 4;
            let start = if row_relative { p + 2 } else { p + 1 };
            &&& s.subrange(0, p) == sheet_prefix(sheet)
            &&& s[p] == 'R'
            &&& (s[p + 1] == '[') == row_relative
            &&& s.subrange(start, start + d.len()) == d
            &&& (s.last() == ']') == (abs_num == 2 || abs_num == 4)
            &&& ({
                let dc = decimal(col as nat);
                let end = if abs_num == 2 || abs_num == 4 { s.len() - 1 } else { s.len() as int };
                s.subrange(end - dc.len(), end) == dc
            })
        }),
{
    lemma_decimal_digits_only(row as nat);
    lemma_decimal_digits_only(col as nat);
    let s = address_spec(row, col, abs_num, false, sheet)->Ok_0;
    let p = sheet_prefix(sheet).len() as int;
    let d = decimal(row as nat);
    let dc = decimal(col as nat);
    let row_part = if abs_num == 1 || abs_num == 2 { seq!['R'] + d } else { seq!['R', '['] + d + seq![']'] };
    let col_part = if abs_num == 1 || abs_num == 3 { seq!['C'] + dc } else { seq!['C', '['] + dc + seq![']'] };
    assert(s == sheet_prefix(sheet) + row_part + col_part);
    assert(s.subrange(0, p) =~= sheet_prefix(sheet));
    let start = if abs_num == 3 || abs_num == 4 { p + 2 } else { p + 1 };
    assert(s.subrange(start, start + d.len()) =~= d);
    assert(s[p] == 'R');
    if !(abs_num == 3 || abs_num == 4) {
        assert(s[p + 1] == d[0]);
    }
    if !(abs_num == 2 || abs_num == 4) {
        assert(s.last() == dc[dc.len() - 1]);
    }
    let end = if abs_num == 2 || abs_num == 4 { s.len() - 1 } else { s.len() as int };
    assert(s.subrange(end - dc.len(), end) =~= dc);
}

/// In A1 style the row is preceded by a `$` exactly when `abs_num` is 1 or
/// 2, the column exactly when it is 1 or 3, and the address ends with the
/// row number.
pub proof fn law_address_a1_absolute_parts(row: int, col: int, abs_num: int, sheet: Option<Seq<char>>)
    requires
        row >= 1,
        1 <= col <= LAST_COLUMN,
        1 <= abs_num <= 4,
    ensures
        address_spec(row, col, abs_num, true, sheet) is Ok,
        ({
            let s = address_spec(row, col, abs_num, true, sheet)->Ok_0;
            let p = sheet_prefix(sheet).len() as int;
            let d = decimal(row as nat);
            &&& s.subrange(s.len() - d.len(), s.len() as int) == d
            &&& (s[s.len() - d.len() - 1] == '$') == (abs_num == 1 || abs_num == 2)
            &&& (s[p] == '$') == (abs_num == 1 || abs_num == 3)
            &&& ({
                let c0 = if abs_num == 1 || abs_num == 3 { p + 1 } else { p };
                s.subrange(c0, c0 + column_name(col).len()) == column_name(col)
            })
        }),
{
    lemma_decimal_digits_only(row as nat);
    lemma_column_name_letters(col);
    let s = address_spec(row, col, abs_num, true, sheet)->Ok_0;
    let p = sheet_prefix(sheet).len() as int;
    let d = decimal(row as nat);
    let name = column_name(col);
    let col_abs = if abs_num == 1 || abs_num == 3 { seq!['$'] } else { Seq::<char>::empty() };
    let row_abs = if abs_num == 1 || abs_num == 2 { seq!['$'] } else { Seq::<char>::empty() };
    assert(s == sheet_prefix(sheet) + col_abs + name + row_abs + d);
    assert(s.subrange(s.len() - d.len(), s.len() as int) =~= d);
    if !(abs_num == 1 || abs_num == 2) {
        assert(s[s.len() - d.len() - 1] == name[name.len() - 1]);
    }
    if !(abs_num == 1 || abs_num == 3) {
        assert(s[p] == name[0]);
    }
    let c0 = if abs_num == 1 || abs_num == 3 { p + 1 } else { p };
    assert(s.subrange(c0, c0 + name.len()) =~= name);
}

/// The letters of a column name are capital letters, never `$`.
proof fn lemma_column_name_letters(n: int)
    requires
        n >= 1,
    ensures
        column_name(n).len() >= 1,
        forall|i: int| 0 <= i < column_name(n).len() ==> #[trigger] column_name(n)[i] != '$',
    decreases n,
{
    if n <= 26 {
        assert(column_name(n)[0] == column_letter(n - 1));
        lemma_letter_not_dollar(n - 1);
    } else {
        lemma_column_name_letters((n - 1) / 26);
        lemma_letter_not_dollar((n - 1) % 26);
        let prev = column_name((n - 1) / 26);
        assert forall|i: int| 0 <= i < column_name(n).len() implies #[trigger] column_name(n)[i] != '$' by {
            if i < prev.len() {
                assert(column_name(n)[i] == prev[i]);
            }
        }
    }
}

proof fn lemma_letter_not_dollar(d: int)
    requires
        0 <= d < 26,
    ensures
        column_letter(d) != '$',
{
    let x: u32 = (d + 65) as u32;
    assert(x == d + 65);
    assert((x as char) as u32 == x);
    assert(('$' as u32) == 36);
}

/// The number that a column name stands for: its letters read as digits
/// `A` = 1 to `Z` = 26 in base 26.
pub open spec fn column_value(s: Seq<char>) -> int
    decreases s.len(),
{
    if s.len() == 0 {
        0
    } else {
        column_value(s.drop_last()) * 26 + ((s.last() as int) - ('A' as int) + 1)
    }
}

/// A column name is made of the letters `A` to `Z` and reads back as the
/// column number: `A` is 1, `Z` 26, `AA` 27, and so on.
pub proof fn law_column_name_reads_back(n: int)
    requires
        n >= 1,
    ensures
        column_name(n).len() >= 1,
        forall|i: int| 0 <= i < column_name(n).len() ==> 'A' <= #[trigger] column_name(n)[i] <= 'Z',
        column_value(column_name(n)) == n,
    decreases n,
{
    if n <= 26 {
        lemma_letter_value(n - 1);
        assert(column_name(n) == seq![column_letter(n - 1)]);
        assert(column_name(n).drop_last() =~= Seq::<char>::empty());
        assert(column_name(n).last() == column_letter(n - 1));
        let s0 = column_name(n);
        assert(column_value(s0.drop_last()) == 0);
        assert(column_value(s0) == column_value(s0.drop_last()) * 26 + ((s0.last() as int) - ('A' as int) + 1));
    } else {
        let q = (n - 1) / 26;
        let r = (n - 1) % 26;
        assert(q >= 1 && 0 <= r < 26 && q * 26 + r == n - 1) by (nonlinear_arith)
            requires n > 26, q == (n - 1) / 26, r == (n - 1) % 26;
        law_column_name_reads_back(q);
        lemma_letter_value(r);
        let prev = column_name(q);
        assert(column_name(n) == prev.push(column_letter(r)));
        assert(column_name(n).drop_last() =~= prev);
        assert(column_name(n).last() == column_letter(r));
        let s0 = column_name(n);
        assert(column_value(s0) == column_value(s0.drop_last()) * 26 + ((s0.last() as int) - ('A' as int) + 1));
        assert(column_value(s0.drop_last()) == q);
        assert forall|i: int| 0 <= i < column_name(n).len() implies 'A' <= #[trigger] column_name(n)[i] <= 'Z' by {
            if i < prev.len() {
                assert(column_name(n)[i] == prev[i]);
            }
        }
    }
}

proof fn lemma_letter_value(d: int)
    requires
        0 <= d < 26,
    ensures
        (column_letter(d) as int) == d + 65,
        ('A' as int) == 65,
        'A' <= column_letter(d) <= 'Z',
{
    let x: u32 = (d + 65) as u32;
    assert(x == d + 65);
    assert((x as char) as u32 == x);
    assert(('A' as u32) == 65 && ('Z' as u32) == 90);
}

} // verus!
