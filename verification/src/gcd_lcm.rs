//! GCD and LCM of the non-negative integers reached from the arguments.
use vstd::prelude::*;
use vstd::string::*;
use crate::text::{chars_to_string, decimal, push_decimal, push_str};
use crate::types::{args_number_error, CalcError, Error};

verus! {

/// Largest value (exclusive) that GCD and LCM accept or return: 2^53.
pub const MAX_LCM_GCD: i64 = 9_007_199_254_740_992;

/// The product `d * k`.
pub open spec fn times(d: int, k: int) -> int {
    d * k
}

/// `d` divides `x`.
pub open spec fn divides(d: int, x: int) -> bool {
    exists|k: int| #[trigger] times(d, k) == x
}

/// Euclid's greatest common divisor.
pub open spec fn gcd_spec(a: nat, b: nat) -> nat
    decreases b,
{
    if b == 0 { a } else { gcd_spec(b, a % b) }
}

/// Least common multiple as LCM computes it: `a / gcd(a, b) * b`, and 0 when
/// either is 0.
pub open spec fn lcm_spec(a: nat, b: nat) -> nat {
    if a == 0 || b == 0 { 0 } else { (a / gcd_spec(a, b)) * b }
}

/// The GCD divides both of its arguments.
pub proof fn lemma_gcd_divides(a: nat, b: nat)
    ensures
        divides(gcd_spec(a, b) as int, a as int),
        divides(gcd_spec(a, b) as int, b as int),
    decreases b,
{
    if b == 0 {
        assert(times(a as int, 1) == a as int);
        assert(times(a as int, 0) == 0);
    } else {
        lemma_gcd_divides(b, a % b);
        let g = gcd_spec(a, b) as int;
        let k1 = choose|k: int| times(g, k) == b as int;
        let k2 = choose|k: int| times(g, k) == (a % b) as int;
        let q = (a / b) as int;
        vstd::arithmetic::div_mod::lemma_fundamental_div_mod(a as int, b as int);
        assert(times(g, k1 * q + k2) == a as int) by (nonlinear_arith)
            requires
                b as int == g * k1,
                (a % b) as int == g * k2,
                a as int == (b as int) * q + (a % b) as int,
        ;
    }
}

/// Every common divisor of `a` and `b` divides their GCD.
pub proof fn lemma_common_divisor_divides_gcd(a: nat, b: nat, d: int)
    requires
        divides(d, a as int),
        divides(d, b as int),
    ensures
        divides(d, gcd_spec(a, b) as int),
    decreases b,
{
    if b > 0 {
        let ka = choose|k: int| times(d, k) == a as int;
        let kb = choose|k: int| times(d, k) == b as int;
        let q = (a / b) as int;
        vstd::arithmetic::div_mod::lemma_fundamental_div_mod(a as int, b as int);
        assert(times(d, ka - kb * q) == (a % b) as int) by (nonlinear_arith)
            requires
                a as int == d * ka,
                b as int == d * kb,
                a as int == (b as int) * q + (a % b) as int,
        ;
        lemma_common_divisor_divides_gcd(b, a % b, d);
    }
}

/// The GCD of two naturals is positive when one of them is, and it is at
/// most each positive argument.
pub proof fn lemma_gcd_bounds(a: nat, b: nat)
    ensures
        (a > 0 || b > 0) ==> gcd_spec(a, b) > 0,
        a > 0 ==> gcd_spec(a, b) <= a,
        b > 0 ==> gcd_spec(a, b) <= b,
    decreases b,
{
    if b > 0 {
        lemma_gcd_bounds(b, a % b);
        lemma_gcd_divides(a, b);
        let g = gcd_spec(a, b) as int;
        if a > 0 {
            let k = choose|k: int| times(g, k) == a as int;
            assert(g <= a) by (nonlinear_arith)
                requires a as int == g * k, g > 0, a > 0;
        }
    }
}

/// LCM gives a common multiple of its arguments.
pub proof fn lemma_lcm_is_common_multiple(a: nat, b: nat)
    ensures
        divides(a as int, lcm_spec(a, b) as int),
        divides(b as int, lcm_spec(a, b) as int),
{
    if a == 0 || b == 0 {
        assert(times(a as int, 0) == 0);
        assert(times(b as int, 0) == 0);
    } else {
        lemma_gcd_divides(a, b);
        lemma_gcd_bounds(a, b);
        let g = gcd_spec(a, b) as int;
        let ka = choose|k: int| times(g, k) == a as int;
        let kb = choose|k: int| times(g, k) == b as int;
        assert((a / gcd_spec(a, b)) as int == ka) by {
            vstd::arithmetic::div_mod::lemma_div_multiples_vanish(ka, g);
        }
        assert(times(a as int, kb) == lcm_spec(a, b) as int) by (nonlinear_arith)
            requires
                lcm_spec(a, b) as int == ka * (b as int),
                b as int == g * kb,
                a as int == g * ka,
        ;
        assert(times(b as int, ka) == lcm_spec(a, b) as int) by (nonlinear_arith)
            requires lcm_spec(a, b) as int == ka * (b as int);
    }
}

/// Euclidean gcd for i64 (non-negative inputs expected)
fn gcd_i64(a0: i64, b0: i64) -> (r: i64)
    requires
        a0 >= 0,
        b0 >= 0,
    ensures
        r >= 0,
        r as nat == gcd_spec(a0 as nat, b0 as nat),
{
    let mut a = a0;
    let mut b = b0;
    while b != 0
        invariant
            a >= 0,
            b >= 0,
            gcd_spec(a as nat, b as nat) == gcd_spec(a0 as nat, b0 as nat),
        decreases b,
    {
        let r = a % b;
        a = b;
        b = r;
    }
    a
}

/// lcm(a, b) = a / gcd(a, b) * b, computed in i128; `None` when it exceeds 2^53.
fn lcm_i64(a: i64, b: i64) -> (r: Option<i64>)
    requires
        a >= 0,
        b >= 0,
    ensures
        r == (if lcm_spec(a as nat, b as nat) > MAX_LCM_GCD {
            None::<i64>
        } else {
            Some(lcm_spec(a as nat, b as nat) as i64)
        }),
{
    if a == 0 || b == 0 {
        return Some(0);
    }
    let g = gcd_i64(a, b);
    proof {
        lemma_gcd_bounds(a as nat, b as nat);
    }
    let a_div_g: i128 = (a / g) as i128;
    assert(0 <= a_div_g <= a);
    assert(a_div_g * (b as i128) <= (a as int) * (b as int)) by (nonlinear_arith)
        requires 0 <= a_div_g <= a, b >= 0;
    assert((a as int) * (b as int) <= 0x7fff_ffff_ffff_ffff * 0x7fff_ffff_ffff_ffff) by (nonlinear_arith)
        requires 0 <= a <= 0x7fff_ffff_ffff_ffff, 0 <= b <= 0x7fff_ffff_ffff_ffff;
    let prod: i128 = a_div_g * (b as i128);
    if prod > MAX_LCM_GCD as i128 {
        None
    } else {
        Some(prod as i64)
    }
}

/// One item produced while reading the arguments of GCD or LCM, in order:
/// scalar arguments, the cells of a range and the elements of an array.
pub enum GcdLcmItem {
    /// A number, a text that converts to a number, or an empty cell or array
    /// element (read as 0): whether it is finite and its value truncated
    /// toward zero.
    Number { finite: bool, truncated: i64 },
    /// A text that does not convert to a number.
    NonNumericString,
    /// A boolean.
    Boolean,
    /// An empty argument.
    EmptyArgument,
    /// An error value, which the function passes on unchanged.
    ErrorValue { error: Error, message: String },
    /// An error element of an array.
    ArrayError(Error),
    /// A range whose two corners are in different sheets.
    RangeInDifferentSheets,
    /// A whole-row or whole-column range on a sheet index that does not exist.
    InvalidWorksheet(u32),
    /// The start of a range argument (its cells follow).
    RangeStart,
    /// A value that the function skips.
    Ignored,
}

/// The running state: the accumulated value, whether a number was seen and
/// whether a range argument was seen.
pub struct GcdLcmState {
    pub acc: Option<i64>,
    pub saw_number: bool,
    pub has_range: bool,
}

/// The function's name as it appears in messages.
pub open spec fn fn_name(is_lcm: bool) -> Seq<char> {
    if is_lcm { "LCM"@ } else { "GCD"@ }
}

/// How two accumulated values combine: GCD, or LCM unless it exceeds 2^53.
pub open spec fn combine_spec(is_lcm: bool, acc: int, n: int) -> Option<int> {
    if is_lcm {
        let l = lcm_spec(acc as nat, n as nat) as int;
        if l > MAX_LCM_GCD { None } else { Some(l) }
    } else {
        Some(gcd_spec(acc as nat, n as nat) as int)
    }
}

/// A number read by the function: the new accumulated value, or the error.
pub open spec fn number_step(is_lcm: bool, acc: Option<int>, finite: bool, n: int)
    -> Result<int, (Error, Seq<char>)>
{
    if !finite {
        Err((Error::VALUE, "Non-finite number in "@ + fn_name(is_lcm)))
    } else if n < 0 {
        Err((Error::NUM, fn_name(is_lcm) + " only accepts non-negative integers"@))
    } else if n >= MAX_LCM_GCD {
        Err((Error::NUM, "Argument too large"@))
    } else {
        match acc {
            None => Ok(n),
            Some(cur) => match combine_spec(is_lcm, cur, n) {
                Some(v) => Ok(v),
                None => Err((Error::NUM, fn_name(is_lcm) + " result too large"@)),
            },
        }
    }
}

/// The result of GCD (or LCM) on the items from position `i` on, with the
/// running state `(acc, saw_number, has_range)`.
pub open spec fn gcd_lcm_from(
    is_lcm: bool,
    items: Seq<GcdLcmItem>,
    i: int,
    acc: Option<int>,
    saw_number: bool,
    has_range: bool,
) -> Result<int, (Error, Seq<char>)>
    decreases items.len() - i,
{
    if i < 0 || i >= items.len() {
        if !saw_number && !has_range {
            Err((Error::VALUE, "No valid numbers found"@))
        } else {
            Ok(match acc { Some(v) => v, None => 0 })
        }
    } else {
        match items[i] {
            GcdLcmItem::Number { finite, truncated } => {
                match number_step(is_lcm, acc, finite, truncated as int) {
                    Ok(v) => gcd_lcm_from(is_lcm, items, i + 1, Some(v), true, has_range),
                    Err(e) => Err(e),
                }
            },
            GcdLcmItem::NonNumericString => Err((Error::VALUE, "Non-numeric string"@)),
            GcdLcmItem::Boolean => Err((Error::VALUE, "Booleans not allowed in GCD"@)),
            GcdLcmItem::EmptyArgument => Err((Error::NA, "Empty argument"@)),
            GcdLcmItem::ErrorValue { error, message } => Err((error, message@)),
            GcdLcmItem::ArrayError(e) => Err((e, "Error in array"@)),
            GcdLcmItem::RangeInDifferentSheets => Err((Error::VALUE, "Ranges are in different sheets"@)),
            GcdLcmItem::InvalidWorksheet(sheet) => Err((
                Error::ERROR,
                "Invalid worksheet index: '"@ + decimal(sheet as nat) + "'"@,
            )),
            GcdLcmItem::RangeStart => gcd_lcm_from(is_lcm, items, i + 1, acc, saw_number, true),
            GcdLcmItem::Ignored => gcd_lcm_from(is_lcm, items, i + 1, acc, saw_number, has_range),
        }
    }
}

/// What GCD (or LCM) gives for the items read from its arguments: with no
/// arguments (every argument gives at least one item), the error for a
/// wrong number of arguments.
pub open spec fn gcd_lcm_spec(is_lcm: bool, items: Seq<GcdLcmItem>) -> Result<int, (Error, Seq<char>)> {
    if items.len() == 0 {
        Err((Error::ERROR, "Wrong number of arguments"@))
    } else {
        gcd_lcm_from(is_lcm, items, 0, None, false, false)
    }
}

fn name_message(is_lcm: bool, before: &str, after: &str) -> (s: String)
    ensures
        s@ == before@ + fn_name(is_lcm) + after@,
{
    let mut v: Vec<char> = Vec::new();
    push_str(&mut v, before);
    if is_lcm {
        push_str(&mut v, "LCM");
    } else {
        push_str(&mut v, "GCD");
    }
    push_str(&mut v, after);
    assert(v@ =~= before@ + fn_name(is_lcm) + after@);
    chars_to_string(&v)
}

/// Handles one number: checks it and combines it with the accumulated value.
fn handle_number(is_lcm: bool, acc: Option<i64>, finite: bool, n: i64) -> (r: Result<i64, CalcError>)
    requires
        acc matches Some(a) ==> 0 <= a <= MAX_LCM_GCD,
    ensures
        match r {
            Ok(v) => number_step(is_lcm, match acc { Some(a) => Some(a as int), None => None }, finite, n as int)
                == Ok::<int, (Error, Seq<char>)>(v as int) && 0 <= v <= MAX_LCM_GCD,
            Err(e) => number_step(is_lcm, match acc { Some(a) => Some(a as int), None => None }, finite, n as int)
                == Err::<int, (Error, Seq<char>)>((e.error, e.message@)),
        },
{
    proof {
        reveal_strlit("");
        assert("Non-finite number in "@ + fn_name(is_lcm) + ""@ =~= "Non-finite number in "@ + fn_name(is_lcm));
        assert(""@ + fn_name(is_lcm) + " only accepts non-negative integers"@
            =~= fn_name(is_lcm) + " only accepts non-negative integers"@);
        assert(""@ + fn_name(is_lcm) + " result too large"@ =~= fn_name(is_lcm) + " result too large"@);
    }
    if !finite {
        return Err(CalcError { error: Error::VALUE, message: name_message(is_lcm, "Non-finite number in ", "") });
    }
    if n < 0 {
        return Err(CalcError {
            error: Error::NUM,
            message: name_message(is_lcm, "", " only accepts non-negative integers"),
        });
    } else if n >= MAX_LCM_GCD {
        return Err(CalcError { error: Error::NUM, message: String::from_str("Argument too large") });
    }
    match acc {
        None => Ok(n),
        Some(cur) => {
            let combined = if is_lcm {
                lcm_i64(cur, n)
            } else {
                let g = gcd_i64(cur, n);
                proof {
                    lemma_gcd_bounds(cur as nat, n as nat);
                }
                Some(g)
            };
            match combined {
                Some(v) => Ok(v),
                None => Err(CalcError {
                    error: Error::NUM,
                    message: name_message(is_lcm, "", " result too large"),
                }),
            }
        },
    }
}

/// GCD or LCM of the items read from the arguments.
pub fn gcd_lcm_impl(is_lcm: bool, items: &Vec<GcdLcmItem>) -> (r: Result<i64, CalcError>)
    ensures
        match r {
            Ok(v) => gcd_lcm_spec(is_lcm, items@) == Ok::<int, (Error, Seq<char>)>(v as int),
            Err(e) => gcd_lcm_spec(is_lcm, items@) == Err::<int, (Error, Seq<char>)>((e.error, e.message@)),
        },
{
    if items.len() == 0 {
        return Err(args_number_error());
    }
    let mut acc: Option<i64> = None;
    let mut saw_number = false;
    let mut has_range = false;
    let mut i: usize = 0;
    while i < items.len()
        invariant
            i <= items.len(),
            acc matches Some(a) ==> 0 <= a <= MAX_LCM_GCD,
            gcd_lcm_spec(is_lcm, items@) == gcd_lcm_from(
                is_lcm, items@, i as int,
                match acc { Some(a) => Some(a as int), None => None },
                saw_number, has_range),
        decreases items.len() - i,
    {
        match &items[i] {
            GcdLcmItem::Number { finite, truncated } => {
                match handle_number(is_lcm, acc, *finite, *truncated) {
                    Ok(v) => {
                        acc = Some(v);
                        saw_number = true;
                    },
                    Err(e) => return Err(e),
                }
            },
            GcdLcmItem::NonNumericString => {
                return Err(CalcError { error: Error::VALUE, message: String::from_str("Non-numeric string") });
            },
            GcdLcmItem::Boolean => {
                return Err(CalcError {
                    error: Error::VALUE,
                    message: String::from_str("Booleans not allowed in GCD"),
                });
            },
            GcdLcmItem::EmptyArgument => {
                return Err(CalcError { error: Error::NA, message: String::from_str("Empty argument") });
            },
            GcdLcmItem::ErrorValue { error, message } => {
                return Err(CalcError { error: *error, message: message.clone() });
            },
            GcdLcmItem::ArrayError(e) => {
                return Err(CalcError { error: *e, message: String::from_str("Error in array") });
            },
            GcdLcmItem::RangeInDifferentSheets => {
                return Err(CalcError {
                    error: Error::VALUE,
                    message: String::from_str("Ranges are in different sheets"),
                });
            },
            GcdLcmItem::InvalidWorksheet(sheet) => {
                let mut v: Vec<char> = Vec::new();
                push_str(&mut v, "Invalid worksheet index: '");
                push_decimal(&mut v, *sheet as u64);
                push_str(&mut v, "'");
                return Err(CalcError { error: Error::ERROR, message: chars_to_string(&v) });
            },
            GcdLcmItem::RangeStart => {
                has_range = true;
            },
            GcdLcmItem::Ignored => {},
        }
        i = i + 1;
    }
    if !saw_number && !has_range {
        return Err(CalcError { error: Error::VALUE, message: String::from_str("No valid numbers found") });
    }
    match acc {
        Some(v) => Ok(v),
        None => Ok(0),
    }
}

/// GCD(number1, [number2], ...)
pub fn fn_gcd(items: &Vec<GcdLcmItem>) -> (r: Result<i64, CalcError>)
    ensures
        match r {
            Ok(v) => gcd_lcm_spec(false, items@) == Ok::<int, (Error, Seq<char>)>(v as int),
            Err(e) => gcd_lcm_spec(false, items@) == Err::<int, (Error, Seq<char>)>((e.error, e.message@)),
        },
{
    gcd_lcm_impl(false, items)
}

/// LCM(number1, [number2], ...)
pub fn fn_lcm(items: &Vec<GcdLcmItem>) -> (r: Result<i64, CalcError>)
    ensures
        match r {
            Ok(v) => gcd_lcm_spec(true, items@) == Ok::<int, (Error, Seq<char>)>(v as int),
            Err(e) => gcd_lcm_spec(true, items@) == Err::<int, (Error, Seq<char>)>((e.error, e.message@)),
        },
{
    gcd_lcm_impl(true, items)
}


/// Divisibility is transitive.
pub proof fn lemma_divides_transitive(a: int, b: int, c: int)
    requires
        divides(a, b),
        divides(b, c),
    ensures
        divides(a, c),
{
    let k1 = choose|k: int| times(a, k) == b;
    let k2 = choose|k: int| times(b, k) == c;
    assert(times(a, k1 * k2) == c) by (nonlinear_arith)
        requires b == a * k1, c == b * k2;
}

/// Every number divides itself.
pub proof fn lemma_divides_self(a: int)
    ensures
        divides(a, a),
{
    assert(times(a, 1) == a);
}

/// The item at `j` is a number whose truncated value is `n`.
pub open spec fn number_item(items: Seq<GcdLcmItem>, j: int, n: int) -> bool {
    0 <= j < items.len() && (items[j] matches GcdLcmItem::Number { truncated, .. } && truncated == n)
}

proof fn lemma_gcd_from_divides(
    items: Seq<GcdLcmItem>,
    i: int,
    acc: Option<int>,
    saw: bool,
    hr: bool,
    g: int,
)
    requires
        0 <= i <= items.len(),
        acc matches Some(a) ==> a >= 0,
        gcd_lcm_from(false, items, i, acc, saw, hr) == Ok::<int, (Error, Seq<char>)>(g),
    ensures
        acc matches Some(a) ==> divides(g, a),
        forall|j: int, n: int| i <= j && #[trigger] number_item(items, j, n) ==> divides(g, n),
    decreases items.len() - i,
{
    if i == items.len() {
        if let Some(a) = acc {
            lemma_divides_self(a);
        }
    } else {
        match items[i] {
            GcdLcmItem::Number { finite, truncated } => {
                let n = truncated as int;
                let v = match number_step(false, acc, finite, n) { Ok(v) => v, Err(_) => 0 };
                assert(number_step(false, acc, finite, n) is Ok);
                lemma_gcd_from_divides(items, i + 1, Some(v), true, hr, g);
                assert(n >= 0);
                if let Some(a) = acc {
                    assert(v == gcd_spec(a as nat, n as nat));
                    lemma_gcd_divides(a as nat, n as nat);
                    lemma_divides_transitive(g, v, a);
                    lemma_divides_transitive(g, v, n);
                } else {
                    assert(v == n);
                }
                assert forall|j: int, m: int| i <= j && #[trigger] number_item(items, j, m) implies divides(g, m) by {
                    if j == i {
                        assert(m == n);
                    }
                }
            },
            GcdLcmItem::RangeStart => {
                lemma_gcd_from_divides(items, i + 1, acc, saw, true, g);
            },
            GcdLcmItem::Ignored => {
                lemma_gcd_from_divides(items, i + 1, acc, saw, hr, g);
            },
            _ => {},
        }
    }
}

proof fn lemma_gcd_from_greatest(
    items: Seq<GcdLcmItem>,
    i: int,
    acc: Option<int>,
    saw: bool,
    hr: bool,
    g: int,
    d: int,
)
    requires
        0 <= i <= items.len(),
        acc matches Some(a) ==> a >= 0 && divides(d, a),
        forall|j: int, n: int| i <= j && #[trigger] number_item(items, j, n) ==> divides(d, n),
        gcd_lcm_from(false, items, i, acc, saw, hr) == Ok::<int, (Error, Seq<char>)>(g),
    ensures
        divides(d, g),
    decreases items.len() - i,
{
    if i == items.len() {
        if acc is None {
            assert(times(d, 0) == 0);
        }
    } else {
        match items[i] {
            GcdLcmItem::Number { finite, truncated } => {
                let n = truncated as int;
                assert(number_item(items, i, n));
                let v = match number_step(false, acc, finite, n) { Ok(v) => v, Err(_) => 0 };
                assert(number_step(false, acc, finite, n) is Ok);
                if let Some(a) = acc {
                    lemma_common_divisor_divides_gcd(a as nat, n as nat, d);
                }
                lemma_gcd_from_greatest(items, i + 1, Some(v), true, hr, g, d);
            },
            GcdLcmItem::RangeStart => {
                lemma_gcd_from_greatest(items, i + 1, acc, saw, true, g, d);
            },
            GcdLcmItem::Ignored => {
                lemma_gcd_from_greatest(items, i + 1, acc, saw, hr, g, d);
            },
            _ => {},
        }
    }
}

proof fn lemma_lcm_from_multiple(
    items: Seq<GcdLcmItem>,
    i: int,
    acc: Option<int>,
    saw: bool,
    hr: bool,
    l: int,
)
    requires
        0 <= i <= items.len(),
        acc matches Some(a) ==> a >= 0,
        gcd_lcm_from(true, items, i, acc, saw, hr) == Ok::<int, (Error, Seq<char>)>(l),
    ensures
        acc matches Some(a) ==> divides(a, l),
        forall|j: int, n: int| i <= j && #[trigger] number_item(items, j, n) ==> divides(n, l),
    decreases items.len() - i,
{
    if i == items.len() {
        if let Some(a) = acc {
            lemma_divides_self(a);
        }
    } else {
        match items[i] {
            GcdLcmItem::Number { finite, truncated } => {
                let n = truncated as int;
                let v = match number_step(true, acc, finite, n) { Ok(v) => v, Err(_) => 0 };
                assert(number_step(true, acc, finite, n) is Ok);
                lemma_lcm_from_multiple(items, i + 1, Some(v), true, hr, l);
                assert(n >= 0);
                if let Some(a) = acc {
                    assert(v == lcm_spec(a as nat, n as nat));
                    lemma_lcm_is_common_multiple(a as nat, n as nat);
                    lemma_divides_transitive(a, v, l);
                    lemma_divides_transitive(n, v, l);
                } else {
                    assert(v == n);
                }
                assert forall|j: int, m: int| i <= j && #[trigger] number_item(items, j, m) implies divides(m, l) by {
                    if j == i {
                        assert(m == n);
                    }
                }
            },
            GcdLcmItem::RangeStart => {
                lemma_lcm_from_multiple(items, i + 1, acc, saw, true, l);
            },
            GcdLcmItem::Ignored => {
                lemma_lcm_from_multiple(items, i + 1, acc, saw, hr, l);
            },
            _ => {},
        }
    }
}

/// When GCD succeeds, its result divides every number read from the
/// arguments, and every common divisor of those numbers divides it: it is
/// their greatest common divisor.
pub proof fn law_gcd_is_greatest_common_divisor(items: Seq<GcdLcmItem>, g: int, d: int)
    requires
        gcd_lcm_spec(false, items) == Ok::<int, (Error, Seq<char>)>(g),
    ensures
        forall|j: int, n: int| #[trigger] number_item(items, j, n) ==> divides(g, n),
        (forall|j: int, n: int| #[trigger] number_item(items, j, n) ==> divides(d, n)) ==> divides(d, g),
{
    lemma_gcd_from_divides(items, 0, None, false, false, g);
    if forall|j: int, n: int| #[trigger] number_item(items, j, n) ==> divides(d, n) {
        lemma_gcd_from_greatest(items, 0, None, false, false, g, d);
    }
}

/// When LCM succeeds, its result is a multiple of every number read from the
/// arguments.
pub proof fn law_lcm_is_common_multiple(items: Seq<GcdLcmItem>, l: int)
    requires
        gcd_lcm_spec(true, items) == Ok::<int, (Error, Seq<char>)>(l),
    ensures
        forall|j: int, n: int| #[trigger] number_item(items, j, n) ==> divides(n, l),
{
    lemma_lcm_from_multiple(items, 0, None, false, false, l);
}

} // verus!
