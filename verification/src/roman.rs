//! Roman numerals: parsing (ARABIC) and encoding in the classic and the
//! Excel-compatible simplified forms (ROMAN).
use vstd::prelude::*;
use vstd::string::*;
use crate::text::{chars_to_string, decimal, push_decimal, push_str, str_chars};

verus! {

/// The value of a Roman digit.
pub open spec fn roman_value(c: char) -> Option<u32> {
    if c == 'I' { Some(1u32) }
    else if c == 'V' { Some(5u32) }
    else if c == 'X' { Some(10u32) }
    else if c == 'L' { Some(50u32) }
    else if c == 'C' { Some(100u32) }
    else if c == 'D' { Some(500u32) }
    else if c == 'M' { Some(1000u32) }
    else { None }
}

/// The subtractive pairs that are accepted: the classic ones and those of
/// the simplified (Excel) forms.
pub open spec fn subtractive_pair(a: char, b: char) -> bool {
    ||| (a == 'I' && b == 'V') || (a == 'I' && b == 'X') || (a == 'X' && b == 'L')
    ||| (a == 'X' && b == 'C') || (a == 'C' && b == 'D') || (a == 'C' && b == 'M')
    ||| (a == 'V' && b == 'L') || (a == 'L' && b == 'D') || (a == 'L' && b == 'M')
    ||| (a == 'X' && b == 'D') || (a == 'X' && b == 'M') || (a == 'V' && b == 'M')
    ||| (a == 'I' && b == 'L') || (a == 'I' && b == 'C') || (a == 'I' && b == 'D')
    ||| (a == 'I' && b == 'M') || (a == 'V' && b == 'D') || (a == 'V' && b == 'C')
}

/// ASCII upper case of a character (other characters are left unchanged).
pub open spec fn ascii_upper(c: char) -> char {
    if 'a' <= c && c <= 'z' { ((c as u32) - 32) as char } else { c }
}

/// A message that quotes one character: `prefix'c'`.
pub open spec fn quoted_char_message(prefix: Seq<char>, c: char) -> Seq<char> {
    prefix + seq!['\'', c, '\'']
}

/// The state machine that reads a numeral from position `i`, with the running
/// `total`, the character of the current run (`last`) and the number of
/// repetitions seen in that run (`run`).
pub open spec fn parse_roman_from(
    cs: Seq<char>,
    i: int,
    total: int,
    last: Option<char>,
    run: int,
) -> Result<int, Seq<char>>
    decreases cs.len() - i,
{
    if i < 0 || i >= cs.len() {
        Ok(total)
    } else {
        let c = cs[i];
        match roman_value(c) {
            None => Err(quoted_char_message("invalid character "@, c)),
            Some(v) => {
                let repeated = last == Some(c);
                let run2 = if repeated { run + 1 } else { 0 };
                let last2 = if repeated { last } else { Some(c) };
                if repeated && (c == 'V' || c == 'L' || c == 'D' || run2 >= 3) {
                    Err(quoted_char_message("invalid repetition of "@, c))
                } else if i + 1 < cs.len() {
                    let c2 = cs[i + 1];
                    match roman_value(c2) {
                        None => Err(quoted_char_message("invalid character "@, c2)),
                        Some(v2) => {
                            if v < v2 {
                                if !subtractive_pair(c, c2) {
                                    Err("invalid subtractive pair '"@ + seq![c, c2, '\''])
                                } else if run2 > 0 {
                                    Err("malformed numeral near position "@ + decimal(i as nat))
                                } else {
                                    parse_roman_from(cs, i + 2, total + v2 - v, None, 0)
                                }
                            } else {
                                parse_roman_from(cs, i + 1, total + v, last2, run2)
                            }
                        },
                    }
                } else {
                    parse_roman_from(cs, i + 1, total + v, last2, run2)
                }
            },
        }
    }
}

/// What `from_roman` gives for the text `s`: an error message or the value.
pub open spec fn roman_to_number(s: Seq<char>) -> Result<int, Seq<char>> {
    if s.len() == 0 {
        Err("empty numeral"@)
    } else {
        parse_roman_from(s.map_values(|c: char| ascii_upper(c)), 0, 0, None, 0)
    }
}

/// The reading of `parse_roman_from` never takes its running total past
/// `u32::MAX` (the total is kept in a `u32`).
pub open spec fn roman_fits_from(
    cs: Seq<char>,
    i: int,
    total: int,
    last: Option<char>,
    run: int,
) -> bool
    decreases cs.len() - i,
{
    if i < 0 || i >= cs.len() {
        true
    } else {
        let c = cs[i];
        match roman_value(c) {
            None => true,
            Some(v) => {
                let repeated = last == Some(c);
                let run2 = if repeated { run + 1 } else { 0 };
                let last2 = if repeated { last } else { Some(c) };
                if repeated && (c == 'V' || c == 'L' || c == 'D' || run2 >= 3) {
                    true
                } else if i + 1 < cs.len() {
                    match roman_value(cs[i + 1]) {
                        None => true,
                        Some(v2) => {
                            if v < v2 {
                                if !subtractive_pair(c, cs[i + 1]) || run2 > 0 {
                                    true
                                } else {
                                    total + v2 - v <= u32::MAX && roman_fits_from(cs, i + 2, total + v2 - v, None, 0)
                                }
                            } else {
                                total + v <= u32::MAX && roman_fits_from(cs, i + 1, total + v, last2, run2)
                            }
                        },
                    }
                } else {
                    total + v <= u32::MAX && roman_fits_from(cs, i + 1, total + v, last2, run2)
                }
            },
        }
    }
}

/// Reading the numeral `s` keeps its running total within a `u32`.
pub open spec fn roman_fits(s: Seq<char>) -> bool {
    roman_fits_from(s.map_values(|c: char| ascii_upper(c)), 0, 0, None, 0)
}

fn roman_digit_value(c: char) -> (r: Option<u32>)
    ensures
        r == roman_value(c),
{
    match c {
        'I' => Some(1),
        'V' => Some(5),
        'X' => Some(10),
        'L' => Some(50),
        'C' => Some(100),
        'D' => Some(500),
        'M' => Some(1000),
        _ => None,
    }
}

fn allowed_subtractive(a: char, b: char) -> (r: bool)
    ensures
        r == subtractive_pair(a, b),
{
    (a == 'I' && b == 'V') || (a == 'I' && b == 'X') || (a == 'X' && b == 'L')
    || (a == 'X' && b == 'C') || (a == 'C' && b == 'D') || (a == 'C' && b == 'M')
    || (a == 'V' && b == 'L') || (a == 'L' && b == 'D') || (a == 'L' && b == 'M')
    || (a == 'X' && b == 'D') || (a == 'X' && b == 'M') || (a == 'V' && b == 'M')
    || (a == 'I' && b == 'L') || (a == 'I' && b == 'C') || (a == 'I' && b == 'D')
    || (a == 'I' && b == 'M') || (a == 'V' && b == 'D') || (a == 'V' && b == 'C')
}

fn to_ascii_upper(c: char) -> (r: char)
    ensures
        r == ascii_upper(c),
{
    if 'a' <= c && c <= 'z' {
        let u: u32 = c as u32;
        let b: u8 = u as u8;
        assert(b == u) by (bit_vector)
            requires u <= 122u32, b == u as u8;
        ((b - 32) as char)
    } else {
        c
    }
}

fn quoted_char_error(prefix: &str, c: char) -> (s: String)
    ensures
        s@ == quoted_char_message(prefix@, c),
{
    let mut v: Vec<char> = Vec::new();
    push_str(&mut v, prefix);
    v.push('\'');
    v.push(c);
    v.push('\'');
    assert(v@ =~= quoted_char_message(prefix@, c));
    chars_to_string(&v)
}

/// Parse Roman (classic or Excel variants) → number; the running total
/// must stay within a `u32`.
pub fn from_roman(s: &str) -> (r: Result<u32, String>)
    requires
        roman_fits(s@),
    ensures
        match r {
            Ok(v) => roman_to_number(s@) == Ok::<int, Seq<char>>(v as int),
            Err(m) => roman_to_number(s@) == Err::<int, Seq<char>>(m@),
        },
{
    if s.is_empty() {
        return Err(String::from_str("empty numeral"));
    }
    let raw = str_chars(s);
    let mut chars: Vec<char> = Vec::new();
    let mut k: usize = 0;
    while k < raw.len()
        invariant
            raw@ == s@,
            k <= raw.len(),
            chars@ == raw@.take(k as int).map_values(|c: char| ascii_upper(c)),
        decreases raw.len() - k,
    {
        chars.push(to_ascii_upper(raw[k]));
        k = k + 1;
        assert(chars@ =~= raw@.take(k as int).map_values(|c: char| ascii_upper(c)));
    }
    assert(raw@.take(k as int) =~= raw@);
    let ghost cs = chars@;
    let mut total: u32 = 0;
    let mut i: usize = 0;
    let mut last_char: Option<char> = None;
    let mut run_len: usize = 0;
    while i < chars.len()
        invariant
            cs == chars@,
            i <= cs.len(),
            run_len <= 3,
            roman_to_number(s@) == parse_roman_from(cs, i as int, total as int, last_char, run_len as int),
            roman_fits_from(cs, i as int, total as int, last_char, run_len as int),
        decreases chars.len() - i,
    {
        let c = chars[i];
        let v = match roman_digit_value(c) {
            Some(v) => v,
            None => {
                return Err(quoted_char_error("invalid character ", c));
            },
        };
        if last_char == Some(c) {
            run_len = run_len + 1;
            if c == 'V' || c == 'L' || c == 'D' || run_len >= 3 {
                return Err(quoted_char_error("invalid repetition of ", c));
            }
        } else {
            last_char = Some(c);
            run_len = 0;
        }
        if i + 1 < chars.len() {
            let c2 = chars[i + 1];
            let v2 = match roman_digit_value(c2) {
                Some(v2) => v2,
                None => {
                    return Err(quoted_char_error("invalid character ", c2));
                },
            };
            if v < v2 {
                if !allowed_subtractive(c, c2) {
                    let mut m: Vec<char> = Vec::new();
                    push_str(&mut m, "invalid subtractive pair '");
                    m.push(c);
                    m.push(c2);
                    m.push('\'');
                    assert(m@ =~= "invalid subtractive pair '"@ + seq![c, c2, '\'']);
                    return Err(chars_to_string(&m));
                }
                if run_len > 0 {
                    let mut m: Vec<char> = Vec::new();
                    push_str(&mut m, "malformed numeral near position ");
                    push_decimal(&mut m, i as u64);
                    return Err(chars_to_string(&m));
                }
                total = total + (v2 - v);
                i = i + 2;
                last_char = None;
                run_len = 0;
                continue;
            }
        }
        total = total + v;
        i = i + 1;
    }
    Ok(total)
}


/// One decimal digit `d` written with the symbols for one, five and ten.
pub open spec fn roman_digit(d: int, one: char, five: char, ten: char) -> Seq<char> {
    if d == 1 { seq![one] }
    else if d == 2 { seq![one, one] }
    else if d == 3 { seq![one, one, one] }
    else if d == 4 { seq![one, five] }
    else if d == 5 { seq![five] }
    else if d == 6 { seq![five, one] }
    else if d == 7 { seq![five, one, one] }
    else if d == 8 { seq![five, one, one, one] }
    else if d == 9 { seq![one, ten] }
    else { Seq::empty() }
}

/// The classic (strict) Roman numeral of `n`: thousands as `M`s, then the
/// hundreds, tens and units digits.
pub open spec fn classic_roman(n: int) -> Seq<char> {
    Seq::new((n / 1000) as nat, |i: int| 'M')
        + roman_digit((n / 100) % 10, 'C', 'D', 'M')
        + roman_digit((n / 10) % 10, 'X', 'L', 'C')
        + roman_digit(n % 10, 'I', 'V', 'X')
}

/// What `to_roman` gives for `n`.
pub open spec fn to_roman_spec(n: int) -> Result<Seq<char>, Seq<char>> {
    if 1 <= n <= 3999 {
        Ok(classic_roman(n))
    } else {
        Err("value out of range (must be 1..=3999)"@)
    }
}

fn push_roman_digit(out: &mut Vec<char>, d: u32, one: char, five: char, ten: char)
    requires
        d < 10,
    ensures
        final(out)@ == old(out)@ + roman_digit(d as int, one, five, ten),
{
    let ghost start = out@;
    if d == 9 {
        out.push(one);
        out.push(ten);
    } else if d == 4 {
        out.push(one);
        out.push(five);
    } else {
        let mut rest = d;
        if d >= 5 {
            out.push(five);
            rest = d - 5;
        }
        let mut k: u32 = 0;
        while k < rest
            invariant
                rest <= 3,
                k <= rest,
                out@ == start + (if d >= 5 { seq![five] } else { Seq::<char>::empty() })
                    + Seq::new(k as nat, |i: int| one),
            decreases rest - k,
        {
            out.push(one);
            k = k + 1;
            assert(out@ =~= start + (if d >= 5 { seq![five] } else { Seq::<char>::empty() })
                + Seq::new(k as nat, |i: int| one));
        }
    }
    assert(out@ =~= start + roman_digit(d as int, one, five, ten));
}

/// Classic Roman (strict) encoder used as a base for all forms.
fn to_roman(n: u32) -> (r: Result<String, String>)
    ensures
        match r {
            Ok(s) => to_roman_spec(n as int) == Ok::<Seq<char>, Seq<char>>(s@),
            Err(m) => to_roman_spec(n as int) == Err::<Seq<char>, Seq<char>>(m@),
        },
{
    if !(1 <= n && n <= 3999) {
        return Err(String::from_str("value out of range (must be 1..=3999)"));
    }
    let mut out: Vec<char> = Vec::new();
    let thousands = n / 1000;
    let mut k: u32 = 0;
    while k < thousands
        invariant
            thousands <= 3,
            k <= thousands,
            out@ == Seq::new(k as nat, |i: int| 'M'),
        decreases thousands - k,
    {
        out.push('M');
        k = k + 1;
        assert(out@ =~= Seq::new(k as nat, |i: int| 'M'));
    }
    push_roman_digit(&mut out, (n / 100) % 10, 'C', 'D', 'M');
    push_roman_digit(&mut out, (n / 10) % 10, 'X', 'L', 'C');
    push_roman_digit(&mut out, n % 10, 'I', 'V', 'X');
    assert(out@ =~= classic_roman(n as int));
    Ok(chars_to_string(&out))
}

/// `s` holds `pattern` starting at position `i`.
pub open spec fn occurs_at(s: Seq<char>, pattern: Seq<char>, i: int) -> bool {
    0 <= i && i + pattern.len() <= s.len() && s.subrange(i, i + pattern.len()) == pattern
}

/// `s` holds `pattern` somewhere.
pub open spec fn contains_seq(s: Seq<char>, pattern: Seq<char>) -> bool {
    exists|i: int| occurs_at(s, pattern, i)
}

/// Every non-overlapping occurrence of `from`, scanning left to right,
/// replaced by `to` (`str::replace`; `from` is not empty).
pub open spec fn replace_all(s: Seq<char>, from: Seq<char>, to: Seq<char>) -> Seq<char>
    decreases s.len(),
{
    if from.len() == 0 || s.len() < from.len() {
        s
    } else if s.take(from.len() as int) == from {
        to + replace_all(s.skip(from.len() as int), from, to)
    } else {
        seq![s[0]] + replace_all(s.skip(1), from, to)
    }
}

/// One rewriting rule applied to `s`: every occurrence of `from` replaced.
pub open spec fn apply_rule(s: Seq<char>, rule: (Seq<char>, Seq<char>)) -> Seq<char> {
    replace_all(s, rule.0, rule.1)
}

/// Replacing a pattern that does not occur changes nothing.
proof fn lemma_replace_absent(s: Seq<char>, from: Seq<char>, to: Seq<char>)
    requires
        from.len() > 0,
        !contains_seq(s, from),
    ensures
        replace_all(s, from, to) == s,
    decreases s.len(),
{
    if s.len() >= from.len() {
        assert(!occurs_at(s, from, 0));
        assert(s.subrange(0, from.len() as int) =~= s.take(from.len() as int));
        let t = s.skip(1);
        assert forall|i: int| !occurs_at(t, from, i) by {
            if occurs_at(t, from, i) {
                assert(t.subrange(i, i + from.len()) =~= s.subrange(i + 1, i + 1 + from.len()));
                assert(occurs_at(s, from, i + 1));
            }
        }
        lemma_replace_absent(t, from, to);
        assert(seq![s[0]] + t =~= s);
    }
}

/// The rules applied one after the other, in order.
pub open spec fn apply_rules_spec(s: Seq<char>, rules: Seq<(Seq<char>, Seq<char>)>) -> Seq<char>
    decreases rules.len(),
{
    if rules.len() == 0 {
        s
    } else {
        apply_rules_spec(apply_rule(s, rules[0]), rules.drop_first())
    }
}

/// Rules applied from form 1 on.
pub open spec fn base_rules() -> Seq<(Seq<char>, Seq<char>)> {
    seq![
        ("CDXC"@, "LDXL"@), ("CMXC"@, "LMXL"@), ("CDL"@, "LD"@), ("CML"@, "LM"@),
        ("XLIX"@, "VLIV"@), ("XCIX"@, "VCIV"@), ("XLV"@, "VL"@), ("XCV"@, "VC"@),
    ]
}

/// Rules added at form 2.
pub open spec fn level2_rules() -> Seq<(Seq<char>, Seq<char>)> {
    seq![
        ("VLIV"@, "IL"@), ("VCIV"@, "IC"@), ("LDXL"@, "XD"@), ("LMXL"@, "XM"@),
        ("LDVL"@, "XDV"@), ("LMVL"@, "XMV"@), ("LDIL"@, "XDIX"@), ("LMIL"@, "XMIX"@),
    ]
}

/// Rules added at form 3.
pub open spec fn level3_rules() -> Seq<(Seq<char>, Seq<char>)> {
    seq![("XDV"@, "VD"@), ("XMV"@, "VM"@), ("XDIX"@, "VDIV"@), ("XMIX"@, "VMIV"@)]
}

/// Rules added at form 4.
pub open spec fn level4_rules() -> Seq<(Seq<char>, Seq<char>)> {
    seq![("VDIV"@, "ID"@), ("VMIV"@, "IM"@)]
}

/// The numeral of `classic` rewritten for `form` (1 to 4).
pub open spec fn simplify_roman(classic: Seq<char>, form: int) -> Seq<char> {
    let s1 = apply_rules_spec(classic, base_rules());
    let s2 = if form >= 2 { apply_rules_spec(s1, level2_rules()) } else { s1 };
    let s3 = if form >= 3 { apply_rules_spec(s2, level3_rules()) } else { s2 };
    if form >= 4 { apply_rules_spec(s3, level4_rules()) } else { s3 }
}

/// What `to_roman_with_form` gives for `n` and `form`.
pub open spec fn roman_with_form_spec(n: int, form: int) -> Result<Seq<char>, Seq<char>> {
    match to_roman_spec(n) {
        Err(m) => Err(m),
        Ok(classic) => {
            if form == 0 {
                Ok(classic)
            } else if !(0 <= form <= 4) {
                Err("form must be between 0 and 4"@)
            } else {
                Ok(simplify_roman(classic, form))
            }
        },
    }
}

fn occurs_at_exec(s: &Vec<char>, pattern: &Vec<char>, i: usize) -> (r: bool)
    ensures
        r == occurs_at(s@, pattern@, i as int),
{
    if i > s.len() || pattern.len() > s.len() - i {
        return false;
    }
    let mut k: usize = 0;
    while k < pattern.len()
        invariant
            i + pattern.len() <= s.len(),
            k <= pattern.len(),
            forall|j: int| 0 <= j < k ==> s@[i + j] == pattern@[j],
        decreases pattern.len() - k,
    {
        if s[i + k] != pattern[k] {
            assert(s@.subrange(i as int, i + pattern.len())[k as int] != pattern@[k as int]);
            return false;
        }
        k = k + 1;
    }
    assert(s@.subrange(i as int, i + pattern.len()) =~= pattern@);
    true
}

fn contains_exec(s: &Vec<char>, pattern: &Vec<char>) -> (r: bool)
    requires
        pattern.len() > 0,
    ensures
        r == contains_seq(s@, pattern@),
{
    if pattern.len() > s.len() {
        return false;
    }
    let mut i: usize = 0;
    while i <= s.len() - pattern.len()
        invariant
            0 < pattern.len() <= s.len(),
            i <= s.len() - pattern.len() + 1,
            forall|j: int| 0 <= j < i ==> !occurs_at(s@, pattern@, j),
        decreases s.len() - pattern.len() + 1 - i,
    {
        if occurs_at_exec(s, pattern, i) {
            return true;
        }
        i = i + 1;
    }
    assert forall|j: int| !occurs_at(s@, pattern@, j) by {
        if 0 <= j < i {
        }
    }
    false
}

pub(crate) fn replace_all_exec(s: &Vec<char>, from: &Vec<char>, to: &Vec<char>) -> (r: Vec<char>)
    requires
        from.len() > 0,
    ensures
        r@ == replace_all(s@, from@, to@),
{
    let mut out: Vec<char> = Vec::new();
    let mut i: usize = 0;
    assert(s@.skip(0) =~= s@);
    while i < s.len()
        invariant
            from.len() > 0,
            i <= s.len(),
            out@ + replace_all(s@.skip(i as int), from@, to@) == replace_all(s@, from@, to@),
        decreases s.len() - i,
    {
        let ghost rest = s@.skip(i as int);
        if occurs_at_exec(s, from, i) {
            proof {
                assert(rest.take(from.len() as int) =~= s@.subrange(i as int, i + from.len()));
                assert(rest.skip(from.len() as int) =~= s@.skip(i + from.len()));
            }
            let mut k: usize = 0;
            let ghost before = out@;
            while k < to.len()
                invariant
                    k <= to.len(),
                    out@ == before + to@.take(k as int),
                decreases to.len() - k,
            {
                out.push(to[k]);
                k = k + 1;
                assert(out@ =~= before + to@.take(k as int));
            }
            assert(to@.take(k as int) =~= to@);
            i = i + from.len();
            assert(out@ + replace_all(s@.skip(i as int), from@, to@) =~= before + replace_all(rest, from@, to@));
        } else {
            proof {
                if rest.len() >= from.len() {
                    assert(rest.take(from.len() as int) =~= s@.subrange(i as int, i + from.len()));
                }
                assert(rest.skip(1) =~= s@.skip(i + 1));
            }
            let ghost before = out@;
            out.push(s[i]);
            i = i + 1;
            assert(out@ + replace_all(s@.skip(i as int), from@, to@) =~= before + replace_all(rest, from@, to@));
        }
    }
    assert(s@.skip(i as int) =~= Seq::<char>::empty());
    assert(out@ + replace_all(s@.skip(i as int), from@, to@) =~= out@);
    out
}

/// Helper to apply a batch of (from -> to) globally, in order.
fn apply_rules(t0: Vec<char>, rules: &[(&str, &str)]) -> (r: Vec<char>)
    requires
        forall|k: int| 0 <= k < rules@.len() ==> (#[trigger] rules@[k]).0@.len() > 0,
    ensures
        r@ == apply_rules_spec(t0@, rules@.map_values(|p: (&str, &str)| (p.0@, p.1@))),
{
    let ghost all = rules@.map_values(|p: (&str, &str)| (p.0@, p.1@));
    let mut t = t0;
    let mut k: usize = 0;
    assert(all.skip(0) =~= all);
    while k < rules.len()
        invariant
            k <= rules@.len(),
            all == rules@.map_values(|p: (&str, &str)| (p.0@, p.1@)),
            forall|j: int| 0 <= j < rules@.len() ==> (#[trigger] rules@[j]).0@.len() > 0,
            apply_rules_spec(t@, all.skip(k as int)) == apply_rules_spec(t0@, all),
        decreases rules.len() - k,
    {
        let (from, to) = rules[k];
        let from_v = str_chars(from);
        let to_v = str_chars(to);
        proof {
            assert(all.skip(k as int)[0] == (from@, to@));
            assert(all.skip(k as int).drop_first() =~= all.skip(k + 1));
        }
        if contains_exec(&t, &from_v) {
            t = replace_all_exec(&t, &from_v, &to_v);
        } else {
            proof {
                lemma_replace_absent(t@, from@, to@);
            }
        }
        k = k + 1;
    }
    assert(all.skip(k as int) =~= Seq::<(Seq<char>, Seq<char>)>::empty());
    t
}

/// Excel/Google Sheets compatible ROMAN(number, [form]) encoder.
/// `form`: 0..=4 (0=Classic, 4=Simplified).
pub fn to_roman_with_form(n: u32, form: i32) -> (r: Result<String, String>)
    ensures
        match r {
            Ok(s) => roman_with_form_spec(n as int, form as int) == Ok::<Seq<char>, Seq<char>>(s@),
            Err(m) => roman_with_form_spec(n as int, form as int) == Err::<Seq<char>, Seq<char>>(m@),
        },
{
    let s = match to_roman(n) {
        Ok(s) => s,
        Err(m) => return Err(m),
    };
    if form == 0 {
        return Ok(s);
    }
    if !(0 <= form && form <= 4) {
        return Err(String::from_str("form must be between 0 and 4"));
    }
    let base: [(&str, &str); 8] = [
        ("CDXC", "LDXL"), ("CMXC", "LMXL"), ("CDL", "LD"), ("CML", "LM"),
        ("XLIX", "VLIV"), ("XCIX", "VCIV"), ("XLV", "VL"), ("XCV", "VC"),
    ];
    let lvl2: [(&str, &str); 8] = [
        ("VLIV", "IL"), ("VCIV", "IC"), ("LDXL", "XD"), ("LMXL", "XM"),
        ("LDVL", "XDV"), ("LMVL", "XMV"), ("LDIL", "XDIX"), ("LMIL", "XMIX"),
    ];
    let lvl3: [(&str, &str); 4] = [("XDV", "VD"), ("XMV", "VM"), ("XDIX", "VDIV"), ("XMIX", "VMIV")];
    let lvl4: [(&str, &str); 2] = [("VDIV", "ID"), ("VMIV", "IM")];
    proof {
        reveal_strlit("CDXC"); reveal_strlit("CMXC"); reveal_strlit("CDL"); reveal_strlit("CML");
        reveal_strlit("XLIX"); reveal_strlit("XCIX"); reveal_strlit("XLV"); reveal_strlit("XCV");
        reveal_strlit("VLIV"); reveal_strlit("VCIV"); reveal_strlit("LDXL"); reveal_strlit("LMXL");
        reveal_strlit("LDVL"); reveal_strlit("LMVL"); reveal_strlit("LDIL"); reveal_strlit("LMIL");
        reveal_strlit("XDV"); reveal_strlit("XMV"); reveal_strlit("XDIX"); reveal_strlit("XMIX");
        reveal_strlit("VDIV"); reveal_strlit("VMIV");
        assert(base@.map_values(|p: (&str, &str)| (p.0@, p.1@)) =~= base_rules());
        assert(lvl2@.map_values(|p: (&str, &str)| (p.0@, p.1@)) =~= level2_rules());
        assert(lvl3@.map_values(|p: (&str, &str)| (p.0@, p.1@)) =~= level3_rules());
        assert(lvl4@.map_values(|p: (&str, &str)| (p.0@, p.1@)) =~= level4_rules());
    }
    let mut t = str_chars(s.as_str());
    t = apply_rules(t, base.as_slice());
    if form >= 2 {
        t = apply_rules(t, lvl2.as_slice());
    }
    if form >= 3 {
        t = apply_rules(t, lvl3.as_slice());
    }
    if form >= 4 {
        t = apply_rules(t, lvl4.as_slice());
    }
    Ok(chars_to_string(&t))
}

/// The reader's last character after a digit `d` written with `one` and
/// `five`: none after a subtractive pair.
pub open spec fn digit_last(d: int, one: char, five: char) -> Option<char> {
    if d == 5 {
        Some(five)
    } else if d == 4 || d == 9 || d == 0 {
        None
    } else {
        Some(one)
    }
}

/// The reader's repetition count after a digit `d`.
pub open spec fn digit_run(d: int) -> int {
    if d == 2 || d == 7 {
        1
    } else if d == 3 || d == 8 {
        2
    } else {
        0
    }
}

/// The value of the Roman digit `c` (zero for any other character).
pub open spec fn digit_value(c: char) -> int {
    match roman_value(c) {
        Some(v) => v as int,
        None => 0,
    }
}

/// Reading one decimal digit of a classic numeral adds its value and leaves
/// the reader in a known state, provided the character before it is not one
/// of its symbols and the character after it is worth less than `one`.
proof fn lemma_read_digit(
    cs: Seq<char>,
    i: int,
    total: int,
    last: Option<char>,
    run: int,
    d: int,
    one: char,
    five: char,
    ten: char,
)
    requires
        1 <= d <= 9,
        0 <= i,
        i + roman_digit(d, one, five, ten).len() <= cs.len(),
        cs.subrange(i, i + roman_digit(d, one, five, ten).len()) == roman_digit(d, one, five, ten),
        roman_value(one) is Some,
        4 <= d <= 8 ==> roman_value(five) is Some && digit_value(five) == 5 * digit_value(one),
        d == 9 ==> roman_value(ten) is Some && digit_value(ten) == 10 * digit_value(one),
        d == 4 ==> subtractive_pair(one, five),
        d == 9 ==> subtractive_pair(one, ten),
        one != five,
        one != ten,
        one != 'V' && one != 'L' && one != 'D',
        last != Some(one),
        last != Some(five),
        i + roman_digit(d, one, five, ten).len() < cs.len() ==> roman_value(
            cs[i + roman_digit(d, one, five, ten).len()],
        ) is Some && digit_value(cs[i + roman_digit(d, one, five, ten).len()]) < digit_value(one),
    ensures
        parse_roman_from(cs, i, total, last, run) == parse_roman_from(
            cs,
            i + roman_digit(d, one, five, ten).len(),
            total + d * digit_value(one),
            digit_last(d, one, five),
            digit_run(d),
        ),
{
    let k = roman_digit(d, one, five, ten).len() as int;
    let u = digit_value(one);
    assert forall|j: int| 0 <= j < k implies cs[i + j] == #[trigger] roman_digit(d, one, five, ten)[j] by {
        assert(cs.subrange(i, i + k)[j] == cs[i + j]);
    }
    if d == 1 {
        assert(roman_digit(d, one, five, ten)[0] == one);
        assert(cs[i] == one);
    } else if d == 2 {
        assert(cs[i] == one && cs[i + 1] == one);
        assert(parse_roman_from(cs, i + 1, total + u, Some(one), 0) == parse_roman_from(cs, i + 2, total + 2 * u, Some(one), 1));
    } else if d == 3 {
        assert(cs[i] == one && cs[i + 1] == one && cs[i + 2] == one);
        assert(parse_roman_from(cs, i + 2, total + 2 * u, Some(one), 1) == parse_roman_from(cs, i + 3, total + 3 * u, Some(one), 2));
        assert(parse_roman_from(cs, i + 1, total + u, Some(one), 0) == parse_roman_from(cs, i + 3, total + 3 * u, Some(one), 2));
    } else if d == 4 {
        assert(cs[i] == one && cs[i + 1] == five);
    } else if d == 5 {
        assert(roman_digit(d, one, five, ten)[0] == five);
        assert(cs[i] == five);
    } else if d == 6 {
        assert(cs[i] == five && cs[i + 1] == one);
        assert(parse_roman_from(cs, i + 1, total + 5 * u, Some(five), 0) == parse_roman_from(cs, i + 2, total + 6 * u, Some(one), 0));
    } else if d == 7 {
        assert(cs[i] == five && cs[i + 1] == one && cs[i + 2] == one);
        assert(parse_roman_from(cs, i + 2, total + 6 * u, Some(one), 0) == parse_roman_from(cs, i + 3, total + 7 * u, Some(one), 1));
        assert(parse_roman_from(cs, i + 1, total + 5 * u, Some(five), 0) == parse_roman_from(cs, i + 3, total + 7 * u, Some(one), 1));
    } else if d == 8 {
        assert(cs[i] == five && cs[i + 1] == one && cs[i + 2] == one && cs[i + 3] == one);
        assert(parse_roman_from(cs, i + 3, total + 7 * u, Some(one), 1) == parse_roman_from(cs, i + 4, total + 8 * u, Some(one), 2));
        assert(parse_roman_from(cs, i + 2, total + 6 * u, Some(one), 0) == parse_roman_from(cs, i + 4, total + 8 * u, Some(one), 2));
        assert(parse_roman_from(cs, i + 1, total + 5 * u, Some(five), 0) == parse_roman_from(cs, i + 4, total + 8 * u, Some(one), 2));
    } else {
        assert(cs[i] == one && cs[i + 1] == ten);
    }
}

proof fn lemma_digit_shape(d: int, one: char, five: char, ten: char)
    requires
        0 <= d <= 9,
    ensures
        roman_digit(d, one, five, ten).len() == 0 <==> d == 0,
        roman_digit(d, one, five, ten).len() <= 4,
        d >= 1 ==> roman_digit(d, one, five, ten)[0] == if 5 <= d <= 8 { five } else { one },
        forall|j: int| 0 <= j < roman_digit(d, one, five, ten).len() ==>
            (#[trigger] roman_digit(d, one, five, ten)[j] == one || roman_digit(d, one, five, ten)[j] == five
                || roman_digit(d, one, five, ten)[j] == ten),
{
}

/// The decimal digits of a number from 1 to 3999.
#[verifier::spinoff_prover]
proof fn lemma_decimal_digits(n: int)
    requires
        1 <= n <= 3999,
    ensures
        0 <= n / 1000 <= 3,
        0 <= (n / 100) % 10 <= 9,
        0 <= (n / 10) % 10 <= 9,
        0 <= n % 10 <= 9,
        1000 * (n / 1000) + 100 * ((n / 100) % 10) + 10 * ((n / 10) % 10) + n % 10 == n,
{
    let a = n / 1000;
    let b = n / 100;
    let c = n / 10;
    assert(n == 1000 * a + n % 1000 && 0 <= n % 1000 < 1000);
    assert(n == 100 * b + n % 100 && 0 <= n % 100 < 100);
    assert(n == 10 * c + n % 10 && 0 <= n % 10 < 10);
    assert(b == 10 * a + b % 10);
    assert(c == 10 * b + c % 10);
}

/// Thousands written as `M`s are a digit group of `M`.
proof fn lemma_thousands(a: int)
    requires
        0 <= a <= 3,
    ensures
        Seq::new(a as nat, |i: int| 'M') == roman_digit(a, 'M', 'V', 'X'),
{
    assert(Seq::new(a as nat, |i: int| 'M') =~= roman_digit(a, 'M', 'V', 'X'));
}

/// The four parts of a classic numeral: thousands, hundreds, tens, units.
proof fn lemma_classic_parts(n: int)
    requires
        1 <= n <= 3999,
    ensures
        0 <= n / 1000 <= 3,
        0 <= (n / 100) % 10 <= 9,
        0 <= (n / 10) % 10 <= 9,
        0 <= n % 10 <= 9,
        1000 * (n / 1000) + 100 * ((n / 100) % 10) + 10 * ((n / 10) % 10) + n % 10 == n,
        classic_roman(n) == roman_digit(n / 1000, 'M', 'V', 'X') + roman_digit((n / 100) % 10, 'C', 'D', 'M')
            + roman_digit((n / 10) % 10, 'X', 'L', 'C') + roman_digit(n % 10, 'I', 'V', 'X'),
{
    lemma_decimal_digits(n);
    lemma_thousands(n / 1000);
}

/// The characters of a classic numeral are upper-case Roman digits.
proof fn lemma_classic_upper(a: Seq<char>, b: Seq<char>, c: Seq<char>, d: Seq<char>)
    requires
        forall|j: int| 0 <= j < a.len() ==> #[trigger] ascii_upper(a[j]) == a[j],
        forall|j: int| 0 <= j < b.len() ==> #[trigger] ascii_upper(b[j]) == b[j],
        forall|j: int| 0 <= j < c.len() ==> #[trigger] ascii_upper(c[j]) == c[j],
        forall|j: int| 0 <= j < d.len() ==> #[trigger] ascii_upper(d[j]) == d[j],
    ensures
        (a + b + c + d).map_values(|x: char| ascii_upper(x)) == a + b + c + d,
{
    let s = a + b + c + d;
    assert forall|j: int| 0 <= j < s.len() implies #[trigger] ascii_upper(s[j]) == s[j] by {
        if j < a.len() {
            assert(s[j] == a[j]);
        } else if j < a.len() + b.len() {
            assert(s[j] == b[j - a.len()]);
        } else if j < a.len() + b.len() + c.len() {
            assert(s[j] == c[j - a.len() - b.len()]);
        } else {
            assert(s[j] == d[j - a.len() - b.len() - c.len()]);
        }
    }
    assert(s.map_values(|x: char| ascii_upper(x)) =~= s);
}

/// The digits of a Roman digit group are upper-case.
proof fn lemma_digit_upper(d: int, one: char, five: char, ten: char)
    requires
        0 <= d <= 9,
        ascii_upper(one) == one,
        ascii_upper(five) == five,
        ascii_upper(ten) == ten,
    ensures
        forall|j: int| 0 <= j < roman_digit(d, one, five, ten).len() ==>
            #[trigger] ascii_upper(roman_digit(d, one, five, ten)[j]) == roman_digit(d, one, five, ten)[j],
{
    lemma_digit_shape(d, one, five, ten);
}

/// ARABIC reads back what ROMAN writes in the classic form: for every
/// number from 1 to 3999, the classic numeral parses to that number.
#[verifier::spinoff_prover]
pub proof fn law_roman_classic_round_trip(n: int)
    requires
        1 <= n <= 3999,
    ensures
        roman_with_form_spec(n, 0) == Ok::<Seq<char>, Seq<char>>(classic_roman(n)),
        roman_to_number(classic_roman(n)) == Ok::<int, Seq<char>>(n),
{
    lemma_classic_parts(n);
    let a = n / 1000;
    let h = (n / 100) % 10;
    let t = (n / 10) % 10;
    let u = n % 10;
    let sa = roman_digit(a, 'M', 'V', 'X');
    let sh = roman_digit(h, 'C', 'D', 'M');
    let st = roman_digit(t, 'X', 'L', 'C');
    let su = roman_digit(u, 'I', 'V', 'X');
    let cs = classic_roman(n);
    lemma_digit_shape(a, 'M', 'V', 'X');
    lemma_digit_shape(h, 'C', 'D', 'M');
    lemma_digit_shape(t, 'X', 'L', 'C');
    lemma_digit_shape(u, 'I', 'V', 'X');
    lemma_digit_upper(a, 'M', 'V', 'X');
    lemma_digit_upper(h, 'C', 'D', 'M');
    lemma_digit_upper(t, 'X', 'L', 'C');
    lemma_digit_upper(u, 'I', 'V', 'X');
    lemma_classic_upper(sa, sh, st, su);
    let i1 = sa.len() as int;
    let i2 = i1 + sh.len();
    let i3 = i2 + st.len();
    let i4 = i3 + su.len();
    assert(cs.len() == i4);
    assert(cs.subrange(0, i1) =~= sa);
    assert(cs.subrange(i1, i2) =~= sh);
    assert(cs.subrange(i2, i3) =~= st);
    assert(cs.subrange(i3, i4) =~= su);
    assert(i1 < cs.len() ==> cs[i1] == (if h > 0 { sh[0] } else if t > 0 { st[0] } else { su[0] }));
    assert(i2 < cs.len() ==> cs[i2] == (if t > 0 { st[0] } else { su[0] }));
    assert(i3 < cs.len() ==> cs[i3] == su[0]);
    let l1 = if a > 0 { digit_last(a, 'M', 'V') } else { None };
    let r1 = if a > 0 { digit_run(a) } else { 0 };
    if a > 0 {
        lemma_read_digit(cs, 0, 0, None, 0, a, 'M', 'V', 'X');
    }
    let l2 = if h > 0 { digit_last(h, 'C', 'D') } else { l1 };
    let r2 = if h > 0 { digit_run(h) } else { r1 };
    if h > 0 {
        lemma_read_digit(cs, i1, 1000 * a, l1, r1, h, 'C', 'D', 'M');
    }
    let l3 = if t > 0 { digit_last(t, 'X', 'L') } else { l2 };
    let r3 = if t > 0 { digit_run(t) } else { r2 };
    if t > 0 {
        lemma_read_digit(cs, i2, 1000 * a + 100 * h, l2, r2, t, 'X', 'L', 'C');
    }
    let l4 = if u > 0 { digit_last(u, 'I', 'V') } else { l3 };
    let r4 = if u > 0 { digit_run(u) } else { r3 };
    if u > 0 {
        lemma_read_digit(cs, i3, 1000 * a + 100 * h + 10 * t, l3, r3, u, 'I', 'V', 'X');
    }
    assert(parse_roman_from(cs, 0, 0, None, 0) == parse_roman_from(cs, i4, n, l4, r4));
}

/// Replacing a pattern by one no longer never lengthens a text.
proof fn lemma_replace_all_shortens(s: Seq<char>, from: Seq<char>, to: Seq<char>)
    requires
        to.len() <= from.len(),
    ensures
        replace_all(s, from, to).len() <= s.len(),
    decreases s.len(),
{
    if from.len() == 0 || s.len() < from.len() {
    } else if s.take(from.len() as int) == from {
        lemma_replace_all_shortens(s.skip(from.len() as int), from, to);
    } else {
        lemma_replace_all_shortens(s.skip(1), from, to);
    }
}

/// Rules that each replace a pattern by one no longer.
pub open spec fn shortening(rules: Seq<(Seq<char>, Seq<char>)>) -> bool {
    forall|k: int| 0 <= k < rules.len() ==> (#[trigger] rules[k]).1.len() <= rules[k].0.len()
}

proof fn lemma_rules_shorten(s: Seq<char>, rules: Seq<(Seq<char>, Seq<char>)>)
    requires
        shortening(rules),
    ensures
        apply_rules_spec(s, rules).len() <= s.len(),
    decreases rules.len(),
{
    if rules.len() > 0 {
        lemma_replace_all_shortens(s, rules[0].0, rules[0].1);
        assert(shortening(rules.drop_first())) by {
            assert forall|k: int| 0 <= k < rules.drop_first().len() implies
                (#[trigger] rules.drop_first()[k]).1.len() <= rules.drop_first()[k].0.len() by {
                assert(rules.drop_first()[k] == rules[k + 1]);
            }
        }
        lemma_rules_shorten(apply_rule(s, rules[0]), rules.drop_first());
    }
}

proof fn lemma_rule_tables_shorten()
    ensures
        shortening(base_rules()),
        shortening(level2_rules()),
        shortening(level3_rules()),
        shortening(level4_rules()),
{
    reveal_strlit("CDXC"); reveal_strlit("CMXC"); reveal_strlit("CDL"); reveal_strlit("CML");
    reveal_strlit("XLIX"); reveal_strlit("XCIX"); reveal_strlit("XLV"); reveal_strlit("XCV");
    reveal_strlit("LDXL"); reveal_strlit("LMXL"); reveal_strlit("LD"); reveal_strlit("LM");
    reveal_strlit("VLIV"); reveal_strlit("VCIV"); reveal_strlit("VL"); reveal_strlit("VC");
    reveal_strlit("IL"); reveal_strlit("IC"); reveal_strlit("XD"); reveal_strlit("XM");
    reveal_strlit("LDVL"); reveal_strlit("LMVL"); reveal_strlit("XDV"); reveal_strlit("XMV");
    reveal_strlit("LDIL"); reveal_strlit("LMIL"); reveal_strlit("XDIX"); reveal_strlit("XMIX");
    reveal_strlit("VD"); reveal_strlit("VM"); reveal_strlit("VDIV"); reveal_strlit("VMIV");
    reveal_strlit("ID"); reveal_strlit("IM");
}

/// A higher form of ROMAN never gives a longer numeral than a lower one.
pub proof fn law_higher_roman_forms_are_no_longer(n: int, form: int)
    requires
        1 <= n <= 3999,
        0 <= form < 4,
    ensures
        roman_with_form_spec(n, form) is Ok,
        roman_with_form_spec(n, form + 1) is Ok,
        roman_with_form_spec(n, form + 1)->Ok_0.len() <= roman_with_form_spec(n, form)->Ok_0.len(),
{
    lemma_rule_tables_shorten();
    let c = classic_roman(n);
    let s1 = apply_rules_spec(c, base_rules());
    let s2 = apply_rules_spec(s1, level2_rules());
    let s3 = apply_rules_spec(s2, level3_rules());
    lemma_rules_shorten(c, base_rules());
    lemma_rules_shorten(s1, level2_rules());
    lemma_rules_shorten(s2, level3_rules());
    lemma_rules_shorten(s3, level4_rules());
}

} // verus!
