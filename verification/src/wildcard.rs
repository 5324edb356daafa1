//! Wildcard patterns (`*` any text, `?` one character, `~` escaping the
//! next wildcard) and the regular expressions that match like them.
use vstd::prelude::*;
use crate::roman::{replace_all, replace_all_exec};
use crate::text::{chars_to_string, str_chars};

verus! {

/// The characters that `regex::escape` escapes.
pub open spec fn is_regex_meta(c: char) -> bool {
    c == '\\' || c == '.' || c == '+' || c == '*' || c == '?' || c == '(' || c == ')' || c == '|'
        || c == '[' || c == ']' || c == '{' || c == '}' || c == '^' || c == '$' || c == '#' || c == '&'
        || c == '-' || c == '~'
}

/// `s` with a backslash before each character that `is_regex_meta` names.
pub open spec fn escape_spec(s: Seq<char>) -> Seq<char>
    decreases s.len(),
{
    if s.len() == 0 {
        Seq::empty()
    } else {
        escape_spec(s.drop_last()) + if is_regex_meta(s.last()) { seq!['\\', s.last()] } else { seq![s.last()] }
    }
}

fn is_meta(c: char) -> (r: bool)
    ensures
        r == is_regex_meta(c),
{
    c == '\\' || c == '.' || c == '+' || c == '*' || c == '?' || c == '(' || c == ')' || c == '|'
        || c == '[' || c == ']' || c == '{' || c == '}' || c == '^' || c == '$' || c == '#' || c == '&'
        || c == '-' || c == '~'
}

/// The text escaped as `regex::escape` escapes it: a backslash before each
/// meta character of the regular expression syntax.
pub fn escape_regex(text: &Vec<char>) -> (r: Vec<char>)
    ensures
        r@ == escape_spec(text@),
{
    let mut out: Vec<char> = Vec::new();
    let mut i: usize = 0;
    while i < text.len()
        invariant
            i <= text@.len(),
            out@ == escape_spec(text@.take(i as int)),
        decreases text@.len() - i,
    {
        let c = text[i];
        if is_meta(c) {
            out.push('\\');
        }
        out.push(c);
        proof {
            let t = text@.take(i as int + 1);
            assert(t.drop_last() =~= text@.take(i as int));
            assert(t.last() == c);
        }
        i = i + 1;
        assert(out@ =~= escape_spec(text@.take(i as int)));
    }
    assert(text@.take(i as int) =~= text@);
    out
}

/// The lower-case form of a text, as `str::to_lowercase` gives it.
pub uninterp spec fn lowercase(s: Seq<char>) -> Seq<char>;

/// `str::to_lowercase`: the contract claims only that the result is
/// `lowercase` of the text, a function of the text alone (the Unicode
/// mapping is not restated).
#[verifier::external_body]
pub(crate) fn to_lowercase(s: &str) -> (r: String)
    ensures
        r@ == lowercase(s@),
{
    s.to_lowercase()
}

/// The regular expression, anchored at both ends, that matches exactly the
/// texts that the wildcard pattern `p` matches: the pattern escaped, then
/// `?` read as any one character, `*` as any text, `~~` as a `~`, `~*` and
/// `~?` as the characters themselves, and any other `~` dropped of its
/// escape.
pub open spec fn wildcard_regex_spec(p: Seq<char>) -> Seq<char> {
    let r1 = replace_all(escape_spec(p), seq!['\\', '?'], seq!['.']);
    let r2 = replace_all(r1, seq!['\\', '*'], seq!['.', '*']);
    let r3 = replace_all(r2, seq!['\\', '~', '\\', '~'], seq!['~']);
    let r4 = replace_all(r3, seq!['\\', '~', '.', '*'], seq!['\\', '*']);
    let r5 = replace_all(r4, seq!['\\', '~', '.'], seq!['\\', '?']);
    let r6 = replace_all(r5, seq!['\\', '~'], seq!['~']);
    seq!['^'] + r6 + seq!['$']
}

/// The regular expression for the wildcard pattern `pattern`.
pub fn wildcard_to_regex(pattern: &str) -> (r: String)
    ensures
        r@ == wildcard_regex_spec(pattern@),
{
    let t0 = escape_regex(&str_chars(pattern));
    let q = vec!['\\', '?'];
    let dot = vec!['.'];
    let st = vec!['\\', '*'];
    let dot_st = vec!['.', '*'];
    let tt = vec!['\\', '~', '\\', '~'];
    let tilde = vec!['~'];
    let t_dot_st = vec!['\\', '~', '.', '*'];
    let t_dot = vec!['\\', '~', '.'];
    let t_only = vec!['\\', '~'];
    assert(q@ =~= seq!['\\', '?'] && dot@ =~= seq!['.'] && st@ =~= seq!['\\', '*'] && dot_st@ =~= seq!['.', '*']);
    assert(tt@ =~= seq!['\\', '~', '\\', '~'] && tilde@ =~= seq!['~'] && t_dot_st@ =~= seq!['\\', '~', '.', '*']);
    assert(t_dot@ =~= seq!['\\', '~', '.'] && t_only@ =~= seq!['\\', '~']);
    let t1 = replace_all_exec(&t0, &q, &dot);
    let t2 = replace_all_exec(&t1, &st, &dot_st);
    let t3 = replace_all_exec(&t2, &tt, &tilde);
    let t4 = replace_all_exec(&t3, &t_dot_st, &st);
    let t5 = replace_all_exec(&t4, &t_dot, &q);
    let t6 = replace_all_exec(&t5, &t_only, &tilde);
    let mut out: Vec<char> = Vec::new();
    out.push('^');
    let mut i: usize = 0;
    while i < t6.len()
        invariant
            i <= t6.len(),
            out@ == seq!['^'] + t6@.take(i as int),
        decreases t6.len() - i,
    {
        out.push(t6[i]);
        i = i + 1;
        assert(out@ =~= seq!['^'] + t6@.take(i as int));
    }
    out.push('$');
    assert(t6@.take(i as int) =~= t6@);
    assert(out@ =~= seq!['^'] + t6@ + seq!['$']);
    chars_to_string(&out)
}

} // verus!
