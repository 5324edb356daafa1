//! XMATCH's linear search (with regular expressions from the `regex` crate)
//! and the descending search of MATCH.
use vstd::prelude::*;
use vstd::string::*;
use regex::Regex;
use crate::types::{CalcError, Error};
use crate::wildcard::{lowercase, to_lowercase, wildcard_regex_spec, wildcard_to_regex};

verus! {

#[verifier::external_type_specification]
#[verifier::external_body]
pub struct ExRegex(Regex);

/// Whether `pattern` is a regular expression that `Regex::new` accepts.
pub uninterp spec fn regex_compiles(pattern: Seq<char>) -> bool;

/// Whether the regular expression `pattern` matches somewhere in `text`.
pub uninterp spec fn regex_is_match(pattern: Seq<char>, text: Seq<char>) -> bool;

/// A compiled regular expression, with the pattern it was compiled from.
pub struct CompiledRegex {
    regex: Regex,
    source: Ghost<Seq<char>>,
}

impl CompiledRegex {
    /// The pattern this regular expression was compiled from.
    pub closed spec fn pattern(&self) -> Seq<char> {
        self.source@
    }
}

/// `Regex::new(pattern)`: compiles the pattern. The contract claims that it
/// succeeds exactly on the patterns named by `regex_compiles`, a function of
/// the pattern alone, and that the result keeps its pattern.
#[verifier::external_body]
fn compile_regex(pattern: &str) -> (r: Option<CompiledRegex>)
    ensures
        r is Some <==> regex_compiles(pattern@),
        r matches Some(c) ==> c.pattern() == pattern@,
{
    match Regex::new(pattern) {
        Ok(regex) => Some(CompiledRegex { regex, source: Ghost(pattern@) }),
        Err(_) => None,
    }
}

/// `Regex::is_match(text)`: the contract claims that the result is
/// `regex_is_match` of the compiled pattern and the text, a function of the
/// two alone.
#[verifier::external_body]
fn regex_matches(re: &CompiledRegex, text: &str) -> (r: bool)
    ensures
        r == regex_is_match(re.pattern(), text@),
{
    re.regex.is_match(text)
}

/// XMATCH's match modes.
#[derive(Clone, Copy, Debug, PartialEq, Eq, Structural)]
pub enum MatchMode {
    ExactMatchSmaller,
    Exact,
    ExactMatchLarger,
    Wildcard,
    Regex,
}

/// XMATCH's search modes.
#[derive(Clone, Copy, Debug, PartialEq, Eq, Structural)]
pub enum SearchMode {
    FirstToLast,
    LastToFirst,
    BinaryAscending,
    BinaryDescending,
}

/// The match mode of a `match_mode` argument (-1, 0, 1, 2 or 3).
pub open spec fn match_mode_of(n: i32) -> Option<MatchMode> {
    if n == -1 { Some(MatchMode::ExactMatchSmaller) }
    else if n == 0 { Some(MatchMode::Exact) }
    else if n == 1 { Some(MatchMode::ExactMatchLarger) }
    else if n == 2 { Some(MatchMode::Wildcard) }
    else if n == 3 { Some(MatchMode::Regex) }
    else { None }
}

/// The search mode of a `search_mode` argument (1, -1, 2 or -2).
pub open spec fn search_mode_of(n: i32) -> Option<SearchMode> {
    if n == 1 { Some(SearchMode::FirstToLast) }
    else if n == -1 { Some(SearchMode::LastToFirst) }
    else if n == 2 { Some(SearchMode::BinaryAscending) }
    else if n == -2 { Some(SearchMode::BinaryDescending) }
    else { None }
}

/// Reads XMATCH's `match_mode` argument.
pub fn parse_match_mode(n: i32) -> (r: Result<MatchMode, CalcError>)
    ensures
        match r {
            Ok(m) => match_mode_of(n) == Some(m),
            Err(e) => match_mode_of(n) is None && e.error == Error::VALUE && e.message@ == "Invalid match_mode"@,
        },
{
    if n == -1 {
        Ok(MatchMode::ExactMatchSmaller)
    } else if n == 0 {
        Ok(MatchMode::Exact)
    } else if n == 1 {
        Ok(MatchMode::ExactMatchLarger)
    } else if n == 2 {
        Ok(MatchMode::Wildcard)
    } else if n == 3 {
        Ok(MatchMode::Regex)
    } else {
        Err(CalcError { error: Error::VALUE, message: String::from_str("Invalid match_mode") })
    }
}

/// Reads XMATCH's `search_mode` argument.
pub fn parse_search_mode(n: i32) -> (r: Result<SearchMode, CalcError>)
    ensures
        match r {
            Ok(m) => search_mode_of(n) == Some(m),
            Err(e) => search_mode_of(n) is None && e.error == Error::VALUE && e.message@ == "Invalid search_mode"@,
        },
{
    if n == 1 {
        Ok(SearchMode::FirstToLast)
    } else if n == -1 {
        Ok(SearchMode::LastToFirst)
    } else if n == 2 {
        Ok(SearchMode::BinaryAscending)
    } else if n == -2 {
        Ok(SearchMode::BinaryDescending)
    } else {
        Err(CalcError { error: Error::VALUE, message: String::from_str("Invalid search_mode") })
    }
}

/// A value searched by XMATCH: its position in the order of values (values
/// that compare equal share it), its text for the regular expression mode
/// (`None` for values that are not texts, numbers or booleans), and whether
/// it is a text (only texts match a wildcard pattern).
pub struct SearchValue {
    pub rank: i64,
    pub text: Option<String>,
    pub is_text: bool,
}

/// The step at which a search over `n` values visits position `p`.
pub open spec fn step_of(n: int, forward: bool, p: int) -> int {
    if forward { p } else { n - 1 - p }
}

/// How a value with rank `v` compares to the target rank `t`: -1, 0 or 1.
pub open spec fn sign_of(v: int, t: int) -> int {
    if v < t { -1 } else if v > t { 1 } else { 0 }
}

/// Position `p` holds a value equal to the target.
pub open spec fn is_exact(ranks: Seq<int>, t: int, p: int) -> bool {
    0 <= p < ranks.len() && ranks[p] == t
}

/// Position `p` is a candidate on the `m` side of the target (-1 smaller,
/// 1 larger).
pub open spec fn is_candidate(ranks: Seq<int>, t: int, m: int, p: int) -> bool {
    0 <= p < ranks.len() && sign_of(ranks[p], t) == m
}

/// Position `p` is the first one, in search order, that satisfies `is_exact`.
pub open spec fn first_exact(ranks: Seq<int>, t: int, forward: bool, p: int) -> bool {
    &&& is_exact(ranks, t, p)
    &&& forall|q: int| #[trigger] is_exact(ranks, t, q) ==> step_of(ranks.len() as int, forward, p) <= step_of(ranks.len() as int, forward, q)
}

/// Position `p` holds the candidate closest to the target on the `m` side,
/// the first in search order among equal ones.
pub open spec fn best_candidate(ranks: Seq<int>, t: int, m: int, forward: bool, p: int) -> bool {
    &&& is_candidate(ranks, t, m, p)
    &&& forall|q: int| #[trigger] is_candidate(ranks, t, m, q) ==> sign_of(ranks[q], ranks[p]) != -m
    &&& forall|q: int| #[trigger] is_candidate(ranks, t, m, q) && ranks[q] == ranks[p]
        ==> step_of(ranks.len() as int, forward, p) <= step_of(ranks.len() as int, forward, q)
}

/// Position `p` is the first one, in search order, whose text the pattern
/// matches.
pub open spec fn first_regex_match(texts: Seq<Option<Seq<char>>>, pattern: Seq<char>, forward: bool, p: int) -> bool {
    &&& 0 <= p < texts.len()
    &&& texts[p] matches Some(t) && regex_is_match(pattern, t)
    &&& forall|q: int| 0 <= q < texts.len() && (#[trigger] texts[q] matches Some(t) && regex_is_match(pattern, t))
        ==> step_of(texts.len() as int, forward, p) <= step_of(texts.len() as int, forward, q)
}

/// The ranks of the searched values.
pub open spec fn ranks_of(array: Seq<SearchValue>) -> Seq<int> {
    array.map_values(|v: SearchValue| v.rank as int)
}

/// The texts of the searched values.
pub open spec fn texts_of(array: Seq<SearchValue>) -> Seq<Option<Seq<char>>> {
    array.map_values(|v: SearchValue| match v.text { Some(t) => Some(t@), None => None })
}

/// The texts that a wildcard pattern is matched against: the lower-case
/// form of each value that is a text.
pub open spec fn wildcard_texts(array: Seq<SearchValue>) -> Seq<Option<Seq<char>>> {
    array.map_values(|v: SearchValue| if v.is_text && v.text is Some { Some(lowercase(v.text->Some_0@)) } else { None })
}

/// The regular expression that a wildcard lookup text is matched with.
pub open spec fn wildcard_pattern(pt: Seq<char>) -> Seq<char> {
    wildcard_regex_spec(lowercase(pt))
}

/// What XMATCH's linear search finds: `Some(p)` when `p` is the position
/// that the mode selects. In the wildcard mode a lookup text is a pattern
/// matched against the texts (nothing matches when its regular expression
/// does not compile); another lookup value is matched by equality.
pub open spec fn linear_search_found(
    target: int,
    pattern: Option<Seq<char>>,
    array: Seq<SearchValue>,
    forward: bool,
    mode: MatchMode,
    p: int,
) -> bool {
    let ranks = ranks_of(array);
    match mode {
        MatchMode::Exact => first_exact(ranks, target, forward, p),
        MatchMode::ExactMatchSmaller => first_exact(ranks, target, forward, p)
            || ((forall|q: int| !#[trigger] is_exact(ranks, target, q)) && best_candidate(ranks, target, -1, forward, p)),
        MatchMode::ExactMatchLarger => first_exact(ranks, target, forward, p)
            || ((forall|q: int| !#[trigger] is_exact(ranks, target, q)) && best_candidate(ranks, target, 1, forward, p)),
        MatchMode::Regex => match pattern {
            Some(pt) => regex_compiles(pt) && first_regex_match(texts_of(array), pt, forward, p),
            None => false,
        },
        MatchMode::Wildcard => match pattern {
            Some(pt) => regex_compiles(wildcard_pattern(pt))
                && first_regex_match(wildcard_texts(array), wildcard_pattern(pt), forward, p),
            None => first_exact(ranks, target, forward, p),
        },
    }
}

/// The view of an optional text.
pub open spec fn opt_text(s: Option<&str>) -> Option<Seq<char>> {
    match s { Some(s) => Some(s@), None => None }
}

/// The first position, in search order, of a value of rank `target`.
fn exact_position(target: i64, array: &Vec<SearchValue>, forward: bool) -> (r: Option<usize>)
    ensures
        match r {
            Some(p) => p < array@.len() && first_exact(ranks_of(array@), target as int, forward, p as int),
            None => forall|q: int| !#[trigger] is_exact(ranks_of(array@), target as int, q),
        },
{
    let len = array.len();
    let ghost ranks = ranks_of(array@);
    let mut i: usize = 0;
    while i < len
        invariant
            len == array@.len(),
            ranks == ranks_of(array@),
            i <= len,
            forall|q: int| #[trigger] is_exact(ranks, target as int, q) ==> step_of(len as int, forward, q) >= i,
        decreases len - i,
    {
        let idx = if forward { i } else { len - i - 1 };
        assert(step_of(len as int, forward, idx as int) == i);
        if array[idx].rank == target {
            assert(is_exact(ranks, target as int, idx as int));
            return Some(idx);
        }
        proof {
            assert forall|q: int| #[trigger] is_exact(ranks, target as int, q) implies step_of(len as int, forward, q) >= i + 1 by {
                if step_of(len as int, forward, q) == i {
                    assert(q == idx);
                }
            }
        }
        i = i + 1;
    }
    proof {
        assert forall|q: int| !#[trigger] is_exact(ranks, target as int, q) by {
            if is_exact(ranks, target as int, q) {
                assert(step_of(len as int, forward, q) < len);
            }
        }
    }
    None
}

/// The view of a list of optional texts.
pub open spec fn texts_view(v: Seq<Option<String>>) -> Seq<Option<Seq<char>>> {
    v.map_values(|t: Option<String>| match t { Some(s) => Some(s@), None => None })
}

/// The first position, in search order, of a text that the compiled regular
/// expression matches.
fn first_match_in(re: &CompiledRegex, texts: &Vec<Option<String>>, forward: bool) -> (r: Option<usize>)
    ensures
        match r {
            Some(p) => p < texts@.len() && first_regex_match(texts_view(texts@), re.pattern(), forward, p as int),
            None => forall|p: int| !#[trigger] first_regex_match(texts_view(texts@), re.pattern(), forward, p),
        },
{
    let len = texts.len();
    let ghost tv = texts_view(texts@);
    let ghost pat = re.pattern();
    let mut i: usize = 0;
    while i < len
        invariant
            len == texts@.len(),
            tv == texts_view(texts@),
            pat == re.pattern(),
            i <= len,
            forall|q: int| 0 <= q < len && (#[trigger] tv[q] matches Some(t) && regex_is_match(pat, t))
                ==> step_of(len as int, forward, q) >= i,
        decreases len - i,
    {
        let idx = if forward { i } else { len - i - 1 };
        let hit = match &texts[idx] {
            Some(t) => regex_matches(re, t.as_str()),
            None => false,
        };
        assert(step_of(len as int, forward, idx as int) == i);
        assert(tv[idx as int] == (match texts@[idx as int] { Some(t) => Some(t@), None => None }));
        if hit {
            assert(first_regex_match(tv, pat, forward, idx as int));
            return Some(idx);
        }
        proof {
            assert forall|q: int| 0 <= q < len && (#[trigger] tv[q] matches Some(t) && regex_is_match(pat, t))
                implies step_of(len as int, forward, q) >= i + 1 by {
                if step_of(len as int, forward, q) == i {
                    assert(q == idx);
                }
            }
        }
        i = i + 1;
    }
    proof {
        assert forall|p: int| !#[trigger] first_regex_match(tv, pat, forward, p) by {
            if first_regex_match(tv, pat, forward, p) {
                assert(step_of(len as int, forward, p) < len);
            }
        }
    }
    None
}

/// The texts of the values, for the regular expression mode.
fn regex_texts(array: &Vec<SearchValue>) -> (r: Vec<Option<String>>)
    ensures
        texts_view(r@) == texts_of(array@),
{
    let mut out: Vec<Option<String>> = Vec::new();
    let mut i: usize = 0;
    while i < array.len()
        invariant
            i <= array@.len(),
            out@.len() == i,
            texts_view(out@) == texts_of(array@).take(i as int),
        decreases array@.len() - i,
    {
        let t = match &array[i].text {
            Some(t) => Some(t.clone()),
            None => None,
        };
        let ghost prev = out@;
        assert(texts_of(array@)[i as int] == (match array@[i as int].text { Some(x) => Some(x@), None => None }));
        out.push(t);
        proof {
            assert forall|k: int| 0 <= k < i + 1 implies #[trigger] texts_view(out@)[k] == texts_of(array@).take(i + 1)[k] by {
                if k < i {
                    assert(out@[k] == prev[k]);
                    assert(texts_view(prev)[k] == texts_of(array@).take(i as int)[k]);
                }
            }
        }
        i = i + 1;
        assert(texts_view(out@) =~= texts_of(array@).take(i as int));
    }
    assert(texts_of(array@).take(i as int) =~= texts_of(array@));
    out
}

/// The lower-case texts of the values that are texts, for the wildcard mode.
fn wildcard_text_list(array: &Vec<SearchValue>) -> (r: Vec<Option<String>>)
    ensures
        texts_view(r@) == wildcard_texts(array@),
{
    let mut out: Vec<Option<String>> = Vec::new();
    let mut i: usize = 0;
    while i < array.len()
        invariant
            i <= array@.len(),
            out@.len() == i,
            texts_view(out@) == wildcard_texts(array@).take(i as int),
        decreases array@.len() - i,
    {
        let t = if array[i].is_text {
            match &array[i].text {
                Some(t) => Some(to_lowercase(t.as_str())),
                None => None,
            }
        } else {
            None
        };
        let ghost prev = out@;
        assert(wildcard_texts(array@)[i as int] == (if array@[i as int].is_text && array@[i as int].text is Some {
            Some(lowercase(array@[i as int].text->Some_0@)) } else { None }));
        out.push(t);
        proof {
            assert forall|k: int| 0 <= k < i + 1 implies #[trigger] texts_view(out@)[k] == wildcard_texts(array@).take(i + 1)[k] by {
                if k < i {
                    assert(out@[k] == prev[k]);
                    assert(texts_view(prev)[k] == wildcard_texts(array@).take(i as int)[k]);
                }
            }
        }
        i = i + 1;
        assert(texts_view(out@) =~= wildcard_texts(array@).take(i as int));
    }
    assert(wildcard_texts(array@).take(i as int) =~= wildcard_texts(array@));
    out
}

/// Searches `array` for the value of rank `target` (or, in the regular
/// expression mode, for the lookup text `pattern`) and returns the 0-based
/// index of the match, or `None` if not found.
pub fn linear_search(
    target: i64,
    pattern: Option<&str>,
    array: &Vec<SearchValue>,
    forward: bool,
    mode: MatchMode,
) -> (r: Option<usize>)
    ensures
        r matches Some(p) ==> p < array@.len(),
        match r {
            Some(p) => linear_search_found(target as int, opt_text(pattern), array@, forward, mode, p as int),
            None => forall|p: int| !#[trigger] linear_search_found(target as int, opt_text(pattern), array@, forward, mode, p),
        },
{
    let len = array.len();
    let ghost ranks = ranks_of(array@);
    let ghost pat = match pattern { Some(s) => Some(s@), None => None };
    match mode {
        MatchMode::Exact => exact_position(target, array, forward),
        MatchMode::ExactMatchSmaller | MatchMode::ExactMatchLarger => {
            let m: i64 = if mode == MatchMode::ExactMatchSmaller { -1 } else { 1 };
            let mut best_idx: Option<usize> = None;
            let mut i: usize = 0;
            while i < len
                invariant
                    len == array@.len(),
                    ranks == ranks_of(array@),
                    m == -1 || m == 1,
                    m == (if mode == MatchMode::ExactMatchSmaller { -1int } else { 1int }),
                    mode == MatchMode::ExactMatchSmaller || mode == MatchMode::ExactMatchLarger,
                    i <= len,
                    forall|q: int| #[trigger] is_exact(ranks, target as int, q) ==> step_of(len as int, forward, q) >= i,
                    match best_idx {
                        None => forall|q: int| #[trigger] is_candidate(ranks, target as int, m as int, q)
                            ==> step_of(len as int, forward, q) >= i,
                        Some(b) => {
                            &&& is_candidate(ranks, target as int, m as int, b as int)
                            &&& step_of(len as int, forward, b as int) < i
                            &&& forall|q: int| #[trigger] is_candidate(ranks, target as int, m as int, q)
                                && step_of(len as int, forward, q) < i ==> sign_of(ranks[q], ranks[b as int]) != -m
                            &&& forall|q: int| #[trigger] is_candidate(ranks, target as int, m as int, q)
                                && step_of(len as int, forward, q) < i && ranks[q] == ranks[b as int]
                                ==> step_of(len as int, forward, b as int) <= step_of(len as int, forward, q)
                        },
                    },
                decreases len - i,
            {
                let idx = if forward { i } else { len - i - 1 };
                let v = array[idx].rank;
                assert(ranks[idx as int] == v);
                if v == target {
                    assert(is_exact(ranks, target as int, idx as int));
                    return Some(idx);
                }
                let c: i64 = if v < target { -1 } else { 1 };
                if c == m {
                    let better = match best_idx {
                        None => true,
                        Some(b) => {
                            let p = array[b].rank;
                            let cp: i64 = if p < v { -1 } else if p > v { 1 } else { 0 };
                            cp == m
                        },
                    };
                    if better {
                        best_idx = Some(idx);
                    }
                }
                proof {
                    assert forall|q: int| #[trigger] is_exact(ranks, target as int, q) implies step_of(len as int, forward, q) >= i + 1 by {
                        if step_of(len as int, forward, q) == i {
                            assert(q == idx);
                        }
                    }
                }
                i = i + 1;
            }
            proof {
                assert forall|q: int| !#[trigger] is_exact(ranks, target as int, q) by {
                    if is_exact(ranks, target as int, q) {
                        assert(step_of(len as int, forward, q) < len);
                    }
                }
                match best_idx {
                    None => {
                        assert forall|q: int| !#[trigger] is_candidate(ranks, target as int, m as int, q) by {
                            if is_candidate(ranks, target as int, m as int, q) {
                                assert(step_of(len as int, forward, q) < len);
                            }
                        }
                    },
                    Some(b) => {
                        assert forall|q: int| #[trigger] is_candidate(ranks, target as int, m as int, q)
                            implies sign_of(ranks[q], ranks[b as int]) != -m by {
                            assert(step_of(len as int, forward, q) < len);
                        }
                        assert forall|q: int| #[trigger] is_candidate(ranks, target as int, m as int, q) && ranks[q] == ranks[b as int]
                            implies step_of(len as int, forward, b as int) <= step_of(len as int, forward, q) by {
                            assert(step_of(len as int, forward, q) < len);
                        }
                    },
                }
            }
            best_idx
        },
        MatchMode::Wildcard => {
            match pattern {
                None => exact_position(target, array, forward),
                Some(source) => {
                    let lower = to_lowercase(source);
                    let rx = wildcard_to_regex(lower.as_str());
                    let re = match compile_regex(rx.as_str()) {
                        Some(re) => re,
                        None => return None,
                    };
                    let texts = wildcard_text_list(array);
                    first_match_in(&re, &texts, forward)
                },
            }
        },
        MatchMode::Regex => {
            let source = match pattern {
                Some(s) => s,
                None => return None,
            };
            let re = match compile_regex(source) {
                Some(re) => re,
                None => return None,
            };
            let texts = regex_texts(array);
            first_match_in(&re, &texts, forward)
        },
    }
}


/// A search mode that walks the vector (rather than a binary search).
pub open spec fn is_linear(s: SearchMode) -> bool {
    s == SearchMode::FirstToLast || s == SearchMode::LastToFirst
}

/// The search walks from the first value to the last.
pub open spec fn is_forward(s: SearchMode) -> bool {
    s == SearchMode::FirstToLast
}

/// XMATCH in a binary search mode: the position that the binary search
/// finds, `#N/A` when it finds none or, for an exact match, when the value
/// found is not the lookup value.
pub open spec fn xmatch_binary_spec(target: int, array: Seq<SearchValue>, match_mode: MatchMode, search_mode: SearchMode)
    -> Option<int>
{
    match binary_boundary_spec(binary_kind(match_mode, search_mode), target, ranks_of(array)) {
        None => None,
        Some(l) => if match_mode == MatchMode::Exact && ranks_of(array)[l] != target { None } else { Some(l) },
    }
}

/// XMATCH on the searched vector, after its arguments were read: the
/// 1-based position of the match. `lookup_text` is the lookup value when it
/// is a text. Binary searches support neither wildcards nor regular
/// expressions.
pub fn fn_xmatch(
    target: i64,
    lookup_text: Option<&str>,
    array: &Vec<SearchValue>,
    match_mode: MatchMode,
    search_mode: SearchMode,
) -> (r: Result<u64, CalcError>)
    ensures
        match r {
            Ok(n) => n >= 1 && if is_linear(search_mode) {
                linear_search_found(target as int, opt_text(lookup_text), array@, is_forward(search_mode), match_mode, n - 1)
            } else {
                match_mode != MatchMode::Wildcard && match_mode != MatchMode::Regex
                    && xmatch_binary_spec(target as int, array@, match_mode, search_mode) == Some(n - 1)
            },
            Err(e) => if !is_linear(search_mode) {
                if match_mode == MatchMode::Wildcard || match_mode == MatchMode::Regex {
                    e.error == Error::VALUE && e.message@ == "Wildcard/regex match cannot be used with binary search"@
                } else {
                    e.error == Error::NA && e.message@ == "Not found"@
                        && xmatch_binary_spec(target as int, array@, match_mode, search_mode) is None
                }
            } else if match_mode == MatchMode::Regex && (lookup_text matches Some(s) && !regex_compiles(s@)) {
                e.error == Error::VALUE && e.message@ == "Invalid regular expression"@
            } else {
                e.error == Error::NA && e.message@ == "Not found"@
                    && forall|p: int| !#[trigger] linear_search_found(target as int, opt_text(lookup_text),
                        array@, is_forward(search_mode), match_mode, p)
            },
        },
{
    if !(search_mode == SearchMode::FirstToLast || search_mode == SearchMode::LastToFirst) {
        let kind = match binary_search_for(match_mode, search_mode) {
            Ok(k) => k,
            Err(e) => return Err(e),
        };
        let found = xmatch_binary_search(kind, target, array);
        return xmatch_binary_result(target, array, match_mode, found);
    }
    if match_mode == MatchMode::Regex {
        if let Some(pattern) = lookup_text {
            if compile_regex(pattern).is_none() {
                return Err(CalcError { error: Error::VALUE, message: String::from_str("Invalid regular expression") });
            }
        }
    }
    let forward = search_mode == SearchMode::FirstToLast;
    match linear_search(target, lookup_text, array, forward, match_mode) {
        Some(idx) => {
            let n = array.len();
            assert(idx < n);
            Ok((idx + 1) as u64)
        },
        None => Err(CalcError { error: Error::NA, message: String::from_str("Not found") }),
    }
}

/// MATCH with `match_type` -1: the binary search that MATCH runs on
/// `ranks[l..r]` for the target rank `t`, moving right past values that are
/// at least the target.
pub open spec fn descending_search(ranks: Seq<int>, t: int, l: int, r: int) -> int
    decreases r - l,
{
    if l >= r {
        l
    } else {
        let m = (l + r) / 2;
        if ranks[m] >= t { descending_search(ranks, t, m + 1, r) } else { descending_search(ranks, t, l, m) }
    }
}

/// MATCH(lookup_value, lookup_array, -1): the number of values at least the
/// target found by the binary search, or #N/A when it is 0. `ranks` are the
/// positions of the values in the order of values.
pub fn fn_match_descending(ranks: &Vec<i64>, target: i64) -> (r: Result<u64, CalcError>)
    ensures
        match r {
            Ok(n) => n >= 1 && n as int == descending_search(ranks@.map_values(|v: i64| v as int), target as int, 0, ranks@.len() as int),
            Err(e) => descending_search(ranks@.map_values(|v: i64| v as int), target as int, 0, ranks@.len() as int) == 0
                && e.error == Error::NA && e.message@ == "Not found"@,
        },
{
    let ghost rv = ranks@.map_values(|v: i64| v as int);
    let mut l: usize = 0;
    let mut r: usize = ranks.len();
    while l < r
        invariant
            rv == ranks@.map_values(|v: i64| v as int),
            l <= r <= ranks.len(),
            descending_search(rv, target as int, l as int, r as int) == descending_search(rv, target as int, 0, ranks@.len() as int),
        decreases r - l,
    {
        let m = l + (r - l) / 2;
        assert(m == (l + r) / 2);
        if ranks[m] >= target {
            l = m + 1;
        } else {
            r = m;
        }
    }
    if l == 0 {
        return Err(CalcError { error: Error::NA, message: String::from_str("Not found") });
    }
    Ok(l as u64)
}

proof fn lemma_descending_search_counts(ranks: Seq<int>, t: int, l: int, r: int)
    requires
        0 <= l <= r <= ranks.len(),
        forall|i: int, j: int| 0 <= i <= j < ranks.len() ==> ranks[i] >= ranks[j],
        forall|i: int| 0 <= i < l ==> ranks[i] >= t,
        forall|i: int| r <= i < ranks.len() ==> ranks[i] < t,
    ensures
        forall|i: int| 0 <= i < descending_search(ranks, t, l, r) ==> ranks[i] >= t,
        forall|i: int| descending_search(ranks, t, l, r) <= i < ranks.len() ==> ranks[i] < t,
        0 <= descending_search(ranks, t, l, r) <= ranks.len(),
    decreases r - l,
{
    if l < r {
        let m = (l + r) / 2;
        if ranks[m] >= t {
            lemma_descending_search_counts(ranks, t, m + 1, r);
        } else {
            lemma_descending_search_counts(ranks, t, l, m);
        }
    }
}

/// On values sorted in descending order, MATCH with -1 finds how many values
/// are at least the target: they come first, and the rest are smaller.
pub proof fn law_match_descending_on_sorted(ranks: Seq<int>, t: int)
    requires
        forall|i: int, j: int| 0 <= i <= j < ranks.len() ==> ranks[i] >= ranks[j],
    ensures
        0 <= descending_search(ranks, t, 0, ranks.len() as int) <= ranks.len(),
        forall|i: int| 0 <= i < descending_search(ranks, t, 0, ranks.len() as int) ==> ranks[i] >= t,
        forall|i: int| descending_search(ranks, t, 0, ranks.len() as int) <= i < ranks.len() ==> ranks[i] < t,
{
    lemma_descending_search_counts(ranks, t, 0, ranks.len() as int);
}

/// The binary search that XMATCH's binary search modes run: for the next
/// larger value, or else for the next smaller one, on values sorted in
/// ascending or descending order.
#[derive(Clone, Copy, Debug, PartialEq, Eq, Structural)]
pub enum BinarySearch {
    OrGreater,
    DescendingOrGreater,
    OrSmaller,
    DescendingOrSmaller,
}

/// Which binary search XMATCH runs for its match mode and binary search
/// mode; wildcards and regular expressions cannot be used with one.
pub fn binary_search_for(match_mode: MatchMode, search_mode: SearchMode) -> (r: Result<BinarySearch, CalcError>)
    requires
        !is_linear(search_mode),
    ensures
        match r {
            Ok(b) => match_mode != MatchMode::Wildcard && match_mode != MatchMode::Regex
                && b == if match_mode == MatchMode::ExactMatchLarger {
                    if search_mode == SearchMode::BinaryAscending { BinarySearch::OrGreater } else { BinarySearch::DescendingOrGreater }
                } else {
                    if search_mode == SearchMode::BinaryAscending { BinarySearch::OrSmaller } else { BinarySearch::DescendingOrSmaller }
                },
            Err(e) => (match_mode == MatchMode::Wildcard || match_mode == MatchMode::Regex) && e.error == Error::VALUE
                && e.message@ == "Wildcard/regex match cannot be used with binary search"@,
        },
{
    if match_mode == MatchMode::Wildcard || match_mode == MatchMode::Regex {
        return Err(CalcError {
            error: Error::VALUE,
            message: String::from_str("Wildcard/regex match cannot be used with binary search"),
        });
    }
    if match_mode == MatchMode::ExactMatchLarger {
        if search_mode == SearchMode::BinaryAscending {
            Ok(BinarySearch::OrGreater)
        } else {
            Ok(BinarySearch::DescendingOrGreater)
        }
    } else if search_mode == SearchMode::BinaryAscending {
        Ok(BinarySearch::OrSmaller)
    } else {
        Ok(BinarySearch::DescendingOrSmaller)
    }
}

/// XMATCH in a binary search mode, given the position that the binary
/// search found: `#N/A` when it found none, or, for an exact match, when the
/// value found is not the lookup value; else the 1-based position.
pub fn xmatch_binary_result(target: i64, array: &Vec<SearchValue>, match_mode: MatchMode, found: Option<usize>)
    -> (r: Result<u64, CalcError>)
    requires
        found matches Some(l) ==> l < array@.len(),
    ensures
        match r {
            Ok(n) => found matches Some(l) && n == l + 1
                && (match_mode == MatchMode::Exact ==> array@[l as int].rank == target),
            Err(e) => e.error == Error::NA && e.message@ == "Not found"@ && match found {
                None => true,
                Some(l) => match_mode == MatchMode::Exact && array@[l as int].rank != target,
            },
        },
{
    match found {
        None => Err(CalcError { error: Error::NA, message: String::from_str("Not found") }),
        Some(l) => {
            if match_mode == MatchMode::Exact && array[l].rank != target {
                return Err(CalcError { error: Error::NA, message: String::from_str("Not found") });
            }
            let n = array.len();
            assert(l < n);
            Ok(l as u64 + 1)
        },
    }
}

/// The binary search that XMATCH runs for a match mode that is not a
/// wildcard or regular expression one, in a binary search mode.
pub open spec fn binary_kind(match_mode: MatchMode, search_mode: SearchMode) -> BinarySearch {
    if match_mode == MatchMode::ExactMatchLarger {
        if search_mode == SearchMode::BinaryAscending { BinarySearch::OrGreater } else { BinarySearch::DescendingOrGreater }
    } else {
        if search_mode == SearchMode::BinaryAscending { BinarySearch::OrSmaller } else { BinarySearch::DescendingOrSmaller }
    }
}

/// A value of rank `x` lies before the boundary that the binary search looks
/// for: at most the target (`OrSmaller`), below it (`OrGreater`), above it
/// (`DescendingOrSmaller`) or at least it (`DescendingOrGreater`).
pub open spec fn goes_before(kind: BinarySearch, t: int, x: int) -> bool {
    match kind {
        BinarySearch::OrSmaller => x <= t,
        BinarySearch::OrGreater => x < t,
        BinarySearch::DescendingOrSmaller => x > t,
        BinarySearch::DescendingOrGreater => x >= t,
    }
}

/// The bisection on `ranks[l..r]`: it moves right past the values that go
/// before the boundary, and gives the position where it stops.
pub open spec fn boundary_search(ranks: Seq<int>, kind: BinarySearch, t: int, l: int, r: int) -> int
    decreases r - l,
{
    if l >= r {
        l
    } else {
        let m = (l + r) / 2;
        if goes_before(kind, t, ranks[m]) {
            boundary_search(ranks, kind, t, m + 1, r)
        } else {
            boundary_search(ranks, kind, t, l, m)
        }
    }
}

/// The searches for the next smaller value (ascending) and the next larger
/// one (descending) take the last value before the boundary; the other two
/// take the first value after it.
pub open spec fn takes_last(kind: BinarySearch) -> bool {
    kind == BinarySearch::OrSmaller || kind == BinarySearch::DescendingOrGreater
}

/// The position that XMATCH's binary search finds, if any.
pub open spec fn binary_boundary_spec(kind: BinarySearch, t: int, ranks: Seq<int>) -> Option<int> {
    let p = boundary_search(ranks, kind, t, 0, ranks.len() as int);
    if takes_last(kind) {
        if p > 0 { Some(p - 1) } else { None }
    } else {
        if p < ranks.len() { Some(p) } else { None }
    }
}

proof fn lemma_boundary_in_range(ranks: Seq<int>, kind: BinarySearch, t: int, l: int, r: int)
    requires
        l <= r,
    ensures
        l <= boundary_search(ranks, kind, t, l, r) <= r,
    decreases r - l,
{
    if l < r {
        let m = (l + r) / 2;
        if goes_before(kind, t, ranks[m]) {
            lemma_boundary_in_range(ranks, kind, t, m + 1, r);
        } else {
            lemma_boundary_in_range(ranks, kind, t, l, m);
        }
    }
}

/// The binary search of XMATCH over the ranks of the values.
pub fn xmatch_binary_search(kind: BinarySearch, target: i64, values: &Vec<SearchValue>) -> (r: Option<usize>)
    ensures
        match r {
            Some(p) => p < values@.len() && binary_boundary_spec(kind, target as int, ranks_of(values@)) == Some(p as int),
            None => binary_boundary_spec(kind, target as int, ranks_of(values@)) is None,
        },
{
    let ghost rv = ranks_of(values@);
    let n = values.len();
    let mut l: usize = 0;
    let mut r: usize = n;
    while l < r
        invariant
            rv == ranks_of(values@),
            n == values@.len(),
            l <= r <= n,
            boundary_search(rv, kind, target as int, l as int, r as int) == boundary_search(rv, kind, target as int, 0, n as int),
        decreases r - l,
    {
        let m = l + (r - l) / 2;
        assert(m == (l + r) / 2);
        let x = values[m].rank;
        assert(rv[m as int] == x as int);
        let before = match kind {
            BinarySearch::OrSmaller => x <= target,
            BinarySearch::OrGreater => x < target,
            BinarySearch::DescendingOrSmaller => x > target,
            BinarySearch::DescendingOrGreater => x >= target,
        };
        if before {
            l = m + 1;
        } else {
            r = m;
        }
    }
    let takes_last = match kind {
        BinarySearch::OrSmaller | BinarySearch::DescendingOrGreater => true,
        _ => false,
    };
    if takes_last {
        if l > 0 { Some(l - 1) } else { None }
    } else {
        if l < n { Some(l) } else { None }
    }
}

proof fn lemma_boundary_partition(ranks: Seq<int>, kind: BinarySearch, t: int, l: int, r: int)
    requires
        0 <= l <= r <= ranks.len(),
        forall|i: int, j: int| 0 <= i <= j < ranks.len() && goes_before(kind, t, #[trigger] ranks[j])
            ==> goes_before(kind, t, #[trigger] ranks[i]),
        forall|i: int| 0 <= i < l ==> goes_before(kind, t, #[trigger] ranks[i]),
        forall|i: int| r <= i < ranks.len() ==> !goes_before(kind, t, #[trigger] ranks[i]),
    ensures
        l <= boundary_search(ranks, kind, t, l, r) <= r,
        forall|i: int| 0 <= i < boundary_search(ranks, kind, t, l, r) ==> goes_before(kind, t, #[trigger] ranks[i]),
        forall|i: int| boundary_search(ranks, kind, t, l, r) <= i < ranks.len() ==> !goes_before(kind, t, #[trigger] ranks[i]),
    decreases r - l,
{
    if l < r {
        let m = (l + r) / 2;
        if goes_before(kind, t, ranks[m]) {
            lemma_boundary_partition(ranks, kind, t, m + 1, r);
        } else {
            lemma_boundary_partition(ranks, kind, t, l, m);
        }
    }
}

/// `ranks` is sorted the way the binary search expects: ascending for
/// `OrSmaller` and `OrGreater`, descending for the other two.
pub open spec fn sorted_for(kind: BinarySearch, ranks: Seq<int>) -> bool {
    if kind == BinarySearch::OrSmaller || kind == BinarySearch::OrGreater {
        forall|i: int, j: int| 0 <= i <= j < ranks.len() ==> ranks[i] <= ranks[j]
    } else {
        forall|i: int, j: int| 0 <= i <= j < ranks.len() ==> ranks[i] >= ranks[j]
    }
}

/// On values sorted as the search expects, XMATCH's binary search finds the
/// boundary: the values before it go before the target (at most it for
/// `OrSmaller`, below it for `OrGreater`, above it for `DescendingOrSmaller`,
/// at least it for `DescendingOrGreater`), the others do not, and the
/// position found is the last value before the boundary or the first after
/// it (none when there is no such value).
pub proof fn law_binary_search_on_sorted(kind: BinarySearch, t: int, ranks: Seq<int>)
    requires
        sorted_for(kind, ranks),
    ensures
        match binary_boundary_spec(kind, t, ranks) {
            Some(p) => 0 <= p < ranks.len() && if takes_last(kind) {
                goes_before(kind, t, ranks[p]) && forall|q: int| p < q < ranks.len() ==> !goes_before(kind, t, #[trigger] ranks[q])
            } else {
                !goes_before(kind, t, ranks[p]) && forall|q: int| 0 <= q < p ==> goes_before(kind, t, #[trigger] ranks[q])
            },
            None => if takes_last(kind) {
                forall|q: int| 0 <= q < ranks.len() ==> !goes_before(kind, t, #[trigger] ranks[q])
            } else {
                forall|q: int| 0 <= q < ranks.len() ==> goes_before(kind, t, #[trigger] ranks[q])
            },
        },
{
    assert forall|i: int, j: int| 0 <= i <= j < ranks.len() && goes_before(kind, t, #[trigger] ranks[j])
        implies goes_before(kind, t, #[trigger] ranks[i]) by {
        assert(ranks[i] <= ranks[j] || ranks[i] >= ranks[j]);
    }
    lemma_boundary_partition(ranks, kind, t, 0, ranks.len() as int);
}

/// MATCH(lookup_value, lookup_array, 0): the 1-based position of the first
/// value equal to the lookup value, where a lookup text is a wildcard
/// pattern; `#N/A` when there is none.
pub fn fn_match_exact(target: i64, lookup_text: Option<&str>, array: &Vec<SearchValue>) -> (r: Result<u64, CalcError>)
    ensures
        match r {
            Ok(n) => n >= 1 && linear_search_found(target as int, opt_text(lookup_text), array@, true, MatchMode::Wildcard, n - 1),
            Err(e) => e.error == Error::NA && e.message@ == "Not found"@
                && forall|p: int| !#[trigger] linear_search_found(target as int, opt_text(lookup_text), array@, true, MatchMode::Wildcard, p),
        },
{
    match linear_search(target, lookup_text, array, true, MatchMode::Wildcard) {
        Some(idx) => {
            let n = array.len();
            assert(idx < n);
            Ok((idx + 1) as u64)
        },
        None => Err(CalcError { error: Error::NA, message: String::from_str("Not found") }),
    }
}

} // verus!
