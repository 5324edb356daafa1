//! The order in which the lookup and sort functions compare values of
//! different kinds: numbers < texts < booleans < errors, texts compared
//! without regard to case, and the positions (ranks) of values in that
//! order.
use vstd::prelude::*;
use crate::spill_functions::error_discriminant;
use crate::text::str_chars;
use crate::types::Error;
use crate::wildcard::{lowercase, to_lowercase};

verus! {

/// A value as it is ordered. A number is given by its order key: an
/// integer that orders numbers as `<` does and is equal for equal numbers.
pub enum OrderValue {
    Number(i64),
    Text(String),
    Boolean(bool),
    Error(Error),
}

/// The discriminant of an error value, as an integer.
pub open spec fn error_code(e: Error) -> int {
    match e {
        Error::REF => 0,
        Error::NAME => 1,
        Error::VALUE => 2,
        Error::DIV => 3,
        Error::NA => 4,
        Error::NUM => 5,
        Error::ERROR => 6,
        Error::NIMPL => 7,
        Error::SPILL => 8,
        Error::CALC => 9,
        Error::CIRC => 10,
        Error::NULL => 11,
    }
}

/// What a value is compared by: the rank of its kind, a number within the
/// kind, and (for a text) its lower-case characters.
pub open spec fn value_key(v: OrderValue) -> (int, int, Seq<char>) {
    match v {
        OrderValue::Number(n) => (0, n as int, Seq::empty()),
        OrderValue::Text(s) => (1, 0, lowercase(s@)),
        OrderValue::Boolean(b) => (2, if b { 1int } else { 0int }, Seq::empty()),
        OrderValue::Error(e) => (3, error_code(e), Seq::empty()),
    }
}

/// The sign of `x`.
pub open spec fn sign(x: int) -> int {
    if x < 0 { -1 } else if x > 0 { 1 } else { 0 }
}

/// How `a` and `b` compare from position `i` on, character by character; a
/// proper prefix comes first.
pub open spec fn lex_from(a: Seq<char>, b: Seq<char>, i: int) -> int
    decreases a.len() - i,
{
    if i >= a.len() {
        if i >= b.len() { 0 } else { -1 }
    } else if i >= b.len() {
        1
    } else if a[i] < b[i] {
        -1
    } else if a[i] > b[i] {
        1
    } else {
        lex_from(a, b, i + 1)
    }
}

/// How two keys compare: by kind, then by number, then by text.
pub open spec fn key_relation(x: (int, int, Seq<char>), y: (int, int, Seq<char>)) -> int {
    if x.0 != y.0 {
        sign(x.0 - y.0)
    } else if x.1 != y.1 {
        sign(x.1 - y.1)
    } else {
        lex_from(x.2, y.2, 0)
    }
}

/// How two values compare (-1, 0 or 1).
pub open spec fn value_relation(a: OrderValue, b: OrderValue) -> int {
    key_relation(value_key(a), value_key(b))
}

proof fn lemma_lex_antisymmetric(a: Seq<char>, b: Seq<char>, i: int)
    requires
        0 <= i,
    ensures
        lex_from(a, b, i) == -lex_from(b, a, i),
    decreases a.len() - i,
{
    if i < a.len() && i < b.len() && a[i] == b[i] {
        lemma_lex_antisymmetric(a, b, i + 1);
    }
}

proof fn lemma_lex_equal(a: Seq<char>, b: Seq<char>, i: int)
    requires
        0 <= i <= a.len(),
        i <= b.len(),
        lex_from(a, b, i) == 0,
    ensures
        a.len() == b.len(),
        forall|j: int| i <= j < a.len() ==> a[j] == b[j],
    decreases a.len() - i,
{
    if i < a.len() && i < b.len() && a[i] == b[i] {
        lemma_lex_equal(a, b, i + 1);
    }
}

proof fn lemma_lex_reflexive(a: Seq<char>, i: int)
    requires
        0 <= i,
    ensures
        lex_from(a, a, i) == 0,
    decreases a.len() - i,
{
    if i < a.len() {
        lemma_lex_reflexive(a, i + 1);
    }
}

proof fn lemma_lex_transitive(a: Seq<char>, b: Seq<char>, c: Seq<char>, i: int)
    requires
        0 <= i,
        lex_from(a, b, i) < 0,
        lex_from(b, c, i) < 0,
    ensures
        lex_from(a, c, i) < 0,
    decreases a.len() - i,
{
    if i < a.len() && i < b.len() && i < c.len() && a[i] == b[i] && b[i] == c[i] {
        lemma_lex_transitive(a, b, c, i + 1);
    }
}

/// Comparing keys is antisymmetric, reflexive, transitive, and gives 0 only
/// for equal keys.
proof fn lemma_key_order(x: (int, int, Seq<char>), y: (int, int, Seq<char>), z: (int, int, Seq<char>))
    ensures
        key_relation(x, y) == -key_relation(y, x),
        key_relation(x, x) == 0,
        key_relation(x, y) == 0 ==> x == y,
        key_relation(x, y) < 0 && key_relation(y, z) < 0 ==> key_relation(x, z) < 0,
        -1 <= key_relation(x, y) <= 1,
{
    lemma_lex_antisymmetric(x.2, y.2, 0);
    lemma_lex_reflexive(x.2, 0);
    lemma_lex_bounded(x.2, y.2, 0);
    if key_relation(x, y) == 0 {
        lemma_lex_equal(x.2, y.2, 0);
        assert(x.2 =~= y.2);
    }
    if key_relation(x, y) < 0 && key_relation(y, z) < 0 && x.0 == y.0 && y.0 == z.0 && x.1 == y.1 && y.1 == z.1 {
        lemma_lex_transitive(x.2, y.2, z.2, 0);
    }
}

proof fn lemma_lex_bounded(a: Seq<char>, b: Seq<char>, i: int)
    ensures
        -1 <= lex_from(a, b, i) <= 1,
    decreases a.len() - i,
{
    if i < a.len() && i < b.len() && a[i] == b[i] {
        lemma_lex_bounded(a, b, i + 1);
    }
}

/// The order of values is a total preorder: comparing is antisymmetric,
/// every value is equal to itself, and both "comes before" and "is equal
/// to" are transitive.
pub proof fn law_value_order(a: OrderValue, b: OrderValue, c: OrderValue)
    ensures
        value_relation(a, b) == -value_relation(b, a),
        value_relation(a, a) == 0,
        value_relation(a, b) < 0 && value_relation(b, c) < 0 ==> value_relation(a, c) < 0,
        value_relation(a, b) == 0 && value_relation(b, c) == 0 ==> value_relation(a, c) == 0,
{
    lemma_key_order(value_key(a), value_key(b), value_key(c));
    lemma_key_order(value_key(b), value_key(c), value_key(a));
    lemma_key_order(value_key(a), value_key(a), value_key(a));
}

/// The key of a value, held in executable form.
struct FlatKey {
    kind: u8,
    num: i64,
    text: Vec<char>,
}

spec fn flat_view(k: FlatKey) -> (int, int, Seq<char>) {
    (k.kind as int, k.num as int, k.text@)
}

fn flat_key(v: &OrderValue) -> (k: FlatKey)
    ensures
        flat_view(k) == value_key(*v),
{
    match v {
        OrderValue::Number(n) => FlatKey { kind: 0, num: *n, text: Vec::new() },
        OrderValue::Text(s) => {
            let lower = to_lowercase(s.as_str());
            FlatKey { kind: 1, num: 0, text: str_chars(lower.as_str()) }
        },
        OrderValue::Boolean(b) => FlatKey { kind: 2, num: if *b { 1 } else { 0 }, text: Vec::new() },
        OrderValue::Error(e) => {
            let d = error_discriminant(*e);
            FlatKey { kind: 3, num: d as i64, text: Vec::new() }
        },
    }
}

fn lex_compare(a: &Vec<char>, b: &Vec<char>) -> (r: i8)
    ensures
        r as int == lex_from(a@, b@, 0),
{
    let mut i: usize = 0;
    while i < a.len() && i < b.len()
        invariant
            i <= a@.len(),
            i <= b@.len(),
            lex_from(a@, b@, 0) == lex_from(a@, b@, i as int),
        decreases a@.len() - i,
    {
        let x = a[i];
        let y = b[i];
        if x < y {
            return -1;
        }
        if x > y {
            return 1;
        }
        i = i + 1;
    }
    if i >= a.len() {
        if i >= b.len() { 0 } else { -1 }
    } else {
        1
    }
}

fn flat_compare(x: &FlatKey, y: &FlatKey) -> (r: i8)
    ensures
        r as int == key_relation(flat_view(*x), flat_view(*y)),
{
    if x.kind != y.kind {
        if x.kind < y.kind { -1 } else { 1 }
    } else if x.num != y.num {
        if x.num < y.num { -1 } else { 1 }
    } else {
        lex_compare(&x.text, &y.text)
    }
}

/// Compares two values: -1 when `a` comes first, 1 when `b` does, 0 when
/// they are equal in this order (texts that differ only in case are
/// equal).
pub fn compare_values(a: &OrderValue, b: &OrderValue) -> (r: i8)
    ensures
        r as int == value_relation(*a, *b),
{
    let x = flat_key(a);
    let y = flat_key(b);
    flat_compare(&x, &y)
}

/// The number of the first `n` keys that come before `x`.
pub open spec fn count_before(keys: Seq<(int, int, Seq<char>)>, x: (int, int, Seq<char>), n: int) -> nat
    decreases n,
{
    if n <= 0 {
        0
    } else {
        count_before(keys, x, n - 1) + if key_relation(keys[n - 1], x) < 0 { 1nat } else { 0nat }
    }
}

/// The keys of a sequence of values.
pub open spec fn value_keys(values: Seq<OrderValue>) -> Seq<(int, int, Seq<char>)> {
    values.map_values(|v: OrderValue| value_key(v))
}

proof fn lemma_count_monotone(keys: Seq<(int, int, Seq<char>)>, x: (int, int, Seq<char>), y: (int, int, Seq<char>), n: int)
    requires
        0 <= n <= keys.len(),
        key_relation(x, y) < 0,
    ensures
        count_before(keys, x, n) <= count_before(keys, y, n),
        (exists|j: int| 0 <= j < n && #[trigger] keys[j] == x) ==> count_before(keys, x, n) < count_before(keys, y, n),
    decreases n,
{
    if n > 0 {
        lemma_count_monotone(keys, x, y, n - 1);
        lemma_key_order(keys[n - 1], x, y);
        lemma_key_order(x, x, y);
        if exists|j: int| 0 <= j < n && #[trigger] keys[j] == x {
            if keys[n - 1] != x {
                let j = choose|j: int| 0 <= j < n && #[trigger] keys[j] == x;
                assert(0 <= j < n - 1 && keys[j] == x);
            }
        }
    }
}

/// The rank of each value: how many of the values come before it. Values
/// compare as their ranks do.
pub fn order_ranks(values: &Vec<OrderValue>) -> (r: Vec<usize>)
    ensures
        r@.len() == values@.len(),
        forall|i: int| 0 <= i < values@.len() ==> r@[i] as int == count_before(value_keys(values@), value_key(values@[i]), values@.len() as int),
        forall|i: int, j: int| 0 <= i < values@.len() && 0 <= j < values@.len() ==>
            ((r@[i] < r@[j]) == (value_relation(values@[i], values@[j]) < 0)
            && (r@[i] == r@[j]) == (value_relation(values@[i], values@[j]) == 0)),
{
    let n = values.len();
    let ghost keys = value_keys(values@);
    let mut flat: Vec<FlatKey> = Vec::new();
    let mut k: usize = 0;
    while k < n
        invariant
            n == values@.len(),
            keys == value_keys(values@),
            k <= n,
            flat@.len() == k,
            forall|j: int| 0 <= j < k ==> flat_view(#[trigger] flat@[j]) == keys[j],
        decreases n - k,
    {
        flat.push(flat_key(&values[k]));
        k = k + 1;
    }
    let mut ranks: Vec<usize> = Vec::new();
    let mut i: usize = 0;
    while i < n
        invariant
            n == values@.len(),
            keys == value_keys(values@),
            flat@.len() == n,
            forall|j: int| 0 <= j < n ==> flat_view(#[trigger] flat@[j]) == keys[j],
            i <= n,
            ranks@.len() == i,
            forall|j: int| 0 <= j < i ==> ranks@[j] as int == count_before(keys, keys[j], n as int),
        decreases n - i,
    {
        let mut c: usize = 0;
        let mut j: usize = 0;
        while j < n
            invariant
                n == values@.len(),
                flat@.len() == n,
                forall|q: int| 0 <= q < n ==> flat_view(#[trigger] flat@[q]) == keys[q],
                i < n,
                j <= n,
                c as int == count_before(keys, keys[i as int], j as int),
                c <= j,
            decreases n - j,
        {
            if flat_compare(&flat[j], &flat[i]) < 0 {
                c = c + 1;
            }
            j = j + 1;
        }
        ranks.push(c);
        i = i + 1;
    }
    proof {
        assert forall|i: int, j: int| 0 <= i < n && 0 <= j < n implies
            ((ranks@[i] < ranks@[j]) == (value_relation(values@[i], values@[j]) < 0)
            && (ranks@[i] == ranks@[j]) == (value_relation(values@[i], values@[j]) == 0)) by {
            let x = keys[i];
            let y = keys[j];
            assert(x == value_key(values@[i]));
            assert(y == value_key(values@[j]));
            lemma_key_order(x, y, x);
            if key_relation(x, y) < 0 {
                lemma_count_monotone(keys, x, y, n as int);
                assert(keys[i] == x);
            } else if key_relation(x, y) > 0 {
                lemma_count_monotone(keys, y, x, n as int);
                assert(keys[j] == y);
            }
        }
    }
    ranks
}

} // verus!
