//! Text predicates over strings viewed as sequences of characters:
//! occurrence, prefix and substring tests, and the lexicographic order
//! (character by character, by code point) that keys and versions use.

use vstd::prelude::*;
use vstd::std_specs::iter::IteratorSpec;

verus! {

/// `needle` occurs in `hay` starting at position `at`.
pub open spec fn occurs_at(hay: Seq<char>, needle: Seq<char>, at: int) -> bool {
    &&& 0 <= at
    &&& at + needle.len() <= hay.len()
    &&& hay.subrange(at, at + needle.len()) == needle
}

/// `name` starts with `term`.
pub open spec fn starts_with(name: Seq<char>, term: Seq<char>) -> bool {
    occurs_at(name, term, 0)
}

/// `name` contains `term` somewhere.
pub open spec fn contains(name: Seq<char>, term: Seq<char>) -> bool {
    exists|at: int| occurs_at(name, term, at)
}

/// The code point of a character.
pub open spec fn code(c: char) -> int {
    c as int
}

/// `a` and `b` agree on their first `k` characters, and at position `k`
/// either `a` has ended while `b` goes on, or `a` holds the smaller character.
pub open spec fn lt_at(a: Seq<char>, b: Seq<char>, k: int) -> bool {
    &&& 0 <= k <= a.len()
    &&& k < b.len()
    &&& a.take(k) == b.take(k)
    &&& (k == a.len() || code(a[k]) < code(b[k]))
}

/// Strict lexicographic order: `a` sorts before `b`.
pub open spec fn lex_lt(a: Seq<char>, b: Seq<char>) -> bool {
    exists|k: int| lt_at(a, b, k)
}

/// The order of optional strings: absent sorts below every present value,
/// present values compare lexicographically.
pub open spec fn opt_lt(a: Option<Seq<char>>, b: Option<Seq<char>>) -> bool {
    match (a, b) {
        (None, Some(_)) => true,
        (Some(x), Some(y)) => lex_lt(x, y),
        _ => false,
    }
}

/// Outcome of a three-way comparison.
#[derive(Clone, Copy, Debug, PartialEq, Eq)]
pub enum Order {
    Less,
    Equal,
    Greater,
}

/// Two strings that agree on their first `k` characters are equal, or one
/// sorts strictly before the other.
proof fn lemma_gap_from(a: Seq<char>, b: Seq<char>, k: int)
    requires
        0 <= k <= a.len(),
        k <= b.len(),
        a.take(k) == b.take(k),
    ensures
        a == b || lex_lt(a, b) || lex_lt(b, a),
    decreases a.len() - k,
{
    if k == a.len() && k == b.len() {
        assert(a.take(k) == a);
        assert(b.take(k) == b);
    } else if k == a.len() {
        assert(lt_at(a, b, k));
    } else if k == b.len() {
        assert(lt_at(b, a, k));
    } else if a[k] != b[k] {
        if code(a[k]) < code(b[k]) {
            assert(lt_at(a, b, k));
        } else {
            assert(lt_at(b, a, k));
        }
    } else {
        assert(a.take(k + 1) == a.take(k).push(a[k]));
        assert(b.take(k + 1) == b.take(k).push(b[k]));
        lemma_gap_from(a, b, k + 1);
    }
}

/// Any two strings are equal or strictly ordered one way.
pub proof fn lemma_lex_total(a: Seq<char>, b: Seq<char>)
    ensures
        a == b || lex_lt(a, b) || lex_lt(b, a),
{
    assert(a.take(0) == b.take(0));
    lemma_gap_from(a, b, 0);
}

/// No string sorts before itself, and no two sort before each other.
pub proof fn lemma_lex_asymmetric(a: Seq<char>, b: Seq<char>)
    ensures
        !(lex_lt(a, b) && lex_lt(b, a)),
        !lex_lt(a, a),
{
    if lex_lt(a, b) && lex_lt(b, a) {
        let i = choose|k: int| lt_at(a, b, k);
        let j = choose|k: int| lt_at(b, a, k);
        if i < j {
            assert(b.take(j)[i] == a.take(j)[i]);
        } else if j < i {
            assert(a.take(i)[j] == b.take(i)[j]);
        }
    }
    if lex_lt(a, a) {
        let i = choose|k: int| lt_at(a, a, k);
        assert(false);
    }
}

/// The lexicographic order is transitive.
pub proof fn lemma_lex_transitive(a: Seq<char>, b: Seq<char>, c: Seq<char>)
    requires
        lex_lt(a, b),
        lex_lt(b, c),
    ensures
        lex_lt(a, c),
{
    let i = choose|k: int| lt_at(a, b, k);
    let j = choose|k: int| lt_at(b, c, k);
    let m = if i <= j { i } else { j };
    assert(a.take(m) == c.take(m)) by {
        assert(a.take(m) == a.take(i).take(m));
        assert(b.take(m) == b.take(i).take(m));
        assert(b.take(m) == b.take(j).take(m));
        assert(c.take(m) == c.take(j).take(m));
    }
    if i < j {
        assert(b.take(j)[i] == c.take(j)[i]);
    } else if j < i {
        assert(a.take(i)[j] == b.take(i)[j]);
    }
    assert(lt_at(a, c, m));
}

/// Copies the characters of a string into a vector.
pub fn chars_of(s: &str) -> (out: Vec<char>)
    ensures
        out@ == s@,
{
    let mut out: Vec<char> = Vec::new();
    for c in it: s.chars()
        invariant
            out@ == it.seq().take(it.index() as int),
            it.seq() == s@,
    {
        out.push(c);
    }
    out
}

/// Tests whether `needle` occurs in `hay` at position `at`.
pub fn matches_at(hay: &Vec<char>, needle: &Vec<char>, at: usize) -> (hit: bool)
    ensures
        hit == occurs_at(hay@, needle@, at as int),
{
    if needle.len() > hay.len() || at > hay.len() - needle.len() {
        return false;
    }
    let mut i: usize = 0;
    while i < needle.len()
        invariant
            i <= needle.len(),
            at + needle.len() <= hay.len(),
            forall|j: int| 0 <= j < i ==> hay@[at + j] == needle@[j],
        decreases needle.len() - i,
    {
        if hay[at + i] != needle[i] {
            proof {
                let window = hay@.subrange(at as int, at + needle.len());
                assert(window[i as int] == hay@[at + i]);
            }
            return false;
        }
        i += 1;
    }
    assert(hay@.subrange(at as int, at + needle.len()) =~= needle@);
    true
}

/// Tests whether `name` starts with `term`.
pub fn has_prefix(name: &Vec<char>, term: &Vec<char>) -> (hit: bool)
    ensures
        hit == starts_with(name@, term@),
{
    matches_at(name, term, 0)
}

/// Tests whether `name` contains `term` anywhere.
pub fn has_substring(name: &Vec<char>, term: &Vec<char>) -> (hit: bool)
    ensures
        hit == contains(name@, term@),
{
    if term.len() > name.len() {
        return false;
    }
    let last: usize = name.len() - term.len();
    let mut at: usize = 0;
    loop
        invariant
            last == name.len() - term.len(),
            at <= last,
            forall|p: int| 0 <= p < at ==> !occurs_at(name@, term@, p),
        decreases last - at,
    {
        if matches_at(name, term, at) {
            return true;
        }
        if at == last {
            return false;
        }
        at += 1;
    }
}

/// Compares two strings lexicographically, character by character.
pub fn lex_order(a: &str, b: &str) -> (o: Order)
    ensures
        o is Less <==> lex_lt(a@, b@),
        o is Equal <==> a@ == b@,
        o is Greater <==> lex_lt(b@, a@),
{
    let mut x = a.chars();
    let mut y = b.chars();
    let ghost mut k: int = 0;
    proof {
        lemma_lex_asymmetric(a@, b@);
        assert(a@.skip(0) =~= a@);
        assert(b@.skip(0) =~= b@);
    }
    loop
        invariant
            0 <= k <= a@.len(),
            k <= b@.len(),
            a@.take(k) == b@.take(k),
            x.remaining() == a@.skip(k),
            y.remaining() == b@.skip(k),
            !(lex_lt(a@, b@) && lex_lt(b@, a@)),
            !lex_lt(a@, a@),
        decreases a@.len() - k,
    {
        let p = x.next();
        let q = y.next();
        match (p, q) {
            (None, None) => {
                assert(a@.take(k) == a@);
                assert(b@.take(k) == b@);
                return Order::Equal;
            },
            (None, Some(_)) => {
                assert(lt_at(a@, b@, k));
                return Order::Less;
            },
            (Some(_), None) => {
                assert(lt_at(b@, a@, k));
                return Order::Greater;
            },
            (Some(c), Some(d)) => {
                assert(c == a@[k]);
                assert(d == b@[k]);
                if c != d {
                    if c < d {
                        assert(lt_at(a@, b@, k));
                        return Order::Less;
                    } else {
                        assert(lt_at(b@, a@, k));
                        return Order::Greater;
                    }
                }
                proof {
                    assert(a@.take(k + 1) == a@.take(k).push(a@[k]));
                    assert(b@.take(k + 1) == b@.take(k).push(b@[k]));
                    assert(a@.skip(k).drop_first() =~= a@.skip(k + 1));
                    assert(b@.skip(k).drop_first() =~= b@.skip(k + 1));
                    k = k + 1;
                }
            },
        }
    }
}

/// Compares two optional strings: absent sorts below every present value.
pub fn opt_order(a: &Option<String>, b: &Option<String>) -> (o: Order)
    ensures
        o is Less <==> opt_lt(opt_view(*a), opt_view(*b)),
        o is Equal <==> opt_view(*a) == opt_view(*b),
        o is Greater <==> opt_lt(opt_view(*b), opt_view(*a)),
{
    match (a, b) {
        (None, None) => Order::Equal,
        (None, Some(_)) => Order::Less,
        (Some(_), None) => Order::Greater,
        (Some(x), Some(y)) => lex_order(x.as_str(), y.as_str()),
    }
}

/// The characters of an optional string.
pub open spec fn opt_view(s: Option<String>) -> Option<Seq<char>> {
    match s {
        Some(t) => Some(t@),
        None => None,
    }
}

} // verus!
