//! Ranked lookup by package name.
//!
//! A record is eligible when no record of the same name carries a greater
//! version. Eligible records whose name matches the term are listed in three
//! tiers (name equal to the term, name starting with it, name containing
//! it), each tier in ascending key order, and the list is cut at the limit.

use vstd::prelude::*;
pub use crate::record::PackageInfo;
use crate::record::{Record, records};
use crate::store::Store;
use crate::text::{chars_of, contains, has_prefix, has_substring, opt_lt, opt_order, starts_with, Order};

verus! {

/// The tier of a name for a term: 0 where they are equal, 1 where the name
/// starts with the term, 2 where it contains the term, 3 where it does not
/// match at all.
pub open spec fn tier(name: Seq<char>, term: Seq<char>) -> int {
    if name == term {
        0
    } else if starts_with(name, term) {
        1
    } else if contains(name, term) {
        2
    } else {
        3
    }
}

/// No record of `rows` with the name of `r` carries a greater version.
pub open spec fn is_latest(rows: Seq<Record>, r: Record) -> bool {
    forall|i: int|
        #![trigger rows[i]]
        0 <= i < rows.len() && rows[i].name == r.name ==> !opt_lt(r.version, rows[i].version)
}

/// The records that a query for `term` lists in tier `t`: those of that tier
/// that are the latest of their name.
pub open spec fn in_tier(rows: Seq<Record>, term: Seq<char>, t: int) -> spec_fn(Record) -> bool {
    |r: Record| tier(r.name, term) == t && is_latest(rows, r)
}

/// Every match for `term`, best tier first; within a tier in the order of
/// the listing.
pub open spec fn ranked(rows: Seq<Record>, term: Seq<char>) -> Seq<Record> {
    rows.filter(in_tier(rows, term, 0)) + rows.filter(in_tier(rows, term, 1)) + rows.filter(
        in_tier(rows, term, 2),
    )
}

/// The answer to a query: the first `limit` matches of the ranking, or all
/// of them where there are fewer.
pub open spec fn query_spec(rows: Seq<Record>, term: Seq<char>, limit: nat) -> Seq<Record> {
    let all = ranked(rows, term);
    if limit < all.len() {
        all.take(limit as int)
    } else {
        all
    }
}

/// Computes the tier of a name for a term.
pub fn tier_of(name: &str, term: &Vec<char>) -> (t: u8)
    ensures
        t as int == tier(name@, term@),
{
    let letters = chars_of(name);
    if has_prefix(&letters, term) {
        if letters.len() == term.len() {
            assert(letters@.subrange(0, term@.len() as int) =~= letters@);
            0
        } else {
            1
        }
    } else {
        proof {
            if name@ == term@ {
                assert(name@.subrange(0, term@.len() as int) =~= name@);
            }
        }
        if has_substring(&letters, term) {
            2
        } else {
            3
        }
    }
}

/// Tests whether row `at` is the latest of its name: whether no row of the
/// same name carries a greater version.
fn latest_at(store: &Store, at: usize) -> (yes: bool)
    requires
        at < store@.len(),
    ensures
        yes == is_latest(store@, store@[at as int]),
{
    let n = store.len();
    let mine = store.at(at);
    let mut j: usize = 0;
    while j < n
        invariant
            n == store@.len(),
            j <= n,
            mine@ == store@[at as int],
            forall|i: int|
                #![trigger store@[i]]
                0 <= i < j && store@[i].name == mine@.name ==> !opt_lt(mine@.version, store@[i].version),
        decreases n - j,
    {
        let other = store.at(j);
        if other.name == mine.name {
            match opt_order(&mine.version, &other.version) {
                Order::Less => {
                    assert(store@[j as int].name == mine@.name);
                    return false;
                },
                _ => {},
            }
        }
        j += 1;
    }
    true
}

/// Appends to `out` a copy of every row whose mark is `t`, in the order of
/// the listing.
fn gather(store: &Store, marks: &Vec<u8>, t: u8, out: &mut Vec<PackageInfo>, keep: Ghost<spec_fn(Record) -> bool>)
    requires
        marks@.len() == store@.len(),
        forall|i: int| 0 <= i < store@.len() ==> (marks@[i] == t) == (keep@)(#[trigger] store@[i]),
    ensures
        records(final(out)@) == records(old(out)@) + store@.filter(keep@),
{
    let n = store.len();
    let ghost start = records(out@);
    let mut i: usize = 0;
    assert(store@.take(0).filter(keep@) =~= Seq::<Record>::empty()) by {
        reveal(Seq::filter);
    }
    while i < n
        invariant
            n == store@.len(),
            marks@.len() == n,
            i <= n,
            forall|k: int| 0 <= k < store@.len() ==> (marks@[k] == t) == (keep@)(#[trigger] store@[k]),
            records(out@) == start + store@.take(i as int).filter(keep@),
        decreases n - i,
    {
        proof {
            assert(store@.take(i + 1) =~= store@.take(i as int).push(store@[i as int]));
            store@.take(i as int).lemma_filter_push(store@[i as int], keep@);
        }
        if marks[i] == t {
            let copy = store.at(i).duplicate();
            proof {
                assert(records(out@.push(copy)) =~= records(out@).push(copy@));
            }
            out.push(copy);
        }
        i += 1;
    }
    assert(store@.take(n as int) =~= store@);
}

/// Answers a query: the latest record of every name that matches `q`, exact
/// matches first, then names starting with `q`, then names containing it,
/// each group in ascending order of attribute path, at most `limit` records
/// in all. Nothing matching gives an empty vector.
pub fn query(store: &Store, q: &str, limit: usize) -> (found: Vec<PackageInfo>)
    ensures
        records(found@) == query_spec(store@, q@, limit as nat),
{
    let n = store.len();
    let term = chars_of(q);
    let mut marks: Vec<u8> = Vec::new();
    let mut i: usize = 0;
    while i < n
        invariant
            n == store@.len(),
            i <= n,
            term@ == q@,
            marks@.len() == i,
            forall|k: int|
                0 <= k < i ==> (#[trigger] marks@[k]) as int == (if is_latest(store@, store@[k]) {
                    tier(store@[k].name, q@)
                } else {
                    3
                }),
        decreases n - i,
    {
        let t = tier_of(store.at(i).name.as_str(), &term);
        let mark: u8 = if t < 3 && latest_at(store, i) {
            t
        } else {
            3
        };
        marks.push(mark);
        i += 1;
    }
    let mut found: Vec<PackageInfo> = Vec::new();
    assert(records(found@) =~= Seq::<Record>::empty());
    gather(store, &marks, 0, &mut found, Ghost(in_tier(store@, q@, 0)));
    gather(store, &marks, 1, &mut found, Ghost(in_tier(store@, q@, 1)));
    gather(store, &marks, 2, &mut found, Ghost(in_tier(store@, q@, 2)));
    assert(records(found@) =~= ranked(store@, q@));
    if limit < found.len() {
        found.truncate(limit);
        assert(records(found@) =~= ranked(store@, q@).take(limit as int));
    }
    found
}

} // verus!
