//! The model of the package table: a listing of records in strictly
//! ascending key order, and the finite map from key to record that it denotes.

use vstd::prelude::*;
use crate::record::Record;
use crate::text::{lex_lt, lemma_lex_asymmetric, lemma_lex_transitive};

verus! {

/// A listing is a table when its keys ascend strictly; no key occurs twice.
pub open spec fn is_table(rows: Seq<Record>) -> bool {
    forall|i: int, j: int| 0 <= i < j < rows.len() ==> lex_lt(#[trigger] rows[i].attr, #[trigger] rows[j].attr)
}

/// The keys of a listing are pairwise different.
pub open spec fn distinct_keys(rows: Seq<Record>) -> bool {
    forall|i: int, j: int| 0 <= i < j < rows.len() ==> #[trigger] rows[i].attr != #[trigger] rows[j].attr
}

/// Row `i` of `rows` has the key `attr`.
pub open spec fn key_at(rows: Seq<Record>, attr: Seq<char>, i: int) -> bool {
    0 <= i < rows.len() && rows[i].attr == attr
}

/// Some row of `rows` has the key `attr`.
pub open spec fn has_key(rows: Seq<Record>, attr: Seq<char>) -> bool {
    exists|i: int| key_at(rows, attr, i)
}

/// The position of a row with the key `attr`, where there is one.
pub open spec fn key_index(rows: Seq<Record>, attr: Seq<char>) -> int {
    choose|i: int| key_at(rows, attr, i)
}

/// The map from key to record that a listing denotes.
pub open spec fn table_map(rows: Seq<Record>) -> Map<Seq<char>, Record> {
    Map::new(|a: Seq<char>| has_key(rows, a), |a: Seq<char>| rows[key_index(rows, a)])
}

/// No two rows of a table share a key.
pub proof fn lemma_keys_distinct(rows: Seq<Record>)
    requires
        is_table(rows),
    ensures
        forall|i: int, j: int|
            0 <= i < rows.len() && 0 <= j < rows.len() && i != j ==> #[trigger] rows[i].attr != #[trigger] rows[j].attr,
{
    assert forall|i: int, j: int|
        0 <= i < rows.len() && 0 <= j < rows.len() && i != j implies #[trigger] rows[i].attr != #[trigger] rows[j].attr by {
        lemma_lex_asymmetric(rows[i].attr, rows[j].attr);
        if i < j {
            assert(lex_lt(rows[i].attr, rows[j].attr));
        } else {
            assert(lex_lt(rows[j].attr, rows[i].attr));
        }
    }
}

/// In a table, the map sends each row's key to that row.
pub proof fn lemma_map_at(rows: Seq<Record>, i: int)
    requires
        is_table(rows),
        0 <= i < rows.len(),
    ensures
        table_map(rows).contains_key(rows[i].attr),
        table_map(rows)[rows[i].attr] == rows[i],
{
    lemma_keys_distinct(rows);
    assert(key_at(rows, rows[i].attr, i));
    let k = key_index(rows, rows[i].attr);
    assert(key_at(rows, rows[i].attr, k));
    assert(k == i);
}

/// Inserting a record at the place where its key belongs gives a table
/// again, whose map is the old one with the new key bound to the record.
pub proof fn lemma_insert_row(rows: Seq<Record>, pos: int, rec: Record)
    requires
        is_table(rows),
        0 <= pos <= rows.len(),
        forall|i: int| 0 <= i < pos ==> lex_lt(#[trigger] rows[i].attr, rec.attr),
        forall|i: int| pos <= i < rows.len() ==> lex_lt(rec.attr, #[trigger] rows[i].attr),
    ensures
        is_table(rows.insert(pos, rec)),
        table_map(rows.insert(pos, rec)) == table_map(rows).insert(rec.attr, rec),
{
    let next = rows.insert(pos, rec);
    assert forall|i: int, j: int| 0 <= i < j < next.len() implies lex_lt(#[trigger] next[i].attr, #[trigger] next[j].attr) by {
        if j < pos {
            assert(next[i] == rows[i] && next[j] == rows[j]);
        } else if j == pos {
            assert(next[i] == rows[i]);
        } else if i < pos {
            assert(next[i] == rows[i] && next[j] == rows[j - 1]);
            if pos == j - 1 {
                lemma_lex_transitive(rows[i].attr, rec.attr, rows[j - 1].attr);
            }
        } else if i == pos {
            assert(next[j] == rows[j - 1]);
        } else {
            assert(next[i] == rows[i - 1] && next[j] == rows[j - 1]);
        }
    }
    let left = table_map(next);
    let right = table_map(rows).insert(rec.attr, rec);
    assert forall|a: Seq<char>| left.contains_key(a) <==> right.contains_key(a) by {
        if has_key(next, a) {
            let k = key_index(next, a);
            assert(key_at(next, a, k));
            if k < pos {
                assert(key_at(rows, a, k));
            } else if k > pos {
                assert(key_at(rows, a, k - 1));
            }
        }
        if has_key(rows, a) {
            let k = key_index(rows, a);
            assert(key_at(rows, a, k));
            if k < pos {
                assert(key_at(next, a, k));
            } else {
                assert(key_at(next, a, k + 1));
            }
        }
        if a == rec.attr {
            assert(key_at(next, a, pos));
        }
    }
    assert forall|a: Seq<char>| left.contains_key(a) implies left[a] == right[a] by {
        let k = key_index(next, a);
        assert(key_at(next, a, k));
        lemma_map_at(next, k);
        if k < pos {
            lemma_map_at(rows, k);
            lemma_lex_asymmetric(rows[k].attr, rec.attr);
        } else if k > pos {
            lemma_map_at(rows, k - 1);
            lemma_lex_asymmetric(rec.attr, rows[k - 1].attr);
        }
    }
    assert(left =~= right);
}

/// Replacing a row by a record with the same key gives a table again,
/// whose map is the old one with that key rebound to the record.
pub proof fn lemma_replace_row(rows: Seq<Record>, pos: int, rec: Record)
    requires
        is_table(rows),
        0 <= pos < rows.len(),
        rows[pos].attr == rec.attr,
    ensures
        is_table(rows.update(pos, rec)),
        table_map(rows.update(pos, rec)) == table_map(rows).insert(rec.attr, rec),
{
    let next = rows.update(pos, rec);
    assert forall|i: int, j: int| 0 <= i < j < next.len() implies lex_lt(#[trigger] next[i].attr, #[trigger] next[j].attr) by {
        assert(next[i].attr == rows[i].attr);
        assert(next[j].attr == rows[j].attr);
    }
    lemma_keys_distinct(rows);
    let left = table_map(next);
    let right = table_map(rows).insert(rec.attr, rec);
    assert forall|a: Seq<char>| left.contains_key(a) <==> right.contains_key(a) by {
        if has_key(next, a) {
            let k = key_index(next, a);
            assert(key_at(next, a, k));
            assert(key_at(rows, a, k));
        }
        if has_key(rows, a) {
            let k = key_index(rows, a);
            assert(key_at(rows, a, k));
            assert(key_at(next, a, k));
        }
        if a == rec.attr {
            assert(key_at(next, a, pos));
        }
    }
    assert forall|a: Seq<char>| left.contains_key(a) implies left[a] == right[a] by {
        let k = key_index(next, a);
        assert(key_at(next, a, k));
        lemma_map_at(next, k);
        if k != pos {
            lemma_map_at(rows, k);
        }
    }
    assert(left =~= right);
}

/// A table is determined by its map: two tables that denote the same map
/// list the same records in the same order.
pub proof fn lemma_table_canonical(a: Seq<Record>, b: Seq<Record>)
    requires
        is_table(a),
        is_table(b),
        table_map(a) == table_map(b),
    ensures
        a == b,
    decreases a.len(),
{
    if a.len() == 0 {
        if b.len() > 0 {
            lemma_map_at(b, 0);
            assert(has_key(a, b[0].attr));
            let k = key_index(a, b[0].attr);
            assert(key_at(a, b[0].attr, k));
        }
        assert(a =~= b);
    } else {
        let la = a.len() - 1;
        lemma_map_at(a, la);
        assert(has_key(b, a[la].attr));
        let j = key_index(b, a[la].attr);
        assert(key_at(b, a[la].attr, j));
        let lb = b.len() - 1;
        lemma_map_at(b, lb);
        assert(has_key(a, b[lb].attr));
        let i = key_index(a, b[lb].attr);
        assert(key_at(a, b[lb].attr, i));
        // a[i] <= a[la] == b[j] <= b[lb] == a[i], so all four keys are one.
        lemma_lex_asymmetric(a[la].attr, b[lb].attr);
        if i < la {
            assert(lex_lt(a[i].attr, a[la].attr));
        }
        if j < lb {
            assert(lex_lt(b[j].attr, b[lb].attr));
        }
        assert(i == la && j == lb);
        lemma_map_at(b, j);
        assert(a[la] == b[lb]);
        let a0 = a.drop_last();
        let b0 = b.drop_last();
        lemma_drop_last(a);
        lemma_drop_last(b);
        assert(table_map(a0) =~= table_map(b0));
        lemma_table_canonical(a0, b0);
        assert(a =~= a0.push(a[la]));
        assert(b =~= b0.push(b[lb]));
    }
}

/// Dropping the last row of a table removes its key from the map.
pub proof fn lemma_drop_last(rows: Seq<Record>)
    requires
        is_table(rows),
        rows.len() > 0,
    ensures
        is_table(rows.drop_last()),
        table_map(rows.drop_last()) == table_map(rows).remove(rows.last().attr),
{
    let short = rows.drop_last();
    assert forall|i: int, j: int| 0 <= i < j < short.len() implies lex_lt(#[trigger] short[i].attr, #[trigger] short[j].attr) by {
        assert(short[i] == rows[i] && short[j] == rows[j]);
    }
    lemma_keys_distinct(rows);
    let left = table_map(short);
    let right = table_map(rows).remove(rows.last().attr);
    assert forall|a: Seq<char>| left.contains_key(a) <==> right.contains_key(a) by {
        if has_key(short, a) {
            let k = key_index(short, a);
            assert(key_at(short, a, k));
            assert(key_at(rows, a, k));
        }
        if has_key(rows, a) && a != rows.last().attr {
            let k = key_index(rows, a);
            assert(key_at(rows, a, k));
            assert(key_at(short, a, k));
        }
    }
    assert forall|a: Seq<char>| left.contains_key(a) implies left[a] == right[a] by {
        let k = key_index(short, a);
        assert(key_at(short, a, k));
        lemma_map_at(short, k);
        lemma_map_at(rows, k);
    }
    assert(left =~= right);
}

/// Appending a record with a fresh key to a listing of distinct keys keeps
/// the keys distinct and binds the new key in the map.
pub proof fn lemma_push_row(rows: Seq<Record>, rec: Record)
    requires
        distinct_keys(rows),
        !has_key(rows, rec.attr),
    ensures
        distinct_keys(rows.push(rec)),
        table_map(rows.push(rec)) == table_map(rows).insert(rec.attr, rec),
{
    let next = rows.push(rec);
    assert forall|i: int, j: int| 0 <= i < j < next.len() implies #[trigger] next[i].attr != #[trigger] next[j].attr by {
        if j == rows.len() {
            assert(!key_at(rows, rec.attr, i));
        } else {
            assert(next[i] == rows[i] && next[j] == rows[j]);
        }
    }
    let left = table_map(next);
    let right = table_map(rows).insert(rec.attr, rec);
    assert forall|a: Seq<char>| left.contains_key(a) <==> right.contains_key(a) by {
        if has_key(next, a) {
            let k = key_index(next, a);
            assert(key_at(next, a, k));
            if k < rows.len() {
                assert(key_at(rows, a, k));
            }
        }
        if has_key(rows, a) {
            let k = key_index(rows, a);
            assert(key_at(rows, a, k));
            assert(key_at(next, a, k));
        }
        if a == rec.attr {
            assert(key_at(next, a, rows.len() as int));
        }
    }
    assert forall|a: Seq<char>| left.contains_key(a) implies left[a] == right[a] by {
        let k = key_index(next, a);
        assert(key_at(next, a, k));
        if a == rec.attr {
            if k < rows.len() {
                assert(key_at(rows, a, k));
            }
        } else {
            let m = key_index(rows, a);
            assert(key_at(rows, a, k));
            assert(key_at(rows, a, m));
            if m < k {
                assert(rows[m].attr != rows[k].attr);
            } else if k < m {
                assert(rows[k].attr != rows[m].attr);
            }
        }
    }
    assert(left =~= right);
}

/// The empty listing is a table and denotes the empty map.
pub proof fn lemma_empty_table()
    ensures
        is_table(Seq::<Record>::empty()),
        table_map(Seq::<Record>::empty()) == Map::<Seq<char>, Record>::empty(),
{
    let none = Seq::<Record>::empty();
    assert forall|a: Seq<char>| !has_key(none, a) by {
        if has_key(none, a) {
            let k = key_index(none, a);
            assert(key_at(none, a, k));
        }
    }
    assert(table_map(none) =~= Map::<Seq<char>, Record>::empty());
}

} // verus!
