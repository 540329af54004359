//! Reindexing: a snapshot of package metadata is written over the table,
//! entry by entry, each entry overwriting the record with its attribute
//! path.

use vstd::prelude::*;
use crate::record::{copy_opt, PackageInfo, Record};
use crate::store::Store;
use crate::table::{distinct_keys, has_key, is_table, key_at, key_index, lemma_keys_distinct};
use crate::text::opt_view;

verus! {

/// What a snapshot says of one package.
#[derive(Debug)]
pub struct PkgMeta {
    pub pname: String,
    pub version: Option<String>,
    pub description: Option<String>,
}

/// The record that a snapshot entry stands for: the attribute path is the
/// key, the package name is the name, and a missing version or description
/// stays absent.
pub open spec fn entry_record(e: (String, PkgMeta)) -> Record {
    Record {
        attr: e.0@,
        name: e.1.pname@,
        version: opt_view(e.1.version),
        description: opt_view(e.1.description),
    }
}

/// The records that the entries of a snapshot stand for, in the same order.
pub open spec fn entries(packages: Seq<(String, PkgMeta)>) -> Seq<Record> {
    packages.map_values(|e: (String, PkgMeta)| entry_record(e))
}

/// Position `i` holds the last record of `batch` with the key `attr`.
pub open spec fn last_write(batch: Seq<Record>, attr: Seq<char>, i: int) -> bool {
    &&& key_at(batch, attr, i)
    &&& forall|j: int| i < j < batch.len() ==> (#[trigger] batch[j]).attr != attr
}

/// The last record of `batch` with the key `attr`.
pub open spec fn written(batch: Seq<Record>, attr: Seq<char>) -> Record {
    batch[choose|i: int| last_write(batch, attr, i)]
}

/// The table after a batch of upserts: a key that the batch names is bound
/// to the last record that the batch holds for it, every other key is bound
/// as before.
pub open spec fn merged(table: Map<Seq<char>, Record>, batch: Seq<Record>) -> Map<Seq<char>, Record> {
    Map::new(
        |a: Seq<char>| table.contains_key(a) || has_key(batch, a),
        |a: Seq<char>|
            if has_key(batch, a) {
                written(batch, a)
            } else {
                table[a]
            },
    )
}

/// A key that a batch names has a last record in it.
pub proof fn lemma_last_write_exists(batch: Seq<Record>, attr: Seq<char>)
    requires
        has_key(batch, attr),
    ensures
        exists|i: int| last_write(batch, attr, i),
    decreases batch.len(),
{
    let k = key_index(batch, attr);
    assert(key_at(batch, attr, k));
    let end = batch.len() - 1;
    if batch[end].attr == attr {
        assert(last_write(batch, attr, end));
    } else {
        let short = batch.drop_last();
        assert(key_at(short, attr, k));
        lemma_last_write_exists(short, attr);
        let i = choose|i: int| last_write(short, attr, i);
        assert forall|j: int| i < j < batch.len() implies (#[trigger] batch[j]).attr != attr by {
            if j < end {
                assert(short[j] == batch[j]);
            }
        }
        assert(last_write(batch, attr, i));
    }
}

/// A batch without entries changes nothing.
pub proof fn lemma_merged_empty(table: Map<Seq<char>, Record>)
    ensures
        merged(table, Seq::<Record>::empty()) == table,
{
    let none = Seq::<Record>::empty();
    assert forall|a: Seq<char>| !has_key(none, a) by {
        if has_key(none, a) {
            assert(key_at(none, a, key_index(none, a)));
        }
    }
    assert(merged(table, none) =~= table);
}

/// One more entry at the end of a batch is one more upsert.
pub proof fn lemma_merged_push(table: Map<Seq<char>, Record>, batch: Seq<Record>, rec: Record)
    ensures
        merged(table, batch.push(rec)) == merged(table, batch).insert(rec.attr, rec),
{
    let next = batch.push(rec);
    let end = batch.len() as int;
    let left = merged(table, next);
    let right = merged(table, batch).insert(rec.attr, rec);
    assert(key_at(next, rec.attr, end));
    assert forall|a: Seq<char>| has_key(next, a) <==> (a == rec.attr || has_key(batch, a)) by {
        if has_key(next, a) {
            let k = key_index(next, a);
            assert(key_at(next, a, k));
            if k < end {
                assert(key_at(batch, a, k));
            }
        }
        if has_key(batch, a) {
            let k = key_index(batch, a);
            assert(key_at(batch, a, k));
            assert(key_at(next, a, k));
        }
    }
    assert forall|a: Seq<char>| left.contains_key(a) implies left[a] == right[a] by {
        if has_key(next, a) {
            lemma_last_write_exists(next, a);
            let i = choose|i: int| last_write(next, a, i);
            assert(last_write(next, a, i));
            if a == rec.attr {
                if i < end {
                    assert(next[end].attr != a);
                }
            } else {
                assert(i < end);
                assert(has_key(batch, a));
                lemma_last_write_exists(batch, a);
                let m = choose|m: int| last_write(batch, a, m);
                assert(last_write(batch, a, m));
                assert(key_at(batch, a, i));
                if m < i {
                    assert(batch[i].attr != a);
                } else if i < m {
                    assert(next[m] == batch[m]);
                    assert(next[m].attr != a);
                }
            }
        }
    }
    assert(left =~= right);
}

/// Builds the record that a snapshot entry stands for.
pub fn row_of(entry: &(String, PkgMeta)) -> (row: PackageInfo)
    ensures
        row@ == entry_record(*entry),
{
    PackageInfo {
        attr: entry.0.clone(),
        name: entry.1.pname.clone(),
        version: copy_opt(&entry.1.version),
        description: copy_opt(&entry.1.description),
    }
}

/// Writes every entry of a snapshot over the table, in order: each entry
/// overwrites the record that has its attribute path, or adds one.
pub fn insert_packages(store: &mut Store, packages: &Vec<(String, PkgMeta)>)
    ensures
        is_table(final(store)@),
        distinct_keys(final(store)@),
        final(store).map() == merged(old(store).map(), entries(packages@)),
{
    let ghost before = store.map();
    let ghost batch = entries(packages@);
    let _: usize = store.len();
    proof {
        lemma_merged_empty(before);
        assert(batch.take(0) =~= Seq::<Record>::empty());
    }
    let mut i: usize = 0;
    while i < packages.len()
        invariant
            i <= packages.len(),
            batch == entries(packages@),
            is_table(store@),
            store.map() == merged(before, batch.take(i as int)),
        decreases packages.len() - i,
    {
        let row = row_of(&packages[i]);
        proof {
            lemma_merged_push(before, batch.take(i as int), row@);
            assert(batch.take(i + 1) =~= batch.take(i as int).push(row@));
        }
        store.put(row);
        i += 1;
    }
    proof {
        assert(batch.take(packages.len() as int) =~= batch);
        lemma_keys_distinct(store@);
    }
}

/// Reindexes from a snapshot that was obtained: every entry is written over
/// the table, and the number of entries written is returned.
pub fn update_index(store: &mut Store, packages: &Vec<(String, PkgMeta)>) -> (count: usize)
    ensures
        count == packages@.len(),
        is_table(final(store)@),
        distinct_keys(final(store)@),
        final(store).map() == merged(old(store).map(), entries(packages@)),
{
    insert_packages(store, packages);
    packages.len()
}

} // verus!
