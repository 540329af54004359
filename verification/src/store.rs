//! The package table: records keyed by attribute path, kept in ascending
//! key order, with last-write-wins upsert.

use vstd::prelude::*;
use crate::error::StoreError;
use crate::record::{PackageInfo, Record, records};
use crate::table::{distinct_keys, is_table, table_map, has_key, key_at, key_index, lemma_insert_row, lemma_replace_row, lemma_empty_table, lemma_map_at, lemma_push_row};
use crate::text::{lex_lt, lex_order, opt_view, Order, lemma_lex_transitive};

verus! {

/// The package table.
pub struct Store {
    rows: Vec<PackageInfo>,
}

impl View for Store {
    type V = Seq<Record>;

    /// The records of the table, in ascending key order.
    closed spec fn view(&self) -> Seq<Record> {
        records(self.rows@)
    }
}

impl Store {
    #[verifier::type_invariant]
    spec fn ordered(self) -> bool {
        is_table(records(self.rows@))
    }

    /// The map from attribute path to record that the table holds.
    pub open spec fn map(&self) -> Map<Seq<char>, Record> {
        table_map(self@)
    }

    /// An empty table.
    pub fn new() -> (s: Store)
        ensures
            s@ == Seq::<Record>::empty(),
            s.map() == Map::<Seq<char>, Record>::empty(),
    {
        proof {
            lemma_empty_table();
        }
        let s = Store { rows: Vec::new() };
        assert(s@ =~= Seq::<Record>::empty());
        s
    }

    /// The number of records.
    pub fn len(&self) -> (n: usize)
        ensures
            n == self@.len(),
            is_table(self@),
    {
        proof {
            use_type_invariant(self);
        }
        self.rows.len()
    }

    /// The record at position `i` of the listing, where there is one.
    pub fn row(&self, i: usize) -> (r: Option<&PackageInfo>)
        ensures
            r is Some <==> i < self@.len(),
            r matches Some(p) ==> p@ == self@[i as int],
    {
        if i < self.rows.len() {
            Some(&self.rows[i])
        } else {
            None
        }
    }

    /// The record at a position that the listing has.
    pub(crate) fn at(&self, i: usize) -> (r: &PackageInfo)
        requires
            i < self@.len(),
        ensures
            r@ == self@[i as int],
    {
        &self.rows[i]
    }

    /// Finds where the key `attr` stands, or would stand, in the listing:
    /// every row before the position has a smaller key, and either the row
    /// there has this key, or it and every later row have a greater one.
    fn locate(&self, attr: &str) -> (at: (usize, bool))
        ensures
            at.0 <= self@.len(),
            forall|i: int| 0 <= i < at.0 ==> lex_lt(#[trigger] self@[i].attr, attr@),
            at.1 ==> at.0 < self@.len() && self@[at.0 as int].attr == attr@,
            !at.1 ==> forall|i: int| at.0 <= i < self@.len() ==> lex_lt(attr@, #[trigger] self@[i].attr),
    {
        proof {
            use_type_invariant(self);
        }
        let mut lo: usize = 0;
        let mut hi: usize = self.rows.len();
        while lo < hi
            invariant
                is_table(self@),
                self@ == records(self.rows@),
                lo <= hi <= self.rows.len(),
                forall|i: int| 0 <= i < lo ==> lex_lt(#[trigger] self@[i].attr, attr@),
                forall|i: int| hi <= i < self@.len() ==> lex_lt(attr@, #[trigger] self@[i].attr),
            decreases hi - lo,
        {
            let mid: usize = lo + (hi - lo) / 2;
            let o = lex_order(self.rows[mid].attr.as_str(), attr);
            assert(self@[mid as int].attr == self.rows@[mid as int].attr@);
            match o {
                Order::Less => {
                    assert forall|i: int| 0 <= i < mid + 1 implies lex_lt(#[trigger] self@[i].attr, attr@) by {
                        if i < mid {
                            lemma_lex_transitive(self@[i].attr, self@[mid as int].attr, attr@);
                        }
                    }
                    lo = mid + 1;
                },
                Order::Equal => {
                    return (mid, true);
                },
                Order::Greater => {
                    assert forall|i: int| mid <= i < self@.len() implies lex_lt(attr@, #[trigger] self@[i].attr) by {
                        if mid < i {
                            lemma_lex_transitive(attr@, self@[mid as int].attr, self@[i].attr);
                        }
                    }
                    hi = mid;
                },
            }
        }
        (lo, false)
    }

    /// Looks a record up by its attribute path.
    pub fn get(&self, attr: &str) -> (found: Option<&PackageInfo>)
        ensures
            found is Some <==> self.map().contains_key(attr@),
            found matches Some(r) ==> r@ == self.map()[attr@],
    {
        proof {
            use_type_invariant(self);
        }
        let (pos, hit) = self.locate(attr);
        if hit {
            proof {
                lemma_map_at(self@, pos as int);
            }
            Some(&self.rows[pos])
        } else {
            proof {
                if has_key(self@, attr@) {
                    let k = key_index(self@, attr@);
                    assert(key_at(self@, attr@, k));
                    crate::text::lemma_lex_asymmetric(self@[k].attr, attr@);
                }
            }
            None
        }
    }

    /// Inserts a record, or overwrites the record that has the same
    /// attribute path: afterwards the key is bound to exactly the values
    /// given, and every other key is bound as before.
    pub fn upsert(&mut self, attr: String, name: String, version: Option<String>, description: Option<String>)
        ensures
            is_table(final(self)@),
            final(self).map() == old(self).map().insert(
                attr@,
                Record {
                    attr: attr@,
                    name: name@,
                    version: opt_view(version),
                    description: opt_view(description),
                },
            ),
    {
        self.put(PackageInfo { attr, name, version, description });
    }

    /// Stores a whole record under its own attribute path, overwriting the
    /// record that has the same one.
    pub fn put(&mut self, row: PackageInfo)
        ensures
            is_table(final(self)@),
            final(self).map() == old(self).map().insert(row@.attr, row@),
    {
        proof {
            use_type_invariant(&*self);
        }
        let (pos, hit) = self.locate(row.attr.as_str());
        let ghost before = self@;
        let mut rows: Vec<PackageInfo> = Vec::new();
        proof {
            lemma_empty_table();
            assert(records(rows@) =~= Seq::<Record>::empty());
        }
        std::mem::swap(&mut self.rows, &mut rows);
        if hit {
            proof {
                lemma_replace_row(before, pos as int, row@);
                assert(records(rows@.update(pos as int, row)) =~= before.update(pos as int, row@));
            }
            rows[pos] = row;
        } else {
            proof {
                lemma_insert_row(before, pos as int, row@);
                assert(records(rows@.insert(pos as int, row)) =~= before.insert(pos as int, row@));
            }
            rows.insert(pos, row);
        }
        self.rows = rows;
    }

    /// A copy of every record, in ascending order of attribute path.
    pub fn rows(&self) -> (out: Vec<PackageInfo>)
        ensures
            records(out@) == self@,
            is_table(self@),
    {
        proof {
            use_type_invariant(self);
        }
        let mut out: Vec<PackageInfo> = Vec::new();
        let mut i: usize = 0;
        while i < self.rows.len()
            invariant
                i <= self.rows.len(),
                records(out@) == records(self.rows@).take(i as int),
            decreases self.rows.len() - i,
        {
            let copy = self.rows[i].duplicate();
            proof {
                let all = records(self.rows@);
                assert(records(out@.push(copy)) =~= records(out@).push(copy@));
                assert(all.take(i + 1) =~= all.take(i as int).push(all[i as int]));
            }
            out.push(copy);
            i += 1;
        }
        assert(records(self.rows@).take(self.rows.len() as int) =~= records(self.rows@));
        out
    }

    /// Builds the table from rows read back from durable storage. Rows may
    /// come in any order; two rows with one attribute path mean that the
    /// stored table is corrupt, and nothing is built.
    pub fn from_rows(rows: &Vec<PackageInfo>) -> (built: Result<Store, StoreError>)
        ensures
            built is Ok <==> distinct_keys(records(rows@)),
            built matches Ok(s) ==> is_table(s@) && s.map() == table_map(records(rows@)),
            built matches Err(e) ==> e == StoreError::IOFailure,
    {
        let mut s = Store::new();
        let ghost all = records(rows@);
        let mut i: usize = 0;
        proof {
            assert(all.take(0) =~= Seq::<Record>::empty());
        }
        while i < rows.len()
            invariant
                i <= rows.len(),
                all == records(rows@),
                distinct_keys(all.take(i as int)),
                is_table(s@),
                s.map() == table_map(all.take(i as int)),
            decreases rows.len() - i,
        {
            let row = &rows[i];
            let ghost done = all.take(i as int);
            if s.get(row.attr.as_str()).is_some() {
                proof {
                    let k = key_index(done, row@.attr);
                    assert(key_at(done, row@.attr, k));
                    assert(all[k].attr == all[i as int].attr);
                }
                return Err(StoreError::IOFailure);
            }
            proof {
                lemma_push_row(done, row@);
                assert(all.take(i + 1) =~= done.push(row@));
            }
            s.put(row.duplicate());
            i += 1;
        }
        assert(all.take(rows.len() as int) =~= all);
        Ok(s)
    }
}

} // verus!
