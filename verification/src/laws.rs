//! What holds of the table and of ranked lookup, whatever the contents.

use vstd::prelude::*;
use crate::db::{advance, initial, Phase, Progress, Reply, Step};
use crate::index::{last_write, lemma_merged_empty, lemma_merged_push, merged, written};
use crate::query::{in_tier, is_latest, query_spec, ranked, tier};
use crate::record::Record;
use crate::table::{distinct_keys, has_key, is_table, key_at, key_index, table_map, lemma_table_canonical};
use crate::text::{contains, lex_lt, occurs_at, opt_lt, starts_with};

verus! {

/// `x` ranks before `y` for a term: it stands in a better tier, or in the
/// same tier with the smaller key.
pub open spec fn ranks_before(x: Record, y: Record, term: Seq<char>) -> bool {
    ||| tier(x.name, term) < tier(y.name, term)
    ||| (tier(x.name, term) == tier(y.name, term) && lex_lt(x.attr, y.attr))
}

/// A position of `s` that holds element `i` of `s.filter(keep)`.
proof fn filter_origin<A>(s: Seq<A>, keep: spec_fn(A) -> bool, i: int) -> (a: int)
    requires
        0 <= i < s.filter(keep).len(),
    ensures
        0 <= a < s.len(),
        s[a] == s.filter(keep)[i],
        keep(s[a]),
    decreases s.len(),
{
    reveal(Seq::filter);
    let rest = s.drop_last();
    if keep(s.last()) && i == rest.filter(keep).len() {
        s.len() - 1
    } else {
        filter_origin(rest, keep, i)
    }
}

/// Positions of `s`, in order, that hold elements `i < j` of `s.filter(keep)`.
proof fn filter_origins<A>(s: Seq<A>, keep: spec_fn(A) -> bool, i: int, j: int) -> (ab: (int, int))
    requires
        0 <= i < j < s.filter(keep).len(),
    ensures
        0 <= ab.0 < ab.1 < s.len(),
        s[ab.0] == s.filter(keep)[i],
        s[ab.1] == s.filter(keep)[j],
    decreases s.len(),
{
    reveal(Seq::filter);
    let rest = s.drop_last();
    if keep(s.last()) && j == rest.filter(keep).len() {
        let a = filter_origin(rest, keep, i);
        (a, s.len() - 1)
    } else {
        filter_origins(rest, keep, i, j)
    }
}

/// The tier in which position `i` of a ranking lies.
proof fn ranked_tier(rows: Seq<Record>, term: Seq<char>, i: int) -> (t: int)
    requires
        0 <= i < ranked(rows, term).len(),
    ensures
        0 <= t <= 2,
        tier(ranked(rows, term)[i].name, term) == t,
        is_latest(rows, ranked(rows, term)[i]),
        rows.contains(ranked(rows, term)[i]),
        ({
            let before: int = if t == 0 {
                0
            } else if t == 1 {
                rows.filter(in_tier(rows, term, 0)).len() as int
            } else {
                (rows.filter(in_tier(rows, term, 0)).len() + rows.filter(in_tier(rows, term, 1)).len()) as int
            };
            &&& 0 <= i - before < rows.filter(in_tier(rows, term, t)).len()
            &&& ranked(rows, term)[i] == rows.filter(in_tier(rows, term, t))[i - before]
        }),
{
    let f0 = rows.filter(in_tier(rows, term, 0));
    let f1 = rows.filter(in_tier(rows, term, 1));
    let f2 = rows.filter(in_tier(rows, term, 2));
    if i < f0.len() {
        let a = filter_origin(rows, in_tier(rows, term, 0), i);
        0
    } else if i < f0.len() + f1.len() {
        let a = filter_origin(rows, in_tier(rows, term, 1), i - f0.len());
        1
    } else {
        let a = filter_origin(rows, in_tier(rows, term, 2), i - f0.len() - f1.len());
        2
    }
}

/// A ranking lists exactly the records of the table whose name matches the
/// term and that are the latest of their name.
pub proof fn lemma_ranked_members(rows: Seq<Record>, term: Seq<char>, r: Record)
    ensures
        ranked(rows, term).contains(r) <==> (rows.contains(r) && tier(r.name, term) < 3 && is_latest(rows, r)),
{
    let all = ranked(rows, term);
    if all.contains(r) {
        let i = choose|i: int| 0 <= i < all.len() && all[i] == r;
        let t = ranked_tier(rows, term, i);
    }
    if rows.contains(r) && tier(r.name, term) < 3 && is_latest(rows, r) {
        let k = choose|k: int| 0 <= k < rows.len() && rows[k] == r;
        let t = tier(r.name, term);
        let f0 = rows.filter(in_tier(rows, term, 0));
        let f1 = rows.filter(in_tier(rows, term, 1));
        let f2 = rows.filter(in_tier(rows, term, 2));
        let keep = in_tier(rows, term, t);
        assert(keep(rows[k]));
        rows.lemma_filter_contains(keep, k);
        let f = rows.filter(keep);
        let j = choose|j: int| 0 <= j < f.len() && f[j] == r;
        if t == 0 {
            assert(all[j] == r);
        } else if t == 1 {
            assert(all[f0.len() + j] == r);
        } else {
            assert(all[f0.len() + f1.len() + j] == r);
        }
    }
}

/// A ranking is in order: of two of its records the earlier one stands in a
/// better tier, or in the same tier with the smaller attribute path. No
/// record is listed twice.
pub proof fn lemma_ranked_sorted(rows: Seq<Record>, term: Seq<char>, i: int, j: int)
    requires
        is_table(rows),
        0 <= i < j < ranked(rows, term).len(),
    ensures
        ranks_before(ranked(rows, term)[i], ranked(rows, term)[j], term),
        ranked(rows, term)[i].attr != ranked(rows, term)[j].attr,
{
    let ti = ranked_tier(rows, term, i);
    let tj = ranked_tier(rows, term, j);
    let f0 = rows.filter(in_tier(rows, term, 0));
    let f1 = rows.filter(in_tier(rows, term, 1));
    if ti == tj {
        let before: int = if ti == 0 {
            0
        } else if ti == 1 {
            f0.len() as int
        } else {
            (f0.len() + f1.len()) as int
        };
        let ab = filter_origins(rows, in_tier(rows, term, ti), i - before, j - before);
        assert(lex_lt(rows[ab.0].attr, rows[ab.1].attr));
    }
    crate::text::lemma_lex_asymmetric(ranked(rows, term)[i].attr, ranked(rows, term)[j].attr);
}

/// The answer to a query is the beginning of the ranking: as many records
/// as the limit allows, or all of them.
pub proof fn lemma_query_is_prefix(rows: Seq<Record>, term: Seq<char>, limit: nat)
    ensures
        query_spec(rows, term, limit).len() == if limit < ranked(rows, term).len() {
            limit
        } else {
            ranked(rows, term).len()
        },
        forall|i: int|
            0 <= i < query_spec(rows, term, limit).len() ==> #[trigger] query_spec(rows, term, limit)[i] == ranked(
                rows,
                term,
            )[i],
{
}

/// A term that no name of the table contains gives an empty answer.
pub proof fn lemma_no_match_is_empty(rows: Seq<Record>, term: Seq<char>, limit: nat)
    requires
        forall|i: int| 0 <= i < rows.len() ==> !contains(#[trigger] rows[i].name, term),
    ensures
        query_spec(rows, term, limit) == Seq::<Record>::empty(),
{
    let all = ranked(rows, term);
    if all.len() > 0 {
        let t = ranked_tier(rows, term, 0);
        let r = all[0];
        let k = choose|k: int| 0 <= k < rows.len() && rows[k] == r;
        assert(!contains(rows[k].name, term));
        if r.name == term {
            assert(r.name.subrange(0, term.len() as int) =~= term);
        }
        if starts_with(r.name, term) {
            assert(occurs_at(r.name, term, 0));
        }
    }
    assert(query_spec(rows, term, limit) =~= Seq::<Record>::empty());
}

/// A record is never listed while another record of the same name carries
/// a greater version. In particular a record without a version is never
/// listed while a record of its name has one.
pub proof fn lemma_superseded_is_absent(rows: Seq<Record>, term: Seq<char>, limit: nat, old: int, new: int)
    requires
        0 <= old < rows.len(),
        0 <= new < rows.len(),
        rows[old].name == rows[new].name,
        opt_lt(rows[old].version, rows[new].version),
    ensures
        !query_spec(rows, term, limit).contains(rows[old]),
{
    let found = query_spec(rows, term, limit);
    if found.contains(rows[old]) {
        let i = choose|i: int| 0 <= i < found.len() && found[i] == rows[old];
        lemma_query_is_prefix(rows, term, limit);
        assert(ranked(rows, term)[i] == rows[old]);
        lemma_ranked_members(rows, term, rows[old]);
        assert(!is_latest(rows, rows[old]));
    }
}

/// Within a name family, absent sorts below every present version.
pub proof fn lemma_absent_version_is_least(present: Seq<char>)
    ensures
        opt_lt(None, Some(present)),
        !opt_lt(Some(present), None),
        !opt_lt(None::<Seq<char>>, None),
{
}

/// Writing the same batch twice is writing it once.
pub proof fn lemma_merged_idempotent(table: Map<Seq<char>, Record>, batch: Seq<Record>)
    ensures
        merged(merged(table, batch), batch) == merged(table, batch),
{
    assert(merged(merged(table, batch), batch) =~= merged(table, batch));
}

/// Upserting the same record twice is upserting it once.
pub proof fn lemma_upsert_idempotent(table: Map<Seq<char>, Record>, rec: Record)
    ensures
        table.insert(rec.attr, rec).insert(rec.attr, rec) == table.insert(rec.attr, rec),
{
    assert(table.insert(rec.attr, rec).insert(rec.attr, rec) =~= table.insert(rec.attr, rec));
}

/// Reindexing twice from one snapshot gives the table, and so the answer
/// to every query, that reindexing once gives.
pub proof fn lemma_reindex_idempotent(
    before: Seq<Record>,
    once: Seq<Record>,
    twice: Seq<Record>,
    batch: Seq<Record>,
    term: Seq<char>,
    limit: nat,
)
    requires
        is_table(once),
        is_table(twice),
        table_map(once) == merged(table_map(before), batch),
        table_map(twice) == merged(table_map(once), batch),
    ensures
        twice == once,
        query_spec(twice, term, limit) == query_spec(once, term, limit),
{
    lemma_merged_idempotent(table_map(before), batch);
    lemma_table_canonical(once, twice);
}

/// After a batch of upserts the table holds every key of the batch, bound
/// to the last record that the batch has for it, and every other key as
/// before; keys that the batch does not name are never removed.
pub proof fn lemma_merged_lookup(table: Map<Seq<char>, Record>, batch: Seq<Record>, attr: Seq<char>)
    ensures
        merged(table, batch).contains_key(attr) <==> table.contains_key(attr) || has_key(batch, attr),
        has_key(batch, attr) ==> merged(table, batch)[attr] == written(batch, attr),
        !has_key(batch, attr) && table.contains_key(attr) ==> merged(table, batch)[attr] == table[attr],
{
}

/// A snapshot in which no attribute path occurs twice may be written in any
/// order: the table that results depends only on which entries it holds.
pub proof fn lemma_merged_order_free(table: Map<Seq<char>, Record>, a: Seq<Record>, b: Seq<Record>)
    requires
        distinct_keys(a),
        distinct_keys(b),
        forall|r: Record| a.contains(r) <==> b.contains(r),
    ensures
        merged(table, a) == merged(table, b),
{
    assert forall|attr: Seq<char>| has_key(a, attr) implies has_key(b, attr) && written(a, attr) == written(
        b,
        attr,
    ) by {
        lemma_sole_write(a, attr);
        let i = key_index(a, attr);
        assert(a.contains(a[i]));
        let j = choose|j: int| 0 <= j < b.len() && b[j] == a[i];
        assert(key_at(b, attr, j));
        lemma_sole_write(b, attr);
    }
    assert forall|attr: Seq<char>| has_key(b, attr) implies has_key(a, attr) by {
        let j = key_index(b, attr);
        assert(key_at(b, attr, j));
        assert(b.contains(b[j]));
        let i = choose|i: int| 0 <= i < a.len() && a[i] == b[j];
        assert(key_at(a, attr, i));
    }
    assert(merged(table, a) =~= merged(table, b));
}

/// Where no key occurs twice, the record written for a key is the one
/// record that has it.
proof fn lemma_sole_write(batch: Seq<Record>, attr: Seq<char>)
    requires
        distinct_keys(batch),
        has_key(batch, attr),
    ensures
        key_at(batch, attr, key_index(batch, attr)),
        forall|i: int| key_at(batch, attr, i) ==> written(batch, attr) == batch[i],
{
    let k = key_index(batch, attr);
    assert(key_at(batch, attr, k));
    assert(last_write(batch, attr, k)) by {
        assert forall|j: int| k < j < batch.len() implies (#[trigger] batch[j]).attr != attr by {
            assert(batch[k].attr != batch[j].attr);
        }
    }
    let w = choose|i: int| last_write(batch, attr, i);
    assert forall|i: int| key_at(batch, attr, i) implies written(batch, attr) == batch[i] by {
        if i < w {
            assert(batch[i].attr != batch[w].attr);
        } else if w < i {
            assert(batch[w].attr != batch[i].attr);
        }
    }
}

/// The durable table as a reindex meets it: what is committed, and the
/// working copy of the transaction where one is open.
pub ghost struct Medium {
    pub durable: Map<Seq<char>, Record>,
    pub pending: Option<Map<Seq<char>, Record>>,
}

/// What an action does to the durable table, when it goes through and when
/// it fails. A failed action changes nothing. A write inside a transaction
/// goes to the working copy, a write outside one goes straight to the
/// committed table; a commit makes the working copy the committed table; a
/// rollback drops the working copy.
pub open spec fn perform(m: Medium, asked: Step, ok: bool) -> Medium {
    if !ok {
        m
    } else {
        match asked {
            Step::Begin => Medium { durable: m.durable, pending: Some(m.durable) },
            Step::Write(r) => match m.pending {
                Some(work) => Medium { durable: m.durable, pending: Some(work.insert(r.attr, r)) },
                None => Medium { durable: m.durable.insert(r.attr, r), pending: None },
            },
            Step::Commit => match m.pending {
                Some(work) => Medium { durable: work, pending: None },
                None => m,
            },
            Step::Rollback => Medium { durable: m.durable, pending: None },
            Step::Fetch => m,
            Step::Finish(_) => m,
        }
    }
}

/// The event reports truthfully what came of the action: a failure is
/// reported as one, a fetch that went through brings a snapshot, any other
/// action that went through is reported done. Finishing cannot fail.
pub open spec fn reply_fits(asked: Step, ok: bool, e: Reply) -> bool {
    match asked {
        Step::Finish(_) => ok,
        Step::Fetch => if ok {
            e is Snapshot
        } else {
            e is Failed
        },
        _ => if ok {
            e is Done
        } else {
            e is Failed
        },
    }
}

/// A reindex together with the durable table it works on.
pub ghost struct Course {
    /// Where the reindex stands.
    pub state: Progress,
    /// The action it has asked for and that has not been performed yet.
    pub asked: Step,
    /// The durable table.
    pub medium: Medium,
}

/// Runs a reindex against a durable table that holds `table` and has no
/// transaction open. Each element of `trace` says whether the action asked
/// for went through, and which event was reported for it.
pub open spec fn play(table: Map<Seq<char>, Record>, trace: Seq<(bool, Reply)>) -> Course
    decreases trace.len(),
{
    if trace.len() == 0 {
        Course { state: initial(), asked: Step::Begin, medium: Medium { durable: table, pending: None } }
    } else {
        let before = play(table, trace.drop_last());
        let next = advance(before.state, trace.last().1);
        Course { state: next.0, asked: next.1, medium: perform(before.medium, before.asked, trace.last().0) }
    }
}

/// Every event of the trace reports truthfully on the action that the
/// reindex had asked for at that point.
pub open spec fn faithful(table: Map<Seq<char>, Record>, trace: Seq<(bool, Reply)>) -> bool {
    forall|i: int|
        0 <= i < trace.len() ==> reply_fits(#[trigger] play(table, trace.take(i)).asked, trace[i].0, trace[i].1)
}

/// Some action of the trace failed.
pub open spec fn any_failure(trace: Seq<(bool, Reply)>) -> bool {
    exists|i: int| 0 <= i < trace.len() && !(#[trigger] trace[i]).0
}

/// What holds of a reindex and its durable table at every point.
pub open spec fn on_course(table: Map<Seq<char>, Record>, c: Course, failed: bool) -> bool {
    let batch = c.state.batch;
    let next = c.state.next as int;
    match c.state.phase {
        Phase::Opening => {
            &&& !failed
            &&& c.asked == Step::Begin
            &&& c.medium == Medium { durable: table, pending: None }
        },
        Phase::Fetching => {
            &&& !failed
            &&& c.asked == Step::Fetch
            &&& c.medium == Medium { durable: table, pending: Some(table) }
        },
        Phase::Writing => {
            &&& !failed
            &&& 1 <= next <= batch.len()
            &&& c.asked == Step::Write(batch[next - 1])
            &&& c.medium == Medium { durable: table, pending: Some(merged(table, batch.take(next - 1))) }
        },
        Phase::Committing => {
            &&& !failed
            &&& c.asked == Step::Commit
            &&& c.medium == Medium { durable: table, pending: Some(merged(table, batch)) }
        },
        Phase::Aborting(e) => {
            &&& c.asked == Step::Rollback
            &&& c.medium.durable == table
        },
        Phase::Succeeded => {
            &&& !failed
            &&& c.asked == Step::Finish(Ok(batch.len()))
            &&& c.medium == Medium { durable: merged(table, batch), pending: None }
        },
        Phase::Failed(e) => {
            &&& c.asked == Step::Finish(Err(e))
            &&& c.medium.durable == table
        },
    }
}

/// A reindex that is reported to truthfully stays on course.
proof fn lemma_stays_on_course(table: Map<Seq<char>, Record>, trace: Seq<(bool, Reply)>)
    requires
        faithful(table, trace),
    ensures
        on_course(table, play(table, trace), any_failure(trace)),
    decreases trace.len(),
{
    if trace.len() > 0 {
        let head = trace.drop_last();
        let last = trace.len() - 1;
        assert forall|i: int| 0 <= i < head.len() implies reply_fits(
            #[trigger] play(table, head.take(i)).asked,
            head[i].0,
            head[i].1,
        ) by {
            assert(head.take(i) =~= trace.take(i));
            assert(head[i] == trace[i]);
        }
        lemma_stays_on_course(table, head);
        let before = play(table, head);
        assert(head =~= trace.take(last));
        assert(reply_fits(before.asked, trace[last].0, trace[last].1));
        let ok = trace[last].0;
        let e = trace[last].1;
        if any_failure(head) {
            let i = choose|i: int| 0 <= i < head.len() && !(#[trigger] head[i]).0;
            assert(!trace[i].0);
        }
        if !ok {
            assert(!trace[last].0);
        }
        if any_failure(trace) {
            let i = choose|i: int| 0 <= i < trace.len() && !(#[trigger] trace[i]).0;
            if i < last {
                assert(!head[i].0);
            }
        }
        assert(any_failure(trace) == (any_failure(head) || !ok));
        let batch = before.state.batch;
        let next = before.state.next as int;
        match before.state.phase {
            Phase::Fetching => {
                if let Reply::Snapshot(fresh) = e {
                    lemma_merged_empty(table);
                    assert(fresh.take(0) =~= Seq::<Record>::empty());
                    if fresh.len() == 0 {
                        assert(merged(table, fresh) == table);
                    }
                }
            },
            Phase::Writing => {
                if ok {
                    lemma_merged_push(table, batch.take(next - 1), batch[next - 1]);
                    assert(batch.take(next) =~= batch.take(next - 1).push(batch[next - 1]));
                    if next == batch.len() {
                        assert(batch.take(next) =~= batch);
                    }
                }
            },
            _ => {},
        }
    }
}

/// A reindex is atomic. However far it has come, and whatever was reported
/// to it, the committed table is the one it started from, unless the
/// reindex has finished with success: then it is that table with the whole
/// snapshot written over it, and the count is the number of entries. A
/// failure of any action, at any point, leaves the committed table exactly
/// as it was before the reindex began, and the reindex never reports
/// success after it.
pub proof fn lemma_reindex_atomic(table: Map<Seq<char>, Record>, trace: Seq<(bool, Reply)>)
    requires
        faithful(table, trace),
    ensures
        match play(table, trace).asked {
            Step::Finish(Ok(n)) => {
                &&& !any_failure(trace)
                &&& n == play(table, trace).state.batch.len()
                &&& play(table, trace).medium.durable == merged(table, play(table, trace).state.batch)
                &&& play(table, trace).medium.pending is None
            },
            _ => play(table, trace).medium.durable == table,
        },
        any_failure(trace) ==> play(table, trace).medium.durable == table,
{
    lemma_stays_on_course(table, trace);
}

/// Once a reindex has asked for the rollback or has finished, every later
/// action is to finish, with the same outcome.
pub proof fn lemma_finish_is_final(s: Progress, e: Reply)
    ensures
        s.phase is Succeeded ==> advance(s, e) == (s, Step::Finish(Ok(s.batch.len()))),
        s.phase matches Phase::Failed(err) ==> advance(s, e) == (s, Step::Finish(Err(err))),
        s.phase matches Phase::Aborting(err) ==> advance(s, e).1 == Step::Finish(Err::<nat, crate::error::IndexError>(err)),
{
}

} // verus!
