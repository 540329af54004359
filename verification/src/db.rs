//! The durable table: where it lives on disk, and the protocol by which a
//! reindex is written to it.
//!
//! The library performs no input or output. A reindex is run by a caller
//! that holds the durable table: it performs the action that `update_db`
//! hands out, reports what came of it, and is told the next action. The
//! writes happen inside one transaction, which is committed only when every
//! step went through and rolled back at the first failure.

use vstd::prelude::*;
use crate::error::IndexError;
use crate::index::{entries, row_of, PkgMeta};
use crate::record::{PackageInfo, Record};
use crate::text::opt_view;

verus! {

/// The character sequences of a list of strings, in the same order.
pub open spec fn parts_view(parts: Seq<String>) -> Seq<Seq<char>> {
    parts.map_values(|s: String| s@)
}

/// The components of the table's path: below the data directory where one
/// is set, else below `.local/share` in the home directory; `None` where
/// neither is known.
pub open spec fn db_path_spec(data_home: Option<Seq<char>>, home: Option<Seq<char>>) -> Option<Seq<Seq<char>>> {
    match (data_home, home) {
        (Some(base), _) => Some(seq![base, "neix"@, "neix.db"@]),
        (None, Some(base)) => Some(seq![base, ".local"@, "share"@, "neix"@, "neix.db"@]),
        (None, None) => None,
    }
}

/// Computes the components of the table's path from the data-directory
/// override and the home directory, each as read from the environment. The
/// caller joins the components with the platform's separator.
pub fn db_path(data_home: Option<String>, home: Option<String>) -> (path: Option<Vec<String>>)
    ensures
        path is Some <==> data_home is Some || home is Some,
        match path {
            Some(parts) => Some(parts_view(parts@)) == db_path_spec(opt_view(data_home), opt_view(home)),
            None => db_path_spec(opt_view(data_home), opt_view(home)) is None,
        },
{
    match data_home {
        Some(base) => {
            let mut parts: Vec<String> = Vec::new();
            parts.push(base);
            parts.push("neix".to_owned());
            parts.push("neix.db".to_owned());
            assert(parts_view(parts@) =~= seq![base@, "neix"@, "neix.db"@]);
            Some(parts)
        },
        None => match home {
            Some(base) => {
                let mut parts: Vec<String> = Vec::new();
                parts.push(base);
                parts.push(".local".to_owned());
                parts.push("share".to_owned());
                parts.push("neix".to_owned());
                parts.push("neix.db".to_owned());
                assert(parts_view(parts@) =~= seq![base@, ".local"@, "share"@, "neix"@, "neix.db"@]);
                Some(parts)
            },
            None => None,
        },
    }
}

/// What the caller has to do next.
#[derive(Debug, PartialEq, Eq)]
pub enum Action {
    /// Open the exclusive write transaction.
    Begin,
    /// Obtain the snapshot.
    Fetch,
    /// Upsert this record inside the transaction.
    Write(PackageInfo),
    /// Commit the transaction.
    Commit,
    /// Roll the transaction back.
    Rollback,
    /// Stop: the reindex wrote this many records, or failed.
    Finish(Result<usize, IndexError>),
}

/// What came of the action that was asked for.
#[derive(Debug)]
pub enum Event {
    /// The action went through.
    Done,
    /// The snapshot that was asked for.
    Snapshot(Vec<(String, PkgMeta)>),
    /// The action failed.
    Failed,
}

/// Where a reindex stands: which action it has asked for last.
#[derive(Clone, Copy, Debug, PartialEq, Eq)]
pub enum Phase {
    /// Asked to open the transaction.
    Opening,
    /// Asked for the snapshot.
    Fetching,
    /// Asked to write an entry.
    Writing,
    /// Asked to commit.
    Committing,
    /// Asked to roll back, after this failure.
    Aborting(IndexError),
    /// Finished with every entry written and committed.
    Succeeded,
    /// Finished with this failure and nothing committed.
    Failed(IndexError),
}

/// A reindex under way.
pub struct Update {
    phase: Phase,
    batch: Vec<(String, PkgMeta)>,
    next: usize,
}

/// The model of an action.
pub ghost enum Step {
    Begin,
    Fetch,
    Write(Record),
    Commit,
    Rollback,
    Finish(Result<nat, IndexError>),
}

/// The model of an event.
pub ghost enum Reply {
    Done,
    Snapshot(Seq<Record>),
    Failed,
}

/// The model of a reindex under way: its phase, the records of the
/// snapshot, and how many of them it has asked to write.
pub ghost struct Progress {
    pub phase: Phase,
    pub batch: Seq<Record>,
    pub next: nat,
}

impl View for Action {
    type V = Step;

    open spec fn view(&self) -> Step {
        match *self {
            Action::Begin => Step::Begin,
            Action::Fetch => Step::Fetch,
            Action::Write(row) => Step::Write(row@),
            Action::Commit => Step::Commit,
            Action::Rollback => Step::Rollback,
            Action::Finish(Ok(n)) => Step::Finish(Ok(n as nat)),
            Action::Finish(Err(e)) => Step::Finish(Err(e)),
        }
    }
}

impl View for Event {
    type V = Reply;

    open spec fn view(&self) -> Reply {
        match *self {
            Event::Done => Reply::Done,
            Event::Snapshot(packages) => Reply::Snapshot(entries(packages@)),
            Event::Failed => Reply::Failed,
        }
    }
}

impl View for Update {
    type V = Progress;

    closed spec fn view(&self) -> Progress {
        Progress { phase: self.phase, batch: entries(self.batch@), next: self.next as nat }
    }
}

/// The state in which a reindex starts: it has asked to open the
/// transaction and holds no snapshot yet.
pub open spec fn initial() -> Progress {
    Progress { phase: Phase::Opening, batch: Seq::empty(), next: 0 }
}

/// Asks for the next entry to be written, or for the commit when every
/// entry has been.
pub open spec fn write_or_commit(s: Progress) -> (Progress, Step) {
    if s.next < s.batch.len() {
        (Progress { phase: Phase::Writing, batch: s.batch, next: s.next + 1 }, Step::Write(s.batch[s.next as int]))
    } else {
        (Progress { phase: Phase::Committing, batch: s.batch, next: s.next }, Step::Commit)
    }
}

/// Gives the transaction up after a failure: it is rolled back first.
pub open spec fn abort(s: Progress, e: IndexError) -> (Progress, Step) {
    (Progress { phase: Phase::Aborting(e), batch: s.batch, next: s.next }, Step::Rollback)
}

/// The decision that a reindex takes on an event: the state it goes to and
/// the action it asks for. The steps go in order (open the transaction,
/// fetch the snapshot, write each entry in turn, commit) as long as each
/// one is reported done. The first failure, or an event that does not
/// answer the action asked for, ends them: inside the transaction a
/// rollback is asked for, and the reindex then finishes with the failure.
/// A snapshot that cannot be had is a `SnapshotFailure`, every other
/// failure a `StoreIOFailure`. A finished reindex stays finished.
pub open spec fn advance(s: Progress, e: Reply) -> (Progress, Step) {
    match s.phase {
        Phase::Opening => match e {
            Reply::Done => (Progress { phase: Phase::Fetching, batch: s.batch, next: s.next }, Step::Fetch),
            _ => (
                Progress { phase: Phase::Failed(IndexError::StoreIOFailure), batch: s.batch, next: s.next },
                Step::Finish(Err(IndexError::StoreIOFailure)),
            ),
        },
        Phase::Fetching => match e {
            Reply::Snapshot(batch) => write_or_commit(Progress { phase: s.phase, batch: batch, next: 0 }),
            _ => abort(s, IndexError::SnapshotFailure),
        },
        Phase::Writing => match e {
            Reply::Done => write_or_commit(s),
            _ => abort(s, IndexError::StoreIOFailure),
        },
        Phase::Committing => match e {
            Reply::Done => (
                Progress { phase: Phase::Succeeded, batch: s.batch, next: s.next },
                Step::Finish(Ok(s.batch.len())),
            ),
            _ => abort(s, IndexError::StoreIOFailure),
        },
        Phase::Aborting(err) => (
            Progress { phase: Phase::Failed(err), batch: s.batch, next: s.next },
            Step::Finish(Err(err)),
        ),
        Phase::Succeeded => (s, Step::Finish(Ok(s.batch.len()))),
        Phase::Failed(err) => (s, Step::Finish(Err(err))),
    }
}

impl Update {
    /// Starts a reindex. The first action to perform is `Action::Begin`.
    pub fn start() -> (run: (Update, Action))
        ensures
            run.0@ == initial(),
            run.1@ == Step::Begin,
    {
        let update = Update { phase: Phase::Opening, batch: Vec::new(), next: 0 };
        assert(entries(update.batch@) =~= Seq::<Record>::empty());
        (update, Action::Begin)
    }

    /// The phase that the reindex is in.
    pub fn phase(&self) -> (p: Phase)
        ensures
            p == self@.phase,
    {
        self.phase
    }

    /// Asks for the next entry to be written, or for the commit.
    fn proceed(&mut self) -> (action: Action)
        ensures
            (final(self)@, action@) == write_or_commit(old(self)@),
    {
        if self.next < self.batch.len() {
            let row = row_of(&self.batch[self.next]);
            self.phase = Phase::Writing;
            self.next = self.next + 1;
            Action::Write(row)
        } else {
            self.phase = Phase::Committing;
            Action::Commit
        }
    }

    /// Asks for the rollback after a failure.
    fn give_up(&mut self, e: IndexError) -> (action: Action)
        ensures
            (final(self)@, action@) == abort(old(self)@, e),
    {
        self.phase = Phase::Aborting(e);
        Action::Rollback
    }
}

/// Takes the next decision of a reindex: given what came of the action
/// asked for last, moves the reindex on and returns the action to perform
/// now. The reindex is over when the action is `Action::Finish`.
pub fn update_db(run: &mut Update, event: Event) -> (action: Action)
    ensures
        (final(run)@, action@) == advance(old(run)@, event@),
{
    match run.phase {
        Phase::Opening => match event {
            Event::Done => {
                run.phase = Phase::Fetching;
                Action::Fetch
            },
            _ => {
                run.phase = Phase::Failed(IndexError::StoreIOFailure);
                Action::Finish(Err(IndexError::StoreIOFailure))
            },
        },
        Phase::Fetching => match event {
            Event::Snapshot(packages) => {
                run.batch = packages;
                run.next = 0;
                run.proceed()
            },
            _ => run.give_up(IndexError::SnapshotFailure),
        },
        Phase::Writing => match event {
            Event::Done => run.proceed(),
            _ => run.give_up(IndexError::StoreIOFailure),
        },
        Phase::Committing => match event {
            Event::Done => {
                run.phase = Phase::Succeeded;
                Action::Finish(Ok(run.batch.len()))
            },
            _ => run.give_up(IndexError::StoreIOFailure),
        },
        Phase::Aborting(err) => {
            run.phase = Phase::Failed(err);
            Action::Finish(Err(err))
        },
        Phase::Succeeded => Action::Finish(Ok(run.batch.len())),
        Phase::Failed(err) => Action::Finish(Err(err)),
    }
}

} // verus!
