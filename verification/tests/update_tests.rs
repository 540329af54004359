use neix::db::{update_db, Action, Event, Phase, Update};
use neix::error::IndexError;
use neix::index::{update_index, PkgMeta};
use neix::query::query;
use neix::record::PackageInfo;
use neix::store::Store;

fn text(t: &str) -> String {
    t.to_string()
}

fn row(attr: &str, name: &str, version: Option<&str>, description: Option<&str>) -> PackageInfo {
    PackageInfo::new(text(attr), text(name), version.map(text), description.map(text))
}

fn meta(attr: &str, name: &str, version: Option<&str>, description: Option<&str>) -> (String, PkgMeta) {
    (text(attr), PkgMeta { pname: text(name), version: version.map(text), description: description.map(text) })
}

fn three() -> Vec<(String, PkgMeta)> {
    vec![
        meta("nixpkgs.ripgrep", "ripgrep", Some("14.1.0"), Some("fast grep")),
        meta("nixpkgs.fd", "fd", Some("9.0.0"), None),
        meta("nixpkgs.hello", "hello", None, None),
    ]
}

fn copy_of(store: &Store) -> Store {
    Store::from_rows(&store.rows()).unwrap()
}

/// A durable table held in memory: the committed rows and the working copy
/// of an open transaction. Step number `fail_at` of the run fails.
struct Disk {
    committed: Store,
    working: Option<Store>,
    source: Option<Vec<(String, PkgMeta)>>,
    fail_at: Option<usize>,
    performed: Vec<String>,
}

fn perform(disk: &mut Disk, action: Action) -> Event {
    let step = disk.performed.len();
    let failing = disk.fail_at == Some(step);
    match action {
        Action::Begin => {
            disk.performed.push(text("begin"));
            if failing {
                return Event::Failed;
            }
            disk.working = Some(copy_of(&disk.committed));
            Event::Done
        }
        Action::Fetch => {
            disk.performed.push(text("fetch"));
            if failing {
                return Event::Failed;
            }
            match disk.source.take() {
                Some(packages) => Event::Snapshot(packages),
                None => Event::Failed,
            }
        }
        Action::Write(record) => {
            disk.performed.push(format!("write {}", record.attr));
            if failing {
                return Event::Failed;
            }
            match disk.working.as_mut() {
                Some(work) => work.put(record),
                None => disk.committed.put(record),
            }
            Event::Done
        }
        Action::Commit => {
            disk.performed.push(text("commit"));
            if failing {
                return Event::Failed;
            }
            if let Some(work) = disk.working.take() {
                disk.committed = work;
            }
            Event::Done
        }
        Action::Rollback => {
            disk.performed.push(text("rollback"));
            disk.working = None;
            if failing {
                return Event::Failed;
            }
            Event::Done
        }
        Action::Finish(_) => unreachable!(),
    }
}

fn reindex(disk: &mut Disk) -> Result<usize, IndexError> {
    let (mut run, mut action) = Update::start();
    loop {
        if let Action::Finish(outcome) = action {
            return outcome;
        }
        let event = perform(disk, action);
        action = update_db(&mut run, event);
    }
}

fn disk_with(rows: Vec<PackageInfo>, source: Option<Vec<(String, PkgMeta)>>, fail_at: Option<usize>) -> Disk {
    Disk { committed: Store::from_rows(&rows).unwrap(), working: None, source, fail_at, performed: Vec::new() }
}

fn old_rows() -> Vec<PackageInfo> {
    vec![row("nixpkgs.fd", "fd", Some("8.0.0"), Some("older")), row("stale.pkg", "stale", None, None)]
}

#[test]
fn a_reindex_starts_by_opening_the_transaction() {
    let (run, first) = Update::start();
    assert_eq!(first, Action::Begin);
    assert_eq!(run.phase(), Phase::Opening);
}

#[test]
fn steps_go_in_order() {
    let mut disk = disk_with(old_rows(), Some(three()), None);
    assert_eq!(reindex(&mut disk), Ok(3));
    assert_eq!(
        disk.performed,
        vec!["begin", "fetch", "write nixpkgs.ripgrep", "write nixpkgs.fd", "write nixpkgs.hello", "commit"]
    );
    let mut expected = Store::from_rows(&old_rows()).unwrap();
    assert_eq!(update_index(&mut expected, &three()), 3);
    assert_eq!(disk.committed.rows(), expected.rows());
    assert!(disk.working.is_none());
}

#[test]
fn write_actions_carry_the_entries() {
    let (mut run, _) = Update::start();
    assert_eq!(update_db(&mut run, Event::Done), Action::Fetch);
    assert_eq!(run.phase(), Phase::Fetching);
    let first = update_db(&mut run, Event::Snapshot(three()));
    assert_eq!(first, Action::Write(row("nixpkgs.ripgrep", "ripgrep", Some("14.1.0"), Some("fast grep"))));
    assert_eq!(run.phase(), Phase::Writing);
    assert_eq!(update_db(&mut run, Event::Done), Action::Write(row("nixpkgs.fd", "fd", Some("9.0.0"), None)));
    assert_eq!(update_db(&mut run, Event::Done), Action::Write(row("nixpkgs.hello", "hello", None, None)));
    assert_eq!(update_db(&mut run, Event::Done), Action::Commit);
    assert_eq!(run.phase(), Phase::Committing);
    assert_eq!(update_db(&mut run, Event::Done), Action::Finish(Ok(3)));
    assert_eq!(run.phase(), Phase::Succeeded);
}

#[test]
fn an_empty_snapshot_is_committed_at_once() {
    let mut disk = disk_with(old_rows(), Some(Vec::new()), None);
    assert_eq!(reindex(&mut disk), Ok(0));
    assert_eq!(disk.performed, vec!["begin", "fetch", "commit"]);
    assert_eq!(disk.committed.rows(), old_rows());
}

#[test]
fn a_transaction_that_cannot_be_opened_ends_the_reindex() {
    let (mut run, _) = Update::start();
    assert_eq!(update_db(&mut run, Event::Failed), Action::Finish(Err(IndexError::StoreIOFailure)));
    assert_eq!(run.phase(), Phase::Failed(IndexError::StoreIOFailure));
}

#[test]
fn a_failed_fetch_is_a_snapshot_failure() {
    let mut disk = disk_with(old_rows(), None, None);
    assert_eq!(reindex(&mut disk), Err(IndexError::SnapshotFailure));
    assert_eq!(disk.performed, vec!["begin", "fetch", "rollback"]);
    assert_eq!(disk.committed.rows(), old_rows());
}

#[test]
fn a_failed_write_rolls_the_batch_back() {
    let mut disk = disk_with(old_rows(), Some(three()), Some(3));
    assert_eq!(reindex(&mut disk), Err(IndexError::StoreIOFailure));
    assert_eq!(disk.performed, vec!["begin", "fetch", "write nixpkgs.ripgrep", "write nixpkgs.fd", "rollback"]);
    assert_eq!(disk.committed.rows(), old_rows());
    assert!(disk.working.is_none());
}

#[test]
fn a_failed_commit_rolls_back() {
    let mut disk = disk_with(old_rows(), Some(three()), Some(5));
    assert_eq!(reindex(&mut disk), Err(IndexError::StoreIOFailure));
    assert_eq!(disk.performed.last().map(|s| s.as_str()), Some("rollback"));
    assert_eq!(disk.committed.rows(), old_rows());
}

#[test]
fn a_failure_at_any_step_leaves_the_table_as_it_was() {
    for step in 0..6 {
        let mut disk = disk_with(old_rows(), Some(three()), Some(step));
        let before = disk.committed.rows();
        let answers: Vec<Vec<PackageInfo>> = ["fd", "s", ""].iter().map(|t| query(&disk.committed, t, 10)).collect();
        let outcome = reindex(&mut disk);
        let expected = if step == 1 { IndexError::SnapshotFailure } else { IndexError::StoreIOFailure };
        assert_eq!(outcome, Err(expected), "failure at step {}", step);
        assert_eq!(disk.committed.rows(), before, "failure at step {}", step);
        let after: Vec<Vec<PackageInfo>> = ["fd", "s", ""].iter().map(|t| query(&disk.committed, t, 10)).collect();
        assert_eq!(answers, after);
    }
}

#[test]
fn a_failed_rollback_still_reports_the_first_failure() {
    let (mut run, _) = Update::start();
    assert_eq!(update_db(&mut run, Event::Done), Action::Fetch);
    assert_eq!(update_db(&mut run, Event::Failed), Action::Rollback);
    assert_eq!(run.phase(), Phase::Aborting(IndexError::SnapshotFailure));
    assert_eq!(update_db(&mut run, Event::Failed), Action::Finish(Err(IndexError::SnapshotFailure)));
    assert_eq!(run.phase(), Phase::Failed(IndexError::SnapshotFailure));
}

#[test]
fn an_event_that_answers_nothing_counts_as_a_failure() {
    let (mut run, _) = Update::start();
    assert_eq!(update_db(&mut run, Event::Snapshot(three())), Action::Finish(Err(IndexError::StoreIOFailure)));

    let (mut run, _) = Update::start();
    assert_eq!(update_db(&mut run, Event::Done), Action::Fetch);
    assert_eq!(update_db(&mut run, Event::Done), Action::Rollback);
    assert_eq!(update_db(&mut run, Event::Done), Action::Finish(Err(IndexError::SnapshotFailure)));

    let (mut run, _) = Update::start();
    assert_eq!(update_db(&mut run, Event::Done), Action::Fetch);
    assert!(matches!(update_db(&mut run, Event::Snapshot(three())), Action::Write(_)));
    assert_eq!(update_db(&mut run, Event::Snapshot(three())), Action::Rollback);
    assert_eq!(update_db(&mut run, Event::Done), Action::Finish(Err(IndexError::StoreIOFailure)));
}

#[test]
fn a_finished_reindex_stays_finished() {
    let (mut run, _) = Update::start();
    assert_eq!(update_db(&mut run, Event::Done), Action::Fetch);
    assert_eq!(update_db(&mut run, Event::Snapshot(Vec::new())), Action::Commit);
    assert_eq!(update_db(&mut run, Event::Done), Action::Finish(Ok(0)));
    assert_eq!(update_db(&mut run, Event::Failed), Action::Finish(Ok(0)));
    assert_eq!(update_db(&mut run, Event::Snapshot(three())), Action::Finish(Ok(0)));

    let (mut run, _) = Update::start();
    assert_eq!(update_db(&mut run, Event::Failed), Action::Finish(Err(IndexError::StoreIOFailure)));
    assert_eq!(update_db(&mut run, Event::Done), Action::Finish(Err(IndexError::StoreIOFailure)));
}

#[test]
fn reindexing_twice_gives_the_same_answers() {
    let mut disk = disk_with(old_rows(), Some(three()), None);
    assert_eq!(reindex(&mut disk), Ok(3));
    let once = disk.committed.rows();
    let answers: Vec<Vec<PackageInfo>> = ["rip", "fd", "hello", "", "e", "zzz"].iter().map(|t| query(&disk.committed, t, 10)).collect();
    disk.source = Some(three());
    disk.performed.clear();
    assert_eq!(reindex(&mut disk), Ok(3));
    assert_eq!(disk.committed.rows(), once);
    let again: Vec<Vec<PackageInfo>> = ["rip", "fd", "hello", "", "e", "zzz"].iter().map(|t| query(&disk.committed, t, 10)).collect();
    assert_eq!(answers, again);
}
