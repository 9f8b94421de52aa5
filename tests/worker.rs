use comic_cache::{EpisodeWorker, WorkerAction, WorkerEvent, WorkerPhase, MAX_INDEX_ATTEMPTS};

#[test]
fn all_successful_fetches_complete_in_one_pass() {
    let mut w = EpisodeWorker::new();
    assert_eq!(w.step(WorkerEvent::IndexReady, false), WorkerAction::ScanDisk);
    assert_eq!(w.step(WorkerEvent::Scanned(3), false), WorkerAction::FetchPage(0));
    assert_eq!(w.step(WorkerEvent::PageAttempted, false), WorkerAction::FetchPage(1));
    assert_eq!(w.step(WorkerEvent::PageAttempted, false), WorkerAction::FetchPage(2));
    assert_eq!(w.step(WorkerEvent::PageAttempted, false), WorkerAction::ScanDisk);
    assert_eq!(w.step(WorkerEvent::Scanned(0), false), WorkerAction::Stop);
    assert_eq!(w.phase, WorkerPhase::Completed);
    assert_eq!(w.passes, 1);
}

#[test]
fn missing_pages_after_sweep_back_off_and_retry() {
    let mut w = EpisodeWorker::new();
    w.step(WorkerEvent::IndexReady, false);
    w.step(WorkerEvent::Scanned(1), false);
    assert_eq!(w.step(WorkerEvent::PageAttempted, false), WorkerAction::ScanDisk);
    assert_eq!(w.step(WorkerEvent::Scanned(1), false), WorkerAction::Backoff);
    assert_eq!(w.phase, WorkerPhase::BackingOff);
    assert_eq!(w.step(WorkerEvent::BackoffElapsed, false), WorkerAction::ScanDisk);
    assert_eq!(w.step(WorkerEvent::Scanned(1), false), WorkerAction::FetchPage(0));
    assert_eq!(w.passes, 2);
}

#[test]
fn cancellation_mid_batch_stops_at_next_step() {
    let mut w = EpisodeWorker::new();
    w.step(WorkerEvent::IndexReady, false);
    w.step(WorkerEvent::Scanned(5), false);
    w.step(WorkerEvent::PageAttempted, false);
    assert_eq!(w.step(WorkerEvent::PageAttempted, true), WorkerAction::Stop);
    assert_eq!(w.phase, WorkerPhase::Cancelled);
    assert_eq!(w.step(WorkerEvent::PageAttempted, false), WorkerAction::Stop);
    assert!(w.is_finished());
}

#[test]
fn unresolvable_index_fails_after_bounded_attempts() {
    let mut w = EpisodeWorker::new();
    for _ in 1..MAX_INDEX_ATTEMPTS {
        assert_eq!(w.step(WorkerEvent::IndexUnavailable, false), WorkerAction::Backoff);
        assert_eq!(w.step(WorkerEvent::BackoffElapsed, false), WorkerAction::ResolveIndex);
    }
    assert_eq!(w.step(WorkerEvent::IndexUnavailable, false), WorkerAction::Stop);
    assert_eq!(w.phase, WorkerPhase::Failed);
}

#[test]
fn unexpected_event_marks_failure() {
    let mut w = EpisodeWorker::new();
    assert_eq!(w.step(WorkerEvent::PageAttempted, false), WorkerAction::Stop);
    assert_eq!(w.phase, WorkerPhase::Failed);
}

#[test]
fn empty_episode_completes_without_a_pass() {
    let mut w = EpisodeWorker::new();
    w.step(WorkerEvent::IndexReady, false);
    assert_eq!(w.step(WorkerEvent::Scanned(0), false), WorkerAction::Stop);
    assert_eq!(w.phase, WorkerPhase::Completed);
    assert_eq!(w.passes, 0);
}

#[test]
fn missing_record_is_fetched_before_scanning() {
    let mut w = EpisodeWorker::new();
    assert_eq!(w.step(WorkerEvent::IndexMissing, false), WorkerAction::FetchIndex);
    assert_eq!(w.phase, WorkerPhase::ResolvingIndex);
    assert_eq!(w.step(WorkerEvent::IndexReady, false), WorkerAction::ScanDisk);
}

#[test]
fn failed_page_write_fails_the_episode() {
    let mut w = EpisodeWorker::new();
    w.step(WorkerEvent::IndexReady, false);
    w.step(WorkerEvent::Scanned(3), false);
    assert_eq!(w.step(WorkerEvent::PageWriteFailed, false), WorkerAction::Stop);
    assert_eq!(w.phase, WorkerPhase::Failed);
}

#[test]
fn failed_record_write_fails_the_episode() {
    let mut w = EpisodeWorker::new();
    assert_eq!(w.step(WorkerEvent::IndexMissing, false), WorkerAction::FetchIndex);
    assert_eq!(w.step(WorkerEvent::IndexWriteFailed, false), WorkerAction::Stop);
    assert_eq!(w.phase, WorkerPhase::Failed);
}
