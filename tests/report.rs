use comic_cache::{summarize, WorkerPhase};

#[test]
fn outcomes_are_tallied() {
    let r = summarize(&vec![
        WorkerPhase::Completed,
        WorkerPhase::Cancelled,
        WorkerPhase::Completed,
        WorkerPhase::Failed,
        WorkerPhase::Fetching,
    ]);
    assert_eq!((r.completed, r.cancelled, r.failed), (2, 1, 2));
    let e = summarize(&vec![]);
    assert_eq!((e.completed, e.cancelled, e.failed), (0, 0, 0));
}
