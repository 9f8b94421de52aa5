use vstd::prelude::*;

verus! {

/// Attempts at resolving an episode's page index before the worker gives
/// the episode up as failed.
pub const MAX_INDEX_ATTEMPTS: u32 = 5;

/// Where an episode worker stands. `Scanning`, `Fetching` and `BackingOff`
/// together make up downloading; the last three phases are terminal.
#[derive(Clone, Copy, Debug, PartialEq, Eq, Structural)]
pub enum WorkerPhase {
    ResolvingIndex,
    Scanning,
    Fetching,
    BackingOff,
    Completed,
    Cancelled,
    Failed,
}

/// What the driver of a worker reports back after carrying out its action.
#[derive(Clone, Copy, Debug, PartialEq, Eq, Structural)]
pub enum WorkerEvent {
    /// The episode's record is on disk: it was found there, or fetched and
    /// written before any page.
    IndexReady,
    /// No record of the episode is on disk yet.
    IndexMissing,
    /// The page index could not be obtained from the catalog.
    IndexUnavailable,
    /// The page index was fetched but its record could not be written.
    IndexWriteFailed,
    /// A scan of the episode directory found this many pages remaining.
    Scanned(usize),
    /// The requested page was attempted; a failed fetch is not told apart,
    /// since the next scan finds the page still missing.
    PageAttempted,
    /// The page was downloaded but its file could not be written.
    PageWriteFailed,
    /// The pause between passes is over.
    BackoffElapsed,
}

/// What the driver is to do next.
#[derive(Clone, Copy, Debug, PartialEq, Eq, Structural)]
pub enum WorkerAction {
    /// Load the episode's record from disk.
    ResolveIndex,
    /// Fetch the episode's page index from the catalog and write its record
    /// before any page.
    FetchIndex,
    /// Count the pages whose file is missing or empty.
    ScanDisk,
    /// Fetch the page at this position of the last scan's remaining pages.
    FetchPage(usize),
    /// Pause for the fixed interval between passes.
    Backoff,
    /// The worker has reached a terminal phase.
    Stop,
}

/// The decisions of one episode's download loop, apart from the work itself.
#[derive(Clone, Copy, Debug, PartialEq, Eq, Structural)]
pub struct EpisodeWorker {
    pub phase: WorkerPhase,
    /// Pages remaining at the start of the current pass.
    pub batch_len: usize,
    /// Position, within the pass, of the page being fetched.
    pub cursor: usize,
    /// The scan under way follows a completed sweep of the pass.
    pub swept: bool,
    /// Passes started so far.
    pub passes: u64,
    pub index_attempts: u32,
}

pub open spec fn is_terminal(p: WorkerPhase) -> bool {
    p == WorkerPhase::Completed || p == WorkerPhase::Cancelled || p == WorkerPhase::Failed
}

impl EpisodeWorker {
    pub open spec fn wf(&self) -> bool {
        self.phase == WorkerPhase::Fetching ==> self.cursor < self.batch_len
    }

    pub open spec fn with_phase(self, p: WorkerPhase) -> EpisodeWorker {
        EpisodeWorker { phase: p, ..self }
    }

    /// A worker that has not yet looked at its episode.
    pub open spec fn initial() -> EpisodeWorker {
        EpisodeWorker {
            phase: WorkerPhase::ResolvingIndex,
            batch_len: 0,
            cursor: 0,
            swept: false,
            passes: 0,
            index_attempts: 0,
        }
    }
}

/// One decision: the worker's next state and action, given the outcome of
/// its last action and whether cancellation has been signalled. A signal is
/// obeyed at every step. A record found on disk is reused as it is; only a
/// missing one is fetched. A record or page file that cannot be written, or
/// an event that the last action could not produce, marks the episode
/// failed.
pub open spec fn next_state(w: EpisodeWorker, ev: WorkerEvent, cancelled: bool) -> (EpisodeWorker, WorkerAction) {
    if is_terminal(w.phase) {
        (w, WorkerAction::Stop)
    } else if cancelled {
        (w.with_phase(WorkerPhase::Cancelled), WorkerAction::Stop)
    } else {
        match (w.phase, ev) {
            (WorkerPhase::ResolvingIndex, WorkerEvent::IndexReady) => (
                EpisodeWorker { phase: WorkerPhase::Scanning, swept: false, ..w },
                WorkerAction::ScanDisk,
            ),
            (WorkerPhase::ResolvingIndex, WorkerEvent::IndexMissing) => (w, WorkerAction::FetchIndex),
            (WorkerPhase::ResolvingIndex, WorkerEvent::IndexWriteFailed) => (
                w.with_phase(WorkerPhase::Failed),
                WorkerAction::Stop,
            ),
            (WorkerPhase::ResolvingIndex, WorkerEvent::IndexUnavailable) => {
                let attempts = if w.index_attempts < MAX_INDEX_ATTEMPTS {
                    (w.index_attempts + 1) as u32
                } else {
                    w.index_attempts
                };
                if attempts >= MAX_INDEX_ATTEMPTS {
                    (EpisodeWorker { phase: WorkerPhase::Failed, index_attempts: attempts, ..w }, WorkerAction::Stop)
                } else {
                    (EpisodeWorker { index_attempts: attempts, ..w }, WorkerAction::Backoff)
                }
            },
            (WorkerPhase::ResolvingIndex, WorkerEvent::BackoffElapsed) => (w, WorkerAction::ResolveIndex),
            (WorkerPhase::Scanning, WorkerEvent::Scanned(n)) => {
                if n == 0 {
                    (w.with_phase(WorkerPhase::Completed), WorkerAction::Stop)
                } else if w.swept {
                    (w.with_phase(WorkerPhase::BackingOff), WorkerAction::Backoff)
                } else {
                    (
                        EpisodeWorker {
                            phase: WorkerPhase::Fetching,
                            batch_len: n,
                            cursor: 0,
                            passes: if w.passes < u64::MAX { (w.passes + 1) as u64 } else { w.passes },
                            ..w
                        },
                        WorkerAction::FetchPage(0),
                    )
                }
            },
            (WorkerPhase::Fetching, WorkerEvent::PageAttempted) => {
                let c = (w.cursor + 1) as usize;
                if c < w.batch_len {
                    (EpisodeWorker { cursor: c, ..w }, WorkerAction::FetchPage(c))
                } else {
                    (
                        EpisodeWorker { phase: WorkerPhase::Scanning, cursor: c, swept: true, ..w },
                        WorkerAction::ScanDisk,
                    )
                }
            },
            (WorkerPhase::Fetching, WorkerEvent::PageWriteFailed) => (
                w.with_phase(WorkerPhase::Failed),
                WorkerAction::Stop,
            ),
            (WorkerPhase::BackingOff, WorkerEvent::BackoffElapsed) => (
                EpisodeWorker { phase: WorkerPhase::Scanning, swept: false, ..w },
                WorkerAction::ScanDisk,
            ),
            _ => (w.with_phase(WorkerPhase::Failed), WorkerAction::Stop),
        }
    }
}

impl EpisodeWorker {
    /// A worker for an episode not yet looked at; its first action is
    /// `ResolveIndex`.
    pub fn new() -> (r: Self)
        ensures
            r == EpisodeWorker::initial(),
            r.wf(),
    {
        EpisodeWorker {
            phase: WorkerPhase::ResolvingIndex,
            batch_len: 0,
            cursor: 0,
            swept: false,
            passes: 0,
            index_attempts: 0,
        }
    }

    /// Whether the worker has stopped for good.
    pub fn is_finished(&self) -> (r: bool)
        ensures
            r == is_terminal(self.phase),
    {
        match self.phase {
            WorkerPhase::Completed | WorkerPhase::Cancelled | WorkerPhase::Failed => true,
            _ => false,
        }
    }

    /// Takes the outcome of the last action and decides the next one.
    pub fn step(&mut self, ev: WorkerEvent, cancelled: bool) -> (r: WorkerAction)
        requires
            old(self).wf(),
        ensures
            (*final(self), r) == next_state(*old(self), ev, cancelled),
            final(self).wf(),
    {
        if self.is_finished() {
            return WorkerAction::Stop;
        }
        if cancelled {
            self.phase = WorkerPhase::Cancelled;
            return WorkerAction::Stop;
        }
        match (self.phase, ev) {
            (WorkerPhase::ResolvingIndex, WorkerEvent::IndexReady) => {
                self.phase = WorkerPhase::Scanning;
                self.swept = false;
                WorkerAction::ScanDisk
            },
            (WorkerPhase::ResolvingIndex, WorkerEvent::IndexMissing) => WorkerAction::FetchIndex,
            (WorkerPhase::ResolvingIndex, WorkerEvent::IndexWriteFailed) => {
                self.phase = WorkerPhase::Failed;
                WorkerAction::Stop
            },
            (WorkerPhase::ResolvingIndex, WorkerEvent::IndexUnavailable) => {
                let attempts = if self.index_attempts < MAX_INDEX_ATTEMPTS {
                    self.index_attempts + 1
                } else {
                    self.index_attempts
                };
                self.index_attempts = attempts;
                if attempts >= MAX_INDEX_ATTEMPTS {
                    self.phase = WorkerPhase::Failed;
                    WorkerAction::Stop
                } else {
                    WorkerAction::Backoff
                }
            },
            (WorkerPhase::ResolvingIndex, WorkerEvent::BackoffElapsed) => WorkerAction::ResolveIndex,
            (WorkerPhase::Scanning, WorkerEvent::Scanned(n)) => {
                if n == 0 {
                    self.phase = WorkerPhase::Completed;
                    WorkerAction::Stop
                } else if self.swept {
                    self.phase = WorkerPhase::BackingOff;
                    WorkerAction::Backoff
                } else {
                    self.phase = WorkerPhase::Fetching;
                    self.batch_len = n;
                    self.cursor = 0;
                    if self.passes < u64::MAX {
                        self.passes = self.passes + 1;
                    }
                    WorkerAction::FetchPage(0)
                }
            },
            (WorkerPhase::Fetching, WorkerEvent::PageAttempted) => {
                let c = self.cursor + 1;
                self.cursor = c;
                if c < self.batch_len {
                    WorkerAction::FetchPage(c)
                } else {
                    self.phase = WorkerPhase::Scanning;
                    self.swept = true;
                    WorkerAction::ScanDisk
                }
            },
            (WorkerPhase::Fetching, WorkerEvent::PageWriteFailed) => {
                self.phase = WorkerPhase::Failed;
                WorkerAction::Stop
            },
            (WorkerPhase::BackingOff, WorkerEvent::BackoffElapsed) => {
                self.phase = WorkerPhase::Scanning;
                self.swept = false;
                WorkerAction::ScanDisk
            },
            _ => {
                self.phase = WorkerPhase::Failed;
                WorkerAction::Stop
            },
        }
    }
}

/// Drives a worker through a sequence of events with no cancellation;
/// gives the final worker and the actions it asked for, one per event.
pub open spec fn run(w: EpisodeWorker, evs: Seq<WorkerEvent>) -> (EpisodeWorker, Seq<WorkerAction>)
    decreases evs.len(),
{
    if evs.len() == 0 {
        (w, Seq::empty())
    } else {
        let (next, a) = next_state(w, evs[0], false);
        let (last, acts) = run(next, evs.drop_first());
        (last, seq![a] + acts)
    }
}

/// The fetches of positions `from` up to `to` of a pass, in order.
pub open spec fn fetches(from: nat, to: nat) -> Seq<WorkerAction> {
    Seq::new((to - from) as nat, |i: int| WorkerAction::FetchPage((from + i) as usize))
}

/// What a driver whose every fetch succeeds reports for an episode of `n`
/// pages: the index is ready, a scan finds all `n` missing, each is
/// attempted, and the scan after the sweep finds none.
pub open spec fn all_success_events(n: usize) -> Seq<WorkerEvent> {
    if n == 0 {
        seq![WorkerEvent::IndexReady, WorkerEvent::Scanned(0)]
    } else {
        seq![WorkerEvent::IndexReady, WorkerEvent::Scanned(n)]
            + Seq::new(n as nat, |i: int| WorkerEvent::PageAttempted)
            + seq![WorkerEvent::Scanned(0)]
    }
}

proof fn lemma_sweep_completes(w: EpisodeWorker, k: nat)
    requires
        w.phase == WorkerPhase::Fetching,
        k >= 1,
        w.cursor + k == w.batch_len,
    ensures
        ({
            let evs = Seq::new(k, |i: int| WorkerEvent::PageAttempted).push(WorkerEvent::Scanned(0));
            let (last, acts) = run(w, evs);
            &&& last.phase == WorkerPhase::Completed
            &&& last.passes == w.passes
            &&& acts == fetches((w.cursor + 1) as nat, w.batch_len as nat) + seq![
                WorkerAction::ScanDisk,
                WorkerAction::Stop,
            ]
        }),
    decreases k,
{
    let evs = Seq::new(k, |i: int| WorkerEvent::PageAttempted).push(WorkerEvent::Scanned(0));
    let (next, a) = next_state(w, evs[0], false);
    let rest = evs.drop_first();
    if k == 1 {
        let (n2, a2) = next_state(next, rest[0], false);
        assert(rest.drop_first() =~= Seq::<WorkerEvent>::empty());
        assert(run(n2, rest.drop_first()) == (n2, Seq::<WorkerAction>::empty()));
        assert(run(next, rest).1 =~= seq![a2]);
        assert(fetches((w.cursor + 1) as nat, w.batch_len as nat) =~= Seq::<WorkerAction>::empty());
        assert(run(w, evs).1 =~= seq![a, a2]);
    } else {
        assert(rest =~= Seq::new((k - 1) as nat, |i: int| WorkerEvent::PageAttempted).push(
            WorkerEvent::Scanned(0),
        ));
        lemma_sweep_completes(next, (k - 1) as nat);
        assert(fetches((w.cursor + 1) as nat, w.batch_len as nat) =~= seq![a] + fetches(
            (next.cursor + 1) as nat,
            next.batch_len as nat,
        ));
    }
}

/// Convergence: when every fetch succeeds, a worker on an episode of `n`
/// pages completes after a single pass (none when `n` is zero), having
/// asked for each page exactly once and in order.
pub proof fn lemma_all_success_completes(n: usize)
    ensures
        ({
            let (last, acts) = run(EpisodeWorker::initial(), all_success_events(n));
            &&& last.phase == WorkerPhase::Completed
            &&& last.passes == (if n == 0 { 0u64 } else { 1u64 })
            &&& acts == if n == 0 {
                seq![WorkerAction::ScanDisk, WorkerAction::Stop]
            } else {
                seq![WorkerAction::ScanDisk] + fetches(0, n as nat) + seq![
                    WorkerAction::ScanDisk,
                    WorkerAction::Stop,
                ]
            }
        }),
{
    let evs = all_success_events(n);
    let w0 = EpisodeWorker::initial();
    let (w1, a1) = next_state(w0, evs[0], false);
    let evs1 = evs.drop_first();
    let (w2, a2) = next_state(w1, evs1[0], false);
    let evs2 = evs1.drop_first();
    if n == 0 {
        assert(evs[0] == WorkerEvent::IndexReady);
        assert(evs1[0] == WorkerEvent::Scanned(0));
        assert(evs2 =~= Seq::<WorkerEvent>::empty());
        assert(run(w2, evs2) == (w2, Seq::<WorkerAction>::empty()));
        assert(run(w1, evs1) == (w2, seq![a2] + Seq::<WorkerAction>::empty()));
        assert(run(w1, evs1).1 =~= seq![a2]);
        assert(run(w0, evs) == (w2, seq![a1] + run(w1, evs1).1));
        assert(run(w0, evs).1 =~= seq![a1, a2]);
    } else {
        assert(evs2 =~= Seq::new(n as nat, |i: int| WorkerEvent::PageAttempted).push(
            WorkerEvent::Scanned(0),
        ));
        lemma_sweep_completes(w2, n as nat);
        assert(evs[0] == WorkerEvent::IndexReady);
        assert(evs1[0] == WorkerEvent::Scanned(n));
        assert(w2.phase == WorkerPhase::Fetching && w2.cursor == 0 && w2.batch_len == n);
        assert(fetches(0, n as nat) =~= seq![a2] + fetches(1, n as nat));
        assert(run(w1, evs1) == (run(w2, evs2).0, seq![a2] + run(w2, evs2).1));
        assert(run(w0, evs) == (run(w1, evs1).0, seq![a1] + run(w1, evs1).1));
        assert(run(w0, evs).1 =~= seq![a1] + (seq![a2] + run(w2, evs2).1));
    }
}

/// Cancellation latency: once the signal is seen, the very next decision of
/// a running worker is to stop as cancelled, whatever the event, so no page
/// beyond the one already in flight is requested.
pub proof fn lemma_cancel_stops_at_next_step(w: EpisodeWorker, ev: WorkerEvent)
    requires
        !is_terminal(w.phase),
    ensures
        next_state(w, ev, true).0.phase == WorkerPhase::Cancelled,
        next_state(w, ev, true).1 == WorkerAction::Stop,
        is_terminal(next_state(next_state(w, ev, true).0, ev, false).0.phase),
{
}

} // verus!
