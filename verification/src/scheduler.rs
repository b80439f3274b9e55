//! The polling loop as a state machine: the caller keeps the time and reads
//! the clipboard; the scheduler decides what a read means for the history.

use vstd::prelude::*;
use crate::content::{
    content_of, lemma_same_content_equivalence, same_content, ClipboardContent, ContentView,
};
use crate::diff::{changed, differs};
use crate::model::StoreView;
use crate::store::HistoryStore;

verus! {

/// The poll interval where none is configured, in milliseconds.
pub const DEFAULT_POLL_INTERVAL_MS: u64 = 400;

/// Where the scheduler stands: between two ticks, or in the middle of a read.
#[derive(Clone, Copy, PartialEq, Eq, Structural, Debug)]
pub enum SchedulerState {
    Idle,
    Sampling,
}

/// Why a read of the clipboard gave no content.
#[derive(Clone, Copy, PartialEq, Eq, Structural, Debug)]
pub enum PortError {
    /// The clipboard of the system could not be reached.
    ClipboardUnavailable,
    /// The clipboard holds something that is neither text nor a raw image.
    UnsupportedContent,
}

/// What one tick did.
#[derive(Clone, Copy, PartialEq, Eq, Structural, Debug)]
pub enum TickOutcome {
    /// The content was new and is now the clip with this id.
    Appended(u64),
    /// The content is the one seen last; nothing was recorded.
    Unchanged,
    /// The clipboard was empty; nothing was recorded.
    Empty,
    /// The read failed; nothing was recorded, and the next tick tries again.
    Failed(PortError),
}

/// The mathematical value of a read: a content, nothing, or a failure.
pub type ReadView = Result<Option<ContentView>, PortError>;

/// The value of what a read of the clipboard returned.
pub open spec fn read_view(read: Result<Option<ClipboardContent>, PortError>) -> ReadView {
    match read {
        Ok(c) => Ok(content_of(c)),
        Err(e) => Err(e),
    }
}

/// Whether a tick records what it read: the read gave a content, and the
/// content differs from the one seen last.
pub open spec fn records(last_seen: Option<ContentView>, read: ReadView) -> bool {
    read matches Ok(Some(c)) && differs(last_seen, c)
}

/// The content seen last after a tick: the content read where the tick
/// records it, else the one seen before.
pub open spec fn seen_after(last_seen: Option<ContentView>, read: ReadView) -> Option<ContentView> {
    if records(last_seen, read) {
        read->Ok_0
    } else {
        last_seen
    }
}

/// The history after a tick: the content read is appended where the tick
/// records it; else nothing changes.
pub open spec fn store_after(store: StoreView, last_seen: Option<ContentView>, read: ReadView)
    -> StoreView {
    if records(last_seen, read) {
        store.append(read->Ok_0->Some_0)
    } else {
        store
    }
}

/// What a tick reports, for a history whose next id is `next_id`.
pub open spec fn outcome_of(last_seen: Option<ContentView>, read: ReadView, next_id: nat)
    -> TickOutcome {
    match read {
        Ok(Some(c)) => if differs(last_seen, c) {
            TickOutcome::Appended(next_id as u64)
        } else {
            TickOutcome::Unchanged
        },
        Ok(None) => TickOutcome::Empty,
        Err(e) => TickOutcome::Failed(e),
    }
}

/// The mathematical value of a scheduler.
pub struct SchedulerView {
    pub state: SchedulerState,
    pub last_seen: Option<ContentView>,
    pub interval_ms: nat,
}

/// The decisions of the polling loop.
///
/// The caller runs the loop: every `interval_ms` milliseconds it calls
/// [`PollScheduler::begin_tick`], reads the clipboard where that returns
/// `true`, and hands what it read to [`PollScheduler::complete_tick`].
pub struct PollScheduler {
    state: SchedulerState,
    last_seen: Option<ClipboardContent>,
    interval_ms: u64,
}

impl View for PollScheduler {
    type V = SchedulerView;

    closed spec fn view(&self) -> SchedulerView {
        SchedulerView {
            state: self.state,
            last_seen: content_of(self.last_seen),
            interval_ms: self.interval_ms as nat,
        }
    }
}

impl PollScheduler {
    /// An idle scheduler that has seen nothing yet.
    pub fn new(interval_ms: u64) -> (r: PollScheduler)
        ensures
            r@ == (SchedulerView {
                state: SchedulerState::Idle,
                last_seen: None,
                interval_ms: interval_ms as nat,
            }),
    {
        PollScheduler { state: SchedulerState::Idle, last_seen: None, interval_ms }
    }

    /// Where the scheduler stands.
    pub fn state(&self) -> (r: SchedulerState)
        ensures
            r == self@.state,
    {
        self.state
    }

    /// The time between two ticks, in milliseconds.
    pub fn interval_ms(&self) -> (r: u64)
        ensures
            r == self@.interval_ms,
    {
        self.interval_ms
    }

    /// Starts a tick and says whether the caller is to read the clipboard now.
    ///
    /// An idle scheduler starts sampling and returns `true`. One that is
    /// sampling already stays so and returns `false`: its read is under way.
    pub fn begin_tick(&mut self) -> (read_now: bool)
        ensures
            read_now == (old(self)@.state == SchedulerState::Idle),
            final(self)@ == (SchedulerView { state: SchedulerState::Sampling, ..old(self)@ }),
    {
        let idle: bool = self.state == SchedulerState::Idle;
        self.state = SchedulerState::Sampling;
        idle
    }

    /// Ends a tick with what the read of the clipboard returned.
    ///
    /// A content that differs from the one seen last becomes the content seen
    /// last and is appended to `store`. The same content again, an empty
    /// clipboard and a failed read change neither. In every case the
    /// scheduler is idle afterwards.
    pub fn complete_tick(
        &mut self,
        store: &mut HistoryStore,
        read: Result<Option<ClipboardContent>, PortError>,
    ) -> (outcome: TickOutcome)
        requires
            old(store).wf(),
            old(store)@.next_id < u64::MAX,
        ensures
            final(store).wf(),
            final(self)@ == (SchedulerView {
                state: SchedulerState::Idle,
                last_seen: seen_after(old(self)@.last_seen, read_view(read)),
                ..old(self)@
            }),
            final(store)@ == store_after(old(store)@, old(self)@.last_seen, read_view(read)),
            outcome == outcome_of(old(self)@.last_seen, read_view(read), old(store)@.next_id),
    {
        self.state = SchedulerState::Idle;
        match read {
            Ok(Some(content)) => {
                if changed(&self.last_seen, &content) {
                    self.last_seen = Some(content.duplicate());
                    let id: u64 = store.append(content);
                    TickOutcome::Appended(id)
                } else {
                    TickOutcome::Unchanged
                }
            },
            Ok(None) => TickOutcome::Empty,
            Err(e) => TickOutcome::Failed(e),
        }
    }
}

impl Default for PollScheduler {
    /// An idle scheduler with the default interval.
    fn default() -> (r: PollScheduler)
        ensures
            r@ == (SchedulerView {
                state: SchedulerState::Idle,
                last_seen: None,
                interval_ms: DEFAULT_POLL_INTERVAL_MS as nat,
            }),
    {
        PollScheduler::new(DEFAULT_POLL_INTERVAL_MS)
    }
}

/// The content seen last after the contents `reads` were read one after the
/// other, starting from `init`.
pub open spec fn seen_after_reads(init: Option<ContentView>, reads: Seq<ContentView>) -> Option<
    ContentView,
>
    decreases reads.len(),
{
    if reads.len() == 0 {
        init
    } else {
        seen_after(seen_after_reads(init, reads.drop_last()), Ok(Some(reads.last())))
    }
}

/// After at least one content was read, the content seen last is the same
/// content as the one read last.
pub proof fn lemma_seen_is_last_read(init: Option<ContentView>, reads: Seq<ContentView>)
    requires
        reads.len() > 0,
    ensures
        seen_after_reads(init, reads) matches Some(seen) && same_content(seen, reads.last()),
{
    let before = seen_after_reads(init, reads.drop_last());
    lemma_same_content_equivalence(reads.last(), reads.last(), reads.last());
    if let Some(p) = before {
        lemma_same_content_equivalence(p, reads.last(), reads.last());
    }
}

/// In a sequence of reads, a read is recorded exactly if it differs from the
/// read before it: of a run of the same content only the first is recorded,
/// and a content that comes back after another one is recorded again.
pub proof fn lemma_recorded_iff_differs_from_previous_read(
    init: Option<ContentView>,
    reads: Seq<ContentView>,
    i: int,
)
    requires
        0 < i < reads.len(),
    ensures
        records(seen_after_reads(init, reads.take(i)), Ok(Some(reads[i]))) <==> !same_content(
            reads[i - 1],
            reads[i],
        ),
{
    let prefix = reads.take(i);
    lemma_seen_is_last_read(init, prefix);
    assert(prefix.last() == reads[i - 1]);
    let seen = seen_after_reads(init, prefix)->Some_0;
    lemma_same_content_equivalence(seen, reads[i - 1], reads[i]);
    lemma_same_content_equivalence(reads[i - 1], seen, reads[i]);
}

} // verus!
