//! The supervision rules of the mining worker pool: a bounded queue of
//! candidates, a table of worker slots, and the decisions of the dispatcher
//! and of a worker as functions from state and event to state and action.
//!
//! Nothing here waits or spawns. The driver that owns the threads reports
//! what happened and carries out what is decided.

use std::collections::VecDeque;
use vstd::prelude::*;

verus! {

/// The number of candidates that the queue of the mining driver holds.
pub const MAX_MINING_QUEUE: usize = 32;

/// Where a worker slot stands.
#[derive(Clone, Copy, Debug, PartialEq, Eq, Structural)]
pub enum WorkerStatus {
    /// The worker was spawned and is building its proving context.
    Starting,
    /// The worker has its proving context and takes candidates.
    Running,
    /// The worker has ended, for whatever reason, and is not yet replaced.
    Terminated,
}

/// One slot of the worker table. The slot and its position stay; the
/// worker in it is replaced after it has ended.
#[derive(Clone, Copy, Debug, PartialEq, Eq, Structural)]
pub struct WorkerSlot {
    /// Where the worker in this slot stands.
    pub status: WorkerStatus,
    /// How many workers were spawned into this slot after the first one.
    pub generation: u64,
}

/// What the dispatcher is told.
pub enum DispatchEvent<T> {
    /// A candidate arrived from the node.
    Candidate(T),
    /// The worker in the slot has built its proving context.
    WorkerReady(usize),
    /// The worker in the slot has ended: it could not build its context,
    /// its queue was closed, or it panicked.
    WorkerExited(usize),
    /// A new worker was spawned into the slot.
    WorkerSpawned(usize),
}

/// What the dispatcher decides.
pub enum DispatchAction<T> {
    /// The candidate is in the queue.
    Enqueued,
    /// The queue was full; the candidate is handed back and dropped.
    Dropped(T),
    /// A new worker has to be spawned into the slot.
    Restart(usize),
    /// Nothing has to be done.
    Nothing,
}

/// The state of the dispatcher as a mathematical value.
pub struct DispatcherView<T> {
    /// The waiting candidates, oldest first.
    pub queue: Seq<T>,
    /// The most candidates that may wait.
    pub capacity: nat,
    /// The worker slots, by id.
    pub slots: Seq<WorkerSlot>,
    /// How many candidates were dropped, up to the largest count that fits.
    pub dropped: u64,
}

/// A counter one higher, unless it is at its maximum.
pub open spec fn next_count(n: u64) -> u64 {
    if n < u64::MAX {
        (n + 1) as u64
    } else {
        n
    }
}

/// The state after an event.
pub open spec fn state_after<T>(v: DispatcherView<T>, e: DispatchEvent<T>) -> DispatcherView<T> {
    match e {
        DispatchEvent::Candidate(c) => if v.queue.len() < v.capacity {
            DispatcherView { queue: v.queue.push(c), ..v }
        } else {
            DispatcherView { dropped: next_count(v.dropped), ..v }
        },
        DispatchEvent::WorkerReady(id) => if id < v.slots.len() && v.slots[id as int].status
            == WorkerStatus::Starting {
            DispatcherView {
                slots: v.slots.update(
                    id as int,
                    WorkerSlot { status: WorkerStatus::Running, ..v.slots[id as int] },
                ),
                ..v
            }
        } else {
            v
        },
        DispatchEvent::WorkerExited(id) => if id < v.slots.len() && v.slots[id as int].status
            != WorkerStatus::Terminated {
            DispatcherView {
                slots: v.slots.update(
                    id as int,
                    WorkerSlot { status: WorkerStatus::Terminated, ..v.slots[id as int] },
                ),
                ..v
            }
        } else {
            v
        },
        DispatchEvent::WorkerSpawned(id) => if id < v.slots.len() && v.slots[id as int].status
            == WorkerStatus::Terminated {
            DispatcherView {
                slots: v.slots.update(
                    id as int,
                    WorkerSlot {
                        status: WorkerStatus::Starting,
                        generation: next_count(v.slots[id as int].generation),
                    },
                ),
                ..v
            }
        } else {
            v
        },
    }
}

/// The decision on an event.
pub open spec fn action_for<T>(v: DispatcherView<T>, e: DispatchEvent<T>) -> DispatchAction<T> {
    match e {
        DispatchEvent::Candidate(c) => if v.queue.len() < v.capacity {
            DispatchAction::Enqueued
        } else {
            DispatchAction::Dropped(c)
        },
        DispatchEvent::WorkerExited(id) => if id < v.slots.len() && v.slots[id as int].status
            != WorkerStatus::Terminated {
            DispatchAction::Restart(id)
        } else {
            DispatchAction::Nothing
        },
        _ => DispatchAction::Nothing,
    }
}

/// The queue is within its capacity.
pub open spec fn within_capacity<T>(v: DispatcherView<T>) -> bool {
    v.queue.len() <= v.capacity
}

/// The state after a sequence of events, taken in order.
pub open spec fn state_after_all<T>(v: DispatcherView<T>, events: Seq<DispatchEvent<T>>)
    -> DispatcherView<T>
    decreases events.len(),
{
    if events.len() == 0 {
        v
    } else {
        state_after(state_after_all(v, events.drop_last()), events.last())
    }
}

/// The bounded queue of waiting candidates and the table of worker slots.
pub struct MiningDispatcher<T> {
    queue: VecDeque<T>,
    capacity: usize,
    slots: Vec<WorkerSlot>,
    dropped: u64,
}

impl<T> View for MiningDispatcher<T> {
    type V = DispatcherView<T>;

    closed spec fn view(&self) -> DispatcherView<T> {
        DispatcherView {
            queue: self.queue@,
            capacity: self.capacity as nat,
            slots: self.slots@,
            dropped: self.dropped,
        }
    }
}

impl<T> MiningDispatcher<T> {
    /// A dispatcher with an empty queue of the given capacity and
    /// `workers` slots, each with its first worker starting.
    pub fn new(workers: usize, capacity: usize) -> (d: MiningDispatcher<T>)
        ensures
            within_capacity(d@),
            d@.queue.len() == 0,
            d@.capacity == capacity,
            d@.dropped == 0,
            d@.slots.len() == workers,
            forall|i: int|
                0 <= i < workers ==> #[trigger] d@.slots[i] == (WorkerSlot {
                    status: WorkerStatus::Starting,
                    generation: 0,
                }),
    {
        let mut slots: Vec<WorkerSlot> = Vec::new();
        let mut i: usize = 0;
        while i < workers
            invariant
                i <= workers,
                slots@.len() == i,
                forall|j: int|
                    0 <= j < i ==> #[trigger] slots@[j] == (WorkerSlot {
                        status: WorkerStatus::Starting,
                        generation: 0,
                    }),
            decreases workers - i,
        {
            slots.push(WorkerSlot { status: WorkerStatus::Starting, generation: 0 });
            i = i + 1;
        }
        MiningDispatcher { queue: VecDeque::new(), capacity, slots, dropped: 0 }
    }

    /// Takes an event and decides what has to be done.
    ///
    /// A candidate goes to the back of the queue if there is room and is
    /// dropped otherwise; the call never waits. The end of a worker asks for
    /// one restart of its slot and touches no other slot.
    pub fn handle(&mut self, event: DispatchEvent<T>) -> (action: DispatchAction<T>)
        ensures
            final(self)@ == state_after(old(self)@, event),
            action == action_for(old(self)@, event),
            within_capacity(old(self)@) ==> within_capacity(final(self)@),
    {
        match event {
            DispatchEvent::Candidate(c) => {
                if self.queue.len() < self.capacity {
                    self.queue.push_back(c);
                    DispatchAction::Enqueued
                } else {
                    self.dropped = self.dropped.saturating_add(1);
                    DispatchAction::Dropped(c)
                }
            },
            DispatchEvent::WorkerReady(id) => {
                if id < self.slots.len() {
                    let slot = self.slots[id];
                    match slot.status {
                        WorkerStatus::Starting => {
                            self.slots[id] = WorkerSlot {
                                status: WorkerStatus::Running,
                                generation: slot.generation,
                            };
                        },
                        _ => {},
                    }
                }
                DispatchAction::Nothing
            },
            DispatchEvent::WorkerExited(id) => {
                if id < self.slots.len() {
                    let slot = self.slots[id];
                    match slot.status {
                        WorkerStatus::Terminated => DispatchAction::Nothing,
                        _ => {
                            self.slots[id] = WorkerSlot {
                                status: WorkerStatus::Terminated,
                                generation: slot.generation,
                            };
                            DispatchAction::Restart(id)
                        },
                    }
                } else {
                    DispatchAction::Nothing
                }
            },
            DispatchEvent::WorkerSpawned(id) => {
                if id < self.slots.len() {
                    let slot = self.slots[id];
                    match slot.status {
                        WorkerStatus::Terminated => {
                            self.slots[id] = WorkerSlot {
                                status: WorkerStatus::Starting,
                                generation: slot.generation.saturating_add(1),
                            };
                        },
                        _ => {},
                    }
                }
                DispatchAction::Nothing
            },
        }
    }

    /// Takes the oldest waiting candidate out of the queue, if there is
    /// one. The worker slots are left as they are.
    pub fn next_candidate(&mut self) -> (c: Option<T>)
        ensures
            within_capacity(old(self)@) ==> within_capacity(final(self)@),
            match c {
                Some(item) => old(self)@.queue.len() > 0 && item == old(self)@.queue[0]
                    && final(self)@ == (DispatcherView {
                    queue: old(self)@.queue.subrange(1, old(self)@.queue.len() as int),
                    ..old(self)@
                }),
                None => old(self)@.queue.len() == 0 && final(self)@ == old(self)@,
            },
    {
        self.queue.pop_front()
    }

    /// The number of waiting candidates.
    pub fn queue_len(&self) -> (n: usize)
        ensures
            n == self@.queue.len(),
    {
        self.queue.len()
    }

    /// The most candidates that may wait.
    pub fn capacity(&self) -> (n: usize)
        ensures
            n == self@.capacity,
    {
        self.capacity
    }

    /// The number of candidates that were dropped.
    pub fn dropped(&self) -> (n: u64)
        ensures
            n == self@.dropped,
    {
        self.dropped
    }

    /// The number of worker slots.
    pub fn worker_count(&self) -> (n: usize)
        ensures
            n == self@.slots.len(),
    {
        self.slots.len()
    }

    /// The slot with the given id, if there is one.
    pub fn slot(&self, id: usize) -> (s: Option<WorkerSlot>)
        ensures
            s == if id < self@.slots.len() {
                Some(self@.slots[id as int])
            } else {
                None
            },
    {
        if id < self.slots.len() {
            Some(self.slots[id])
        } else {
            None
        }
    }
}

/// The queue never grows beyond its capacity, whatever is reported.
pub proof fn lemma_queue_stays_bounded<T>(v: DispatcherView<T>, e: DispatchEvent<T>)
    requires
        within_capacity(v),
    ensures
        within_capacity(state_after(v, e)),
        state_after(v, e).capacity == v.capacity,
{
}

/// A candidate that meets a full queue is dropped: it is handed back, the
/// queue stays as it was, at its capacity, and the drop is counted. A
/// candidate that meets a queue with room is appended.
pub proof fn lemma_full_queue_drops<T>(v: DispatcherView<T>, c: T)
    requires
        within_capacity(v),
    ensures
        v.queue.len() == v.capacity ==> action_for(v, DispatchEvent::Candidate(c))
            == DispatchAction::Dropped(c) && state_after(v, DispatchEvent::Candidate(c)).queue
            == v.queue && state_after(v, DispatchEvent::Candidate(c)).dropped == next_count(
            v.dropped,
        ),
        v.queue.len() < v.capacity ==> action_for(v, DispatchEvent::Candidate(c))
            == DispatchAction::<T>::Enqueued && state_after(v, DispatchEvent::Candidate(c)).queue
            == v.queue.push(c),
{
}

/// The events that deliver the candidates `items`, in order.
pub open spec fn deliveries<T>(items: Seq<T>) -> Seq<DispatchEvent<T>> {
    Seq::new(items.len(), |i: int| DispatchEvent::Candidate(items[i]))
}

/// Candidates delivered in a row without a worker taking any: as many as
/// there is room for are appended in their order, the rest is dropped, and
/// the worker slots are left as they are.
pub proof fn lemma_burst<T>(v: DispatcherView<T>, items: Seq<T>)
    requires
        within_capacity(v),
    ensures
        ({
            let after = state_after_all(v, deliveries(items));
            let room = v.capacity - v.queue.len();
            let taken = if items.len() <= room {
                items.len() as int
            } else {
                room
            };
            &&& after.queue == v.queue + items.subrange(0, taken)
            &&& after.slots == v.slots
            &&& after.capacity == v.capacity
            &&& within_capacity(after)
        }),
    decreases items.len(),
{
    let events = deliveries(items);
    let room = v.capacity - v.queue.len();
    if items.len() == 0 {
        assert(v.queue + items.subrange(0, 0) =~= v.queue);
    } else {
        let head = items.drop_last();
        lemma_burst(v, head);
        assert(events.drop_last() =~= deliveries(head));
        let before = state_after_all(v, deliveries(head));
        assert(events.last() == DispatchEvent::Candidate(items.last()));
        let after = state_after(before, events.last());
        let n = items.len() as int;
        if n <= room {
            assert(items.subrange(0, n - 1).push(items.last()) =~= items.subrange(0, n));
            assert((v.queue + items.subrange(0, n - 1)).push(items.last()) =~= v.queue
                + items.subrange(0, n));
        } else {
            assert(head.subrange(0, room) =~= items.subrange(0, room));
        }
        if n - 1 <= room {
            assert(head.subrange(0, n - 1) =~= items.subrange(0, n - 1));
        }
    }
}

/// The end of the worker in a slot asks for a restart of that slot and of
/// no other, leaves every other slot and the queue as they were, and a
/// second report for the same slot, before a new worker was spawned into
/// it, asks for nothing.
pub proof fn lemma_exit_restarts_once<T>(v: DispatcherView<T>, id: usize)
    requires
        id < v.slots.len(),
        v.slots[id as int].status != WorkerStatus::Terminated,
    ensures
        ({
            let e = DispatchEvent::<T>::WorkerExited(id);
            let after = state_after(v, e);
            &&& action_for(v, e) == DispatchAction::<T>::Restart(id)
            &&& action_for(after, e) == DispatchAction::<T>::Nothing
            &&& after.queue == v.queue
            &&& after.slots.len() == v.slots.len()
            &&& after.slots[id as int].status == WorkerStatus::Terminated
            &&& forall|j: int| 0 <= j < v.slots.len() && j != id ==> after.slots[j] == v.slots[j]
            &&& state_after(after, DispatchEvent::<T>::WorkerSpawned(id)).slots[id as int]
                == (WorkerSlot {
                status: WorkerStatus::Starting,
                generation: next_count(v.slots[id as int].generation),
            })
        }),
{
}

/// What a worker is doing.
#[derive(Clone, Copy, Debug, PartialEq, Eq, Structural)]
pub enum WorkerPhase {
    /// It is building its proving context.
    Starting,
    /// It waits for a candidate.
    Waiting,
    /// It works on a candidate.
    Proving,
    /// It has ended.
    Terminated,
}

/// What happened to a worker.
#[derive(Clone, Copy, Debug, PartialEq, Eq, Structural)]
pub enum WorkerEvent {
    /// The proving context is built.
    ContextReady,
    /// The proving context could not be built.
    ContextFailed,
    /// A candidate was taken from the queue.
    CandidateTaken,
    /// The queue is closed.
    QueueClosed,
    /// The attempt on the candidate has produced its effects.
    AttemptDone,
    /// The attempt on the candidate has failed.
    AttemptFailed,
}

/// What a worker does next.
#[derive(Clone, Copy, Debug, PartialEq, Eq, Structural)]
pub enum WorkerAction {
    /// Wait for the next candidate.
    AwaitCandidate,
    /// Run the proving context on the candidate.
    Prove,
    /// Forward the proofs among the effects, then wait for the next
    /// candidate.
    ForwardProofs,
    /// Report the failure, then wait for the next candidate.
    ReportFailure,
    /// End, and report the slot to the dispatcher.
    Exit,
    /// Nothing: the event does not belong to the phase.
    Ignore,
}

/// The phase of a worker after an event.
pub open spec fn phase_after(phase: WorkerPhase, event: WorkerEvent) -> WorkerPhase {
    match (phase, event) {
        (WorkerPhase::Starting, WorkerEvent::ContextReady) => WorkerPhase::Waiting,
        (WorkerPhase::Starting, WorkerEvent::ContextFailed) => WorkerPhase::Terminated,
        (WorkerPhase::Waiting, WorkerEvent::CandidateTaken) => WorkerPhase::Proving,
        (WorkerPhase::Waiting, WorkerEvent::QueueClosed) => WorkerPhase::Terminated,
        (WorkerPhase::Proving, WorkerEvent::AttemptDone) => WorkerPhase::Waiting,
        (WorkerPhase::Proving, WorkerEvent::AttemptFailed) => WorkerPhase::Waiting,
        _ => phase,
    }
}

/// What a worker does on an event.
pub open spec fn worker_action(phase: WorkerPhase, event: WorkerEvent) -> WorkerAction {
    match (phase, event) {
        (WorkerPhase::Starting, WorkerEvent::ContextReady) => WorkerAction::AwaitCandidate,
        (WorkerPhase::Starting, WorkerEvent::ContextFailed) => WorkerAction::Exit,
        (WorkerPhase::Waiting, WorkerEvent::CandidateTaken) => WorkerAction::Prove,
        (WorkerPhase::Waiting, WorkerEvent::QueueClosed) => WorkerAction::Exit,
        (WorkerPhase::Proving, WorkerEvent::AttemptDone) => WorkerAction::ForwardProofs,
        (WorkerPhase::Proving, WorkerEvent::AttemptFailed) => WorkerAction::ReportFailure,
        _ => WorkerAction::Ignore,
    }
}

/// One step of a worker: its next phase and what it does.
///
/// A failed attempt does not end the worker; only a context that cannot be
/// built and a closed queue do.
pub fn worker_step(phase: WorkerPhase, event: WorkerEvent) -> (r: (WorkerPhase, WorkerAction))
    ensures
        r.0 == phase_after(phase, event),
        r.1 == worker_action(phase, event),
{
    match phase {
        WorkerPhase::Starting => match event {
            WorkerEvent::ContextReady => (WorkerPhase::Waiting, WorkerAction::AwaitCandidate),
            WorkerEvent::ContextFailed => (WorkerPhase::Terminated, WorkerAction::Exit),
            _ => (phase, WorkerAction::Ignore),
        },
        WorkerPhase::Waiting => match event {
            WorkerEvent::CandidateTaken => (WorkerPhase::Proving, WorkerAction::Prove),
            WorkerEvent::QueueClosed => (WorkerPhase::Terminated, WorkerAction::Exit),
            _ => (phase, WorkerAction::Ignore),
        },
        WorkerPhase::Proving => match event {
            WorkerEvent::AttemptDone => (WorkerPhase::Waiting, WorkerAction::ForwardProofs),
            WorkerEvent::AttemptFailed => (WorkerPhase::Waiting, WorkerAction::ReportFailure),
            _ => (phase, WorkerAction::Ignore),
        },
        WorkerPhase::Terminated => (phase, WorkerAction::Ignore),
    }
}

/// A worker works on one candidate at a time: while it is proving, the
/// only events that change its phase are the end of that attempt, and a
/// failed attempt leaves it alive and waiting.
pub proof fn lemma_one_attempt_at_a_time(event: WorkerEvent)
    ensures
        phase_after(WorkerPhase::Proving, event) == WorkerPhase::Proving || phase_after(
            WorkerPhase::Proving,
            event,
        ) == WorkerPhase::Waiting,
        worker_action(WorkerPhase::Proving, event) != WorkerAction::Prove,
        worker_action(WorkerPhase::Proving, event) != WorkerAction::Exit,
        phase_after(WorkerPhase::Proving, WorkerEvent::AttemptFailed) == WorkerPhase::Waiting,
{
}

} // verus!
