//! The download worker's progress accounting: one task's byte counter and
//! lifecycle phase, advanced by what the copy loop observes (a chunk read,
//! end of stream, an I/O failure), emitting one progress event per step.
//! The reads and writes themselves happen outside; a worker is handed each
//! outcome as a plain value.

use vstd::prelude::*;

verus! {

/// The payload of one progress event, as it travels from a worker to the
/// aggregator.
#[derive(Debug, Clone, PartialEq, Eq)]
pub enum Progress {
    Started,
    InProgress { done: u64, total: u64 },
    Completed,
    Failed { reason: Vec<u8> },
}

/// One event of the multiplexed worker-to-display stream: which task, and
/// where it stands.
#[derive(Debug, Clone, PartialEq, Eq)]
pub struct ProgressEvent {
    pub name: Vec<u8>,
    pub progress: Progress,
}

/// The lifecycle stage of one transfer task.
#[derive(Debug, Clone, PartialEq, Eq)]
pub enum Phase {
    Queued,
    Started,
    InProgress,
    Completed,
    Failed { reason: Vec<u8> },
}

/// One in-flight or queued download: progress accounting for a single remote
/// file, owned by the worker that copies it.
#[derive(Debug)]
pub struct TransferTask {
    /// Segments of the remote path.
    pub remote_path: Vec<Vec<u8>>,
    /// The local file name: the remote file's base name.
    pub display_name: Vec<u8>,
    /// Size reported by the listing; 0 if unknown.
    pub total_bytes: u64,
    /// Bytes copied so far.
    pub bytes_done: u64,
    pub phase: Phase,
}

impl TransferTask {
    /// A worker may still make progress: the task has started and has not
    /// reached a terminal phase.
    pub open spec fn active(self) -> bool {
        self.phase is Started || self.phase is InProgress
    }

    pub open spec fn terminal(self) -> bool {
        self.phase is Completed || self.phase is Failed
    }

    pub open spec fn same_but_progress(self, other: TransferTask) -> bool {
        &&& self.remote_path == other.remote_path
        &&& self.display_name == other.display_name
        &&& self.total_bytes == other.total_bytes
    }

    pub fn new(remote_path: Vec<Vec<u8>>, display_name: Vec<u8>, total_bytes: u64) -> (t: Self)
        ensures
            t.remote_path == remote_path,
            t.display_name == display_name,
            t.total_bytes == total_bytes,
            t.bytes_done == 0,
            t.phase is Queued,
    {
        TransferTask {
            remote_path,
            display_name,
            total_bytes,
            bytes_done: 0,
            phase: Phase::Queued,
        }
    }

    /// The worker has opened the remote file and the local file: the task
    /// leaves the queue and announces itself.
    pub fn start(&mut self) -> (ev: ProgressEvent)
        requires
            old(self).phase is Queued,
        ensures
            final(self).same_but_progress(*old(self)),
            final(self).bytes_done == old(self).bytes_done,
            final(self).phase is Started,
            ev.name@ == old(self).display_name@,
            ev.progress is Started,
    {
        self.phase = Phase::Started;
        let name = crate::bytes::clone_bytes(&self.display_name);
        ProgressEvent { name, progress: Progress::Started }
    }

    /// One chunk of `n` bytes was read and written: the byte counter grows by
    /// exactly `n` (so it never decreases) and the emitted event carries the
    /// new counter.
    pub fn on_chunk(&mut self, n: usize) -> (ev: ProgressEvent)
        requires
            old(self).active(),
            n >= 1,
            old(self).bytes_done + n <= u64::MAX,
        ensures
            final(self).same_but_progress(*old(self)),
            final(self).phase is InProgress,
            final(self).bytes_done == old(self).bytes_done + n,
            final(self).bytes_done > old(self).bytes_done,
            ev.name@ == old(self).display_name@,
            ev.progress == (Progress::InProgress {
                done: final(self).bytes_done,
                total: final(self).total_bytes,
            }),
    {
        self.bytes_done = self.bytes_done + (n as u64);
        self.phase = Phase::InProgress;
        let name = crate::bytes::clone_bytes(&self.display_name);
        ProgressEvent {
            name,
            progress: Progress::InProgress { done: self.bytes_done, total: self.total_bytes },
        }
    }

    /// The stream ended: exactly one Completed event, after which the task is
    /// terminal and emits nothing further.
    pub fn on_eof(&mut self) -> (ev: ProgressEvent)
        requires
            old(self).active(),
        ensures
            final(self).same_but_progress(*old(self)),
            final(self).bytes_done == old(self).bytes_done,
            final(self).phase is Completed,
            final(self).terminal(),
            ev.name@ == old(self).display_name@,
            ev.progress is Completed,
    {
        self.phase = Phase::Completed;
        let name = crate::bytes::clone_bytes(&self.display_name);
        ProgressEvent { name, progress: Progress::Completed }
    }

    /// A read or write failed: exactly one Failed event with the reason,
    /// after which the task is terminal and emits nothing further. The worker
    /// never retries.
    pub fn on_error(&mut self, reason: Vec<u8>) -> (ev: ProgressEvent)
        requires
            old(self).active(),
        ensures
            final(self).same_but_progress(*old(self)),
            final(self).bytes_done == old(self).bytes_done,
            final(self).phase == (Phase::Failed { reason }),
            final(self).terminal(),
            ev.name@ == old(self).display_name@,
            ev.progress matches Progress::Failed { reason: r } && r@ == reason@,
    {
        let reason_copy = crate::bytes::clone_bytes(&reason);
        self.phase = Phase::Failed { reason };
        let name = crate::bytes::clone_bytes(&self.display_name);
        ProgressEvent { name, progress: Progress::Failed { reason: reason_copy } }
    }
}

/// What a worker observes at one step of its copy loop.
pub enum WorkerInput {
    /// A chunk of this many bytes was read and written.
    Chunk { n: u64 },
    /// End of stream.
    Eof,
    /// A read or write failed for this reason.
    Error { reason: Seq<u8> },
}

/// The abstract per-task state a run is stated over.
pub struct TaskV {
    pub total: u64,
    pub done: int,
    pub completed: bool,
    pub failed: bool,
}

/// The payload of one emitted event, abstractly.
pub enum EventV {
    InProgressV { done: int, total: u64 },
    CompletedV,
    FailedV { reason: Seq<u8> },
}

/// One step of the worker, as the exec transitions above implement it: a
/// chunk advances the counter and emits InProgress; Eof emits Completed;
/// an error emits Failed. A terminal task takes no step.
pub open spec fn worker_step(t: TaskV, input: WorkerInput) -> (TaskV, EventV) {
    match input {
        WorkerInput::Chunk { n } => (
            TaskV { done: t.done + n, ..t },
            EventV::InProgressV { done: t.done + n, total: t.total },
        ),
        WorkerInput::Eof => (TaskV { completed: true, ..t }, EventV::CompletedV),
        WorkerInput::Error { reason } => (TaskV { failed: true, ..t }, EventV::FailedV { reason }),
    }
}

/// A whole run: the worker consumes inputs one by one and stops at the first
/// terminal phase; inputs after that produce no event at all.
pub open spec fn worker_run(t: TaskV, inputs: Seq<WorkerInput>) -> (TaskV, Seq<EventV>)
    decreases inputs.len(),
{
    if inputs.len() == 0 || t.completed || t.failed {
        (t, Seq::empty())
    } else {
        let (t1, ev) = worker_step(t, inputs[0]);
        let (t2, evs) = worker_run(t1, inputs.skip(1));
        (t2, seq![ev] + evs)
    }
}

/// The sum of the first `k` chunk sizes.
pub open spec fn chunk_sum(cs: Seq<u64>, k: int) -> int
    decreases k,
{
    if k <= 0 {
        0
    } else {
        chunk_sum(cs, k - 1) + cs[k - 1]
    }
}

pub open spec fn chunks(cs: Seq<u64>) -> Seq<WorkerInput> {
    cs.map_values(|n: u64| WorkerInput::Chunk { n })
}

/// A task that has just started: no bytes copied, not terminal.
pub open spec fn fresh_task(total: u64) -> TaskV {
    TaskV { total, done: 0, completed: false, failed: false }
}

/// Law: a worker whose reads yield the chunks `cs` and then end of stream
/// emits one InProgress event per chunk, whose byte counts are the running
/// sums of `cs` — non-decreasing, ending at the file's size `chunk_sum(cs,
/// cs.len())` — followed by exactly one Completed event and nothing else.
pub proof fn lemma_worker_completes(total: u64, cs: Seq<u64>)
    ensures
        ({
            let (t, evs) = worker_run(fresh_task(total), chunks(cs).push(WorkerInput::Eof));
            &&& t.done == chunk_sum(cs, cs.len() as int)
            &&& t.completed && !t.failed
            &&& evs.len() == cs.len() + 1
            &&& forall|k: int|
                0 <= k < cs.len() ==> evs[k] == (EventV::InProgressV {
                    done: chunk_sum(cs, k + 1),
                    total,
                })
            &&& evs.last() == EventV::CompletedV
            &&& forall|k: int|
                0 <= k < cs.len() - 1 ==> #[trigger] event_done(evs[k]) <= event_done(evs[k + 1])
        }),
{
    lemma_worker_completes_from(fresh_task(total), cs);
    let (t, evs) = worker_run(fresh_task(total), chunks(cs).push(WorkerInput::Eof));
    assert forall|k: int| 0 <= k < cs.len() - 1 implies #[trigger] event_done(evs[k])
        <= event_done(evs[k + 1]) by {
        lemma_chunk_sum_nondecreasing(cs, k + 1, k + 2);
    }
}

/// The byte count an event carries (terminal events carry none).
pub open spec fn event_done(ev: EventV) -> int {
    match ev {
        EventV::InProgressV { done, .. } => done,
        _ => 0,
    }
}

pub proof fn lemma_chunk_sum_nondecreasing(cs: Seq<u64>, j: int, k: int)
    requires
        0 <= j <= k,
    ensures
        chunk_sum(cs, j) <= chunk_sum(cs, k),
    decreases k - j,
{
    if j < k {
        lemma_chunk_sum_nondecreasing(cs, j, k - 1);
    }
}

proof fn lemma_worker_completes_from(t: TaskV, cs: Seq<u64>)
    requires
        !t.completed,
        !t.failed,
    ensures
        ({
            let (t2, evs) = worker_run(t, chunks(cs).push(WorkerInput::Eof));
            &&& t2.done == t.done + chunk_sum(cs, cs.len() as int)
            &&& t2.completed && !t2.failed
            &&& t2.total == t.total
            &&& evs.len() == cs.len() + 1
            &&& forall|k: int|
                0 <= k < cs.len() ==> evs[k] == (EventV::InProgressV {
                    done: t.done + chunk_sum(cs, k + 1),
                    total: t.total,
                })
            &&& evs.last() == EventV::CompletedV
        }),
    decreases cs.len(),
{
    let inputs = chunks(cs).push(WorkerInput::Eof);
    if cs.len() == 0 {
        assert(inputs[0] == WorkerInput::Eof);
        assert(inputs.skip(1) =~= Seq::<WorkerInput>::empty());
        assert(chunk_sum(cs, 0) == 0);
        let t1 = worker_step(t, inputs[0]).0;
        assert(t1.completed);
        assert(worker_run(t1, inputs.skip(1)).1 =~= Seq::<EventV>::empty());
        assert(worker_run(t, inputs).1 =~= seq![EventV::CompletedV]);
    } else {
        assert(inputs[0] == (WorkerInput::Chunk { n: cs[0] }));
        let t1 = TaskV { done: t.done + cs[0], ..t };
        lemma_worker_completes_from(t1, cs.skip(1));
        assert(inputs.skip(1) =~= chunks(cs.skip(1)).push(WorkerInput::Eof));
        let (t2, evs_rest) = worker_run(t1, chunks(cs.skip(1)).push(WorkerInput::Eof));
        lemma_chunk_sum_shift(cs);
        let evs = worker_run(t, inputs).1;
        assert(evs =~= seq![
            EventV::InProgressV { done: t.done + cs[0], total: t.total },
        ] + evs_rest);
        assert forall|k: int| 0 <= k < cs.len() implies evs[k] == (EventV::InProgressV {
            done: t.done + chunk_sum(cs, k + 1),
            total: t.total,
        }) by {
            if k == 0 {
                assert(chunk_sum(cs, 1) == cs[0]);
            } else {
                assert(evs[k] == evs_rest[k - 1]);
                assert(evs_rest[k - 1] == (EventV::InProgressV {
                    done: t1.done + chunk_sum(cs.skip(1), k),
                    total: t.total,
                }));
            }
        }
    }
}

/// Running sums shift across dropping the first chunk.
proof fn lemma_chunk_sum_shift(cs: Seq<u64>)
    requires
        cs.len() > 0,
    ensures
        forall|k: int|
            1 <= k <= cs.len() ==> #[trigger] chunk_sum(cs, k) == cs[0] + chunk_sum(
                cs.skip(1),
                k - 1,
            ),
{
    assert forall|k: int| 1 <= k <= cs.len() implies #[trigger] chunk_sum(cs, k) == cs[0]
        + chunk_sum(cs.skip(1), k - 1) by {
        lemma_chunk_sum_shift_one(cs, k);
    }
}

proof fn lemma_chunk_sum_shift_one(cs: Seq<u64>, k: int)
    requires
        cs.len() > 0,
        1 <= k <= cs.len(),
    ensures
        chunk_sum(cs, k) == cs[0] + chunk_sum(cs.skip(1), k - 1),
    decreases k,
{
    if k == 1 {
        assert(chunk_sum(cs, 1) == chunk_sum(cs, 0) + cs[0]);
        assert(chunk_sum(cs, 0) == 0);
        assert(chunk_sum(cs.skip(1), 0) == 0);
    } else {
        lemma_chunk_sum_shift_one(cs, k - 1);
        assert(cs.skip(1)[k - 2] == cs[k - 1]);
        assert(chunk_sum(cs, k) == chunk_sum(cs, k - 1) + cs[k - 1]);
        assert(chunk_sum(cs.skip(1), k - 1) == chunk_sum(cs.skip(1), k - 2) + cs.skip(1)[k - 2]);
    }
}

/// Law: a worker whose read fails after the chunks `cs` emits the InProgress
/// events for those chunks, then exactly one Failed event carrying the
/// reason, and nothing further — whatever inputs would have followed.
pub proof fn lemma_worker_fails_once(total: u64, cs: Seq<u64>, reason: Seq<u8>, rest: Seq<
    WorkerInput,
>)
    ensures
        ({
            let script = chunks(cs).push(WorkerInput::Error { reason }) + rest;
            let (t, evs) = worker_run(fresh_task(total), script);
            &&& t.failed && !t.completed
            &&& evs.len() == cs.len() + 1
            &&& forall|k: int| 0 <= k < cs.len() ==> evs[k] is InProgressV
            &&& evs.last() == (EventV::FailedV { reason })
        }),
{
    lemma_worker_fails_from(fresh_task(total), cs, reason, rest);
}

proof fn lemma_worker_fails_from(t: TaskV, cs: Seq<u64>, reason: Seq<u8>, rest: Seq<WorkerInput>)
    requires
        !t.completed,
        !t.failed,
    ensures
        ({
            let script = chunks(cs).push(WorkerInput::Error { reason }) + rest;
            let (t2, evs) = worker_run(t, script);
            &&& t2.failed && !t2.completed
            &&& evs.len() == cs.len() + 1
            &&& forall|k: int| 0 <= k < cs.len() ==> evs[k] is InProgressV
            &&& evs.last() == (EventV::FailedV { reason })
        }),
    decreases cs.len(),
{
    let script = chunks(cs).push(WorkerInput::Error { reason }) + rest;
    if cs.len() == 0 {
        assert(script[0] == (WorkerInput::Error { reason }));
        let t1 = worker_step(t, script[0]).0;
        assert(t1.failed);
        assert(worker_run(t1, script.skip(1)).1 =~= Seq::<EventV>::empty());
        assert(worker_run(t, script).1 =~= seq![EventV::FailedV { reason }]);
    } else {
        assert(script[0] == (WorkerInput::Chunk { n: cs[0] }));
        let t1 = TaskV { done: t.done + cs[0], ..t };
        lemma_worker_fails_from(t1, cs.skip(1), reason, rest);
        assert(script.skip(1) =~= chunks(cs.skip(1)).push(WorkerInput::Error { reason }) + rest);
        let evs_rest = worker_run(t1, script.skip(1)).1;
        let evs = worker_run(t, script).1;
        assert(evs =~= seq![
            EventV::InProgressV { done: t.done + cs[0], total: t.total },
        ] + evs_rest);
        assert(evs.last() == evs_rest.last());
    }
}

} // verus!
