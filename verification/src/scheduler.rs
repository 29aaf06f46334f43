//! Task scheduling: dispatch one upload task per discovered file under a
//! concurrency cap, record every completion, and collect the results.
//!
//! The scheduler is a state machine. The caller owns the loop: while
//! [`Scheduler::can_dispatch`] holds it takes the next task from
//! [`Scheduler::dispatch`] and starts it; otherwise, while tasks are in
//! flight, it waits for one to finish and hands the outcome to
//! [`Scheduler::on_completion`]. A failed task is fatal: no further task is
//! dispatched past it, the ones already in flight are drained, and the first
//! error is what the whole operation reports. [`Scheduler::into_outcome`]
//! closes the run.

use vstd::prelude::*;

use crate::discovery::{ids_distinct, FileEntry};

verus! {

/// The concurrency cap used when the caller does not choose one.
pub const DEFAULT_CONCURRENCY: usize = 4;

/// One unit of work: upload the file at `path`, reporting under `id`.
pub struct UploadTask {
    /// Identifier of the file entry to be uploaded.
    pub id: u64,
    /// Path of the file to upload.
    pub path: String,
}

/// Why one file's transfer failed, as reported by the transfer.
#[derive(Debug)]
pub struct UploadError {
    /// A human-readable description of the fault.
    pub message: String,
}

/// The remote reference earned by one successfully uploaded file.
#[derive(Debug)]
pub struct UploadResult {
    /// Identifier of the uploaded file entry.
    pub id: u64,
    /// The caller-facing link under which the upload can be reached.
    pub remote_reference: String,
}

/// Dispatch and completion state for one orchestration run.
pub struct Scheduler {
    /// The discovered files, fixed for the run.
    pub entries: Vec<FileEntry>,
    /// Concurrency cap: how many tasks may run at once.
    pub cap: usize,
    /// How many tasks have been dispatched; `entries[..dispatched]` have one.
    pub dispatched: usize,
    /// Identifiers of the tasks that have finished, in completion order.
    pub completed: Vec<u64>,
    /// Results of the successful tasks, in completion order.
    pub results: Vec<UploadResult>,
    /// The first fatal task failure, if any task has failed.
    pub first_error: Option<UploadError>,
}

impl Scheduler {
    /// Number of tasks dispatched but not yet completed.
    pub open spec fn in_flight_spec(self) -> int {
        self.dispatched - self.completed@.len()
    }

    /// Whether a task for `id` has been dispatched.
    pub open spec fn id_dispatched(self, id: u64) -> bool {
        exists|i: int| 0 <= i < self.dispatched && self.entries@[i].id == id
    }

    /// Whether some task has failed, which is fatal for the run.
    pub open spec fn failed(self) -> bool {
        self.first_error is Some
    }

    /// Well-formedness: the cap is respected, completions are one per
    /// dispatched task, and results are one per completed task at most.
    pub open spec fn wf(self) -> bool {
        &&& 1 <= self.cap
        &&& self.dispatched <= self.entries@.len()
        &&& ids_distinct(self.entries@)
        &&& self.completed@.len() <= self.dispatched
        &&& self.in_flight_spec() <= self.cap
        &&& forall|i: int, j: int|
            0 <= i < j < self.completed@.len() ==> self.completed@[i] != self.completed@[j]
        &&& forall|i: int|
            0 <= i < self.completed@.len() ==> self.id_dispatched(#[trigger] self.completed@[i])
        &&& forall|i: int|
            0 <= i < self.results@.len() ==> self.completed@.contains(
                (#[trigger] self.results@[i]).id,
            )
        &&& forall|i: int, j: int|
            0 <= i < j < self.results@.len() ==> self.results@[i].id != self.results@[j].id
        &&& self.results@.len() <= self.completed@.len()
        &&& (self.first_error is None ==> self.results@.len() == self.completed@.len())
    }

    /// A fresh scheduler over the discovered files, nothing dispatched yet.
    pub fn new(entries: Vec<FileEntry>, cap: usize) -> (s: Scheduler)
        requires
            1 <= cap,
            ids_distinct(entries@),
        ensures
            s.wf(),
            s.entries@ == entries@,
            s.cap == cap,
            s.dispatched == 0,
            s.completed@ == Seq::<u64>::empty(),
            s.results@ == Seq::<UploadResult>::empty(),
            !s.failed(),
    {
        let s = Scheduler {
            entries,
            cap,
            dispatched: 0,
            completed: Vec::new(),
            results: Vec::new(),
            first_error: None,
        };
        proof {
            assert(s.completed@ =~= Seq::<u64>::empty());
            assert(s.results@ =~= Seq::<UploadResult>::empty());
        }
        s
    }

    /// Whether the next task may be dispatched now: no failure so far, a
    /// file is left, and a slot is free under the cap.
    pub open spec fn can_dispatch_spec(self) -> bool {
        &&& !self.failed()
        &&& self.dispatched < self.entries@.len()
        &&& self.in_flight_spec() < self.cap
    }

    /// Decide whether the next task may be dispatched now.
    pub fn can_dispatch(&self) -> (b: bool)
        requires
            self.wf(),
        ensures
            b == self.can_dispatch_spec(),
    {
        self.first_error.is_none() && self.dispatched < self.entries.len() && self.dispatched
            - self.completed.len() < self.cap
    }

    /// Number of tasks currently in flight.
    pub fn in_flight(&self) -> (n: usize)
        requires
            self.wf(),
        ensures
            n as int == self.in_flight_spec(),
    {
        self.dispatched - self.completed.len()
    }

    /// Take the task for the next file. The in-flight count grows by one
    /// and stays within the cap.
    pub fn dispatch(&mut self) -> (t: UploadTask)
        requires
            old(self).wf(),
            old(self).can_dispatch_spec(),
        ensures
            final(self).wf(),
            t.id == old(self).entries@[old(self).dispatched as int].id,
            t.path@ == old(self).entries@[old(self).dispatched as int].path@,
            final(self).dispatched == old(self).dispatched + 1,
            final(self).entries@ == old(self).entries@,
            final(self).cap == old(self).cap,
            final(self).completed@ == old(self).completed@,
            final(self).results@ == old(self).results@,
            final(self).first_error == old(self).first_error,
            final(self).in_flight_spec() == old(self).in_flight_spec() + 1,
            final(self).in_flight_spec() <= final(self).cap,
    {
        let n = self.entries.len();
        assert(self.dispatched < n);
        let e = &self.entries[self.dispatched];
        let t = UploadTask { id: e.id, path: e.path.clone() };
        self.dispatched = self.dispatched + 1;
        t
    }

    /// Record the outcome of the finished task for `id`: a success appends
    /// its result, a failure marks the run failed and keeps its first error.
    pub fn on_completion(&mut self, id: u64, outcome: Result<String, UploadError>)
        requires
            old(self).wf(),
            old(self).in_flight_spec() > 0,
            old(self).id_dispatched(id),
            !old(self).completed@.contains(id),
        ensures
            final(self).wf(),
            final(self).completed@ == old(self).completed@.push(id),
            final(self).entries@ == old(self).entries@,
            final(self).cap == old(self).cap,
            final(self).dispatched == old(self).dispatched,
            final(self).in_flight_spec() == old(self).in_flight_spec() - 1,
            match outcome {
                Ok(remote_reference) => {
                    &&& final(self).results@ == old(self).results@.push(
                        (UploadResult { id, remote_reference }),
                    )
                    &&& final(self).first_error == old(self).first_error
                },
                Err(e) => {
                    &&& final(self).results@ == old(self).results@
                    &&& final(self).first_error == (if old(self).failed() {
                        old(self).first_error
                    } else {
                        Some(e)
                    })
                },
            },
    {
        self.completed.push(id);
        proof {
            assert forall|i: int|
                0 <= i < self.results@.len() implies self.completed@.contains(
                (#[trigger] self.results@[i]).id,
            ) by {
                let k = choose|k: int|
                    0 <= k < old(self).completed@.len() && old(self).completed@[k]
                        == old(self).results@[i].id;
                assert(self.completed@[k] == self.results@[i].id);
            }
            assert forall|i: int|
                0 <= i < self.results@.len() implies (#[trigger] self.results@[i]).id != id by {
                let k = choose|k: int|
                    0 <= k < old(self).completed@.len() && old(self).completed@[k]
                        == old(self).results@[i].id;
                assert(old(self).completed@[k] == self.results@[i].id);
            }
            assert(self.completed@[self.completed@.len() - 1] == id);
        }
        match outcome {
            Ok(remote_reference) => {
                self.results.push(UploadResult { id, remote_reference });
            },
            Err(e) => {
                if self.first_error.is_none() {
                    self.first_error = Some(e);
                }
            },
        }
    }

    /// Whether the run is over: nothing in flight, and either a failure
    /// stopped dispatching or every file's task has been dispatched.
    pub open spec fn done_spec(self) -> bool {
        &&& self.in_flight_spec() == 0
        &&& (self.failed() || self.dispatched == self.entries@.len())
    }

    /// Decide whether the run is over.
    pub fn is_done(&self) -> (b: bool)
        requires
            self.wf(),
        ensures
            b == self.done_spec(),
    {
        self.dispatched == self.completed.len() && (self.first_error.is_some() || self.dispatched
            == self.entries.len())
    }

    /// Close the run: every file's result on success — exactly one per
    /// discovered file — or the first error on failure.
    pub fn into_outcome(self) -> (r: Result<Vec<UploadResult>, UploadError>)
        requires
            self.wf(),
            self.done_spec(),
        ensures
            match r {
                Ok(results) => {
                    &&& !self.failed()
                    &&& results@ == self.results@
                    &&& results@.len() == self.entries@.len()
                },
                Err(e) => {
                    &&& self.failed()
                    &&& Some(e) == self.first_error
                },
            },
    {
        match self.first_error {
            Some(e) => Err(e),
            None => Ok(self.results),
        }
    }

    /// The number of concurrently in-flight tasks never exceeds the cap.
    pub proof fn lemma_in_flight_bounded(self)
        requires
            self.wf(),
        ensures
            self.in_flight_spec() <= self.cap,
    {
    }

    /// Every result belongs to a discovered file: its identifier is the
    /// identifier of some entry.
    pub proof fn lemma_results_are_discovered(self, i: int)
        requires
            self.wf(),
            0 <= i < self.results@.len(),
        ensures
            exists|j: int|
                0 <= j < self.entries@.len() && self.entries@[j].id == self.results@[i].id,
    {
        let id = self.results@[i].id;
        let k = choose|k: int| 0 <= k < self.completed@.len() && self.completed@[k] == id;
        assert(self.id_dispatched(self.completed@[k]));
    }
}

} // verus!
