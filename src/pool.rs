use vstd::prelude::*;

verus! {

/// Where a submitted job stands.
#[derive(Debug, Clone, Copy, PartialEq, Eq, Structural)]
pub enum JobState {
    /// Waiting in the queue.
    Queued,
    /// Being run by the worker with this index.
    Running(usize),
    /// Run to completion.
    Finished,
}

/// What a worker that asks for work is to do next.
#[derive(Debug, Clone, Copy, PartialEq, Eq, Structural)]
pub enum WorkerAction {
    /// Run the job with this identifier, then report it finished.
    Run(usize),
    /// Block until a job is submitted or the queue is closed.
    Wait,
    /// The queue is closed and empty: leave the loop.
    Stop,
}

#[derive(Debug, Clone, Copy, PartialEq, Eq, Structural)]
pub enum PoolError {
    /// A pool needs at least one worker.
    NoWorkers,
}

impl PoolError {
    pub fn message(&self) -> (r: &str)
        ensures
            r@ == "Thread Error: Request 1 or more threads."@,
    {
        match self {
            PoolError::NoWorkers => "Thread Error: Request 1 or more threads.",
        }
    }
}

/// The bookkeeping of a worker pool: one FIFO queue of job identifiers shared by
/// a fixed number of workers. Job identifiers are handed out in submission order
/// from zero; the job with identifier `i` is the `i`-th submitted.
pub struct JobLedger {
    size: usize,
    states: Vec<JobState>,
    queue: Vec<usize>,
    running: Vec<Option<usize>>,
    finished: Vec<usize>,
    closed: bool,
}

/// The abstract state of a ledger.
pub struct LedgerView {
    /// Number of workers, fixed at construction.
    pub size: nat,
    /// The state of each submitted job, by identifier.
    pub states: Seq<JobState>,
    /// Queued jobs, oldest first.
    pub queue: Seq<usize>,
    /// The job that each worker is running, if any.
    pub running: Seq<Option<usize>>,
    /// Finished jobs, in order of completion.
    pub finished: Seq<usize>,
    /// Whether no more jobs are accepted.
    pub closed: bool,
}

impl LedgerView {
    /// Every submitted job is in exactly one place: queued once, running on the
    /// one worker that its state names, or finished once.
    pub open spec fn wf(self) -> bool {
        &&& self.size >= 1
        &&& self.running.len() == self.size
        &&& self.states.len() <= usize::MAX
        &&& self.queue.no_duplicates()
        &&& self.finished.no_duplicates()
        &&& forall|i: int|
            0 <= i < self.queue.len() ==> #[trigger] self.queue[i] < self.states.len()
                && self.states[self.queue[i] as int] == JobState::Queued
        &&& forall|id: int|
            0 <= id < self.states.len() && #[trigger] self.states[id] == JobState::Queued
                ==> self.queue.contains(id as usize)
        &&& forall|w: int|
            0 <= w < self.running.len() && #[trigger] self.running[w] is Some ==> self.running[w]->0
                < self.states.len() && self.states[self.running[w]->0 as int] == JobState::Running(
                w as usize,
            )
        &&& forall|id: int|
            0 <= id < self.states.len() && (#[trigger] self.states[id]) is Running ==> self.states[id]->Running_0
                < self.size && self.running[self.states[id]->Running_0 as int] == Some(id as usize)
        &&& forall|i: int|
            0 <= i < self.finished.len() ==> #[trigger] self.finished[i] < self.states.len()
                && self.states[self.finished[i] as int] == JobState::Finished
        &&& forall|id: int|
            0 <= id < self.states.len() && #[trigger] self.states[id] == JobState::Finished
                ==> self.finished.contains(id as usize)
    }

    /// No job is queued and no worker is running one.
    pub open spec fn drained(self) -> bool {
        self.queue.len() == 0 && forall|w: int| 0 <= w < self.running.len() ==> #[trigger] self.running[w] is None
    }
}

impl View for JobLedger {
    type V = LedgerView;

    closed spec fn view(&self) -> LedgerView {
        LedgerView {
            size: self.size as nat,
            states: self.states@,
            queue: self.queue@,
            running: self.running@,
            finished: self.finished@,
            closed: self.closed,
        }
    }
}

impl JobLedger {
    /// A ledger for `size` workers, all idle, with no job submitted.
    pub fn new(size: usize) -> (r: Result<JobLedger, PoolError>)
        ensures
            size == 0 <==> r is Err,
            r is Err ==> r == Err::<JobLedger, PoolError>(PoolError::NoWorkers),
            r matches Ok(l) ==> l@.wf() && l@.size == size && l@.states.len() == 0 && l@.drained()
                && l@.finished.len() == 0 && !l@.closed,
    {
        if size == 0 {
            return Err(PoolError::NoWorkers);
        }
        let mut running: Vec<Option<usize>> = Vec::new();
        let mut i: usize = 0;
        while i < size
            invariant
                i <= size,
                running@.len() == i,
                forall|w: int| 0 <= w < i ==> #[trigger] running@[w] is None,
            decreases size - i,
        {
            running.push(None);
            i = i + 1;
        }
        Ok(JobLedger {
            size,
            states: Vec::new(),
            queue: Vec::new(),
            running,
            finished: Vec::new(),
            closed: false,
        })
    }

    pub fn size(&self) -> (r: usize)
        ensures
            r == self@.size,
    {
        self.size
    }

    /// Whether `worker` is a worker of the pool and runs no job.
    pub fn is_idle(&self, worker: usize) -> (r: bool)
        ensures
            r == (worker < self@.running.len() && self@.running[worker as int] is None),
    {
        worker < self.running.len() && self.running[worker].is_none()
    }

    /// Whether another job can be submitted.
    pub fn accepts_jobs(&self) -> (r: bool)
        ensures
            r == (!self@.closed && self@.states.len() < usize::MAX),
    {
        !self.closed && self.states.len() < usize::MAX
    }

    /// Queues a new job and returns its identifier, or `None` once the ledger is closed.
    pub fn submit(&mut self) -> (r: Option<usize>)
        requires
            old(self)@.wf(),
            old(self)@.states.len() < usize::MAX,
        ensures
            final(self)@.wf(),
            old(self)@.closed <==> r is None,
            r is None ==> final(self)@ == old(self)@,
            r matches Some(id) ==> id == old(self)@.states.len() && final(self)@ == (LedgerView {
                states: old(self)@.states.push(JobState::Queued),
                queue: old(self)@.queue.push(id),
                ..old(self)@
            }),
    {
        if self.closed {
            return None;
        }
        let id = self.states.len();
        self.states.push(JobState::Queued);
        self.queue.push(id);
        let ghost v = self@;
        assert(!old(self)@.queue.contains(id));
        assert forall|x: int|
            0 <= x < v.states.len() && #[trigger] v.states[x] == JobState::Queued implies v.queue.contains(
            x as usize,
        ) by {
            if x < id {
                assert(old(self)@.states[x] == JobState::Queued);
                let k = choose|k: int| 0 <= k < old(self)@.queue.len() && old(self)@.queue[k] == x as usize;
                assert(v.queue[k] == x as usize);
            } else {
                assert(v.queue[v.queue.len() - 1] == id);
            }
        }
        assert forall|x: int|
            0 <= x < v.states.len() && #[trigger] v.states[x] == JobState::Finished implies v.finished.contains(
            x as usize,
        ) by {
            assert(old(self)@.states[x] == JobState::Finished);
        }
        assert forall|x: int|
            0 <= x < v.states.len() && (#[trigger] v.states[x]) is Running implies v.states[x]->Running_0 < v.size
            && v.running[v.states[x]->Running_0 as int] == Some(x as usize) by {
            assert(old(self)@.states[x] == v.states[x]);
        }
        assert(self@ =~= (LedgerView {
            states: old(self)@.states.push(JobState::Queued),
            queue: old(self)@.queue.push(id),
            ..old(self)@
        }));
        Some(id)
    }

    /// Hands the oldest queued job to the idle `worker`; with none queued, the
    /// worker waits, or stops once the ledger is closed.
    pub fn next_action(&mut self, worker: usize) -> (r: WorkerAction)
        requires
            old(self)@.wf(),
            worker < old(self)@.size,
            old(self)@.running[worker as int] is None,
        ensures
            final(self)@.wf(),
            old(self)@.queue.len() > 0 ==> r == WorkerAction::Run(old(self)@.queue[0])
                && final(self)@ == (LedgerView {
                states: old(self)@.states.update(old(self)@.queue[0] as int, JobState::Running(worker)),
                queue: old(self)@.queue.drop_first(),
                running: old(self)@.running.update(worker as int, Some(old(self)@.queue[0])),
                ..old(self)@
            }),
            old(self)@.queue.len() == 0 ==> final(self)@ == old(self)@ && r == (if old(self)@.closed {
                WorkerAction::Stop
            } else {
                WorkerAction::Wait
            }),
    {
        if self.queue.len() == 0 {
            return if self.closed {
                WorkerAction::Stop
            } else {
                WorkerAction::Wait
            };
        }
        let ghost o = self@;
        let id = self.queue.remove(0);
        self.states.set(id, JobState::Running(worker));
        self.running.set(worker, Some(id));
        let ghost v = self@;
        assert(v.queue =~= o.queue.drop_first());
        assert forall|i: int| 0 <= i < v.queue.len() implies #[trigger] v.queue[i] < v.states.len()
            && v.states[v.queue[i] as int] == JobState::Queued by {
            assert(v.queue[i] == o.queue[i + 1]);
        }
        assert forall|x: int|
            0 <= x < v.states.len() && #[trigger] v.states[x] == JobState::Queued implies v.queue.contains(
            x as usize,
        ) by {
            assert(x != id as int);
            assert(o.queue[0] == id);
            assert(o.states[x] == JobState::Queued);
            let k = choose|k: int| 0 <= k < o.queue.len() && o.queue[k] == x as usize;
            assert(k != 0);
            assert(v.queue[k - 1] == x as usize);
        }
        assert forall|w: int| 0 <= w < v.running.len() && #[trigger] v.running[w] is Some implies v.running[w]->0
            < v.states.len() && v.states[v.running[w]->0 as int] == JobState::Running(w as usize) by {
            if w != worker {
                assert(o.states[o.running[w]->0 as int] == JobState::Running(w as usize));
            }
        }
        assert forall|x: int|
            0 <= x < v.states.len() && (#[trigger] v.states[x]) is Running implies v.states[x]->Running_0 < v.size
            && v.running[v.states[x]->Running_0 as int] == Some(x as usize) by {
            if x != id {
                assert(o.states[x] == v.states[x]);
            }
        }
        assert forall|i: int| 0 <= i < v.finished.len() implies #[trigger] v.finished[i] < v.states.len()
            && v.states[v.finished[i] as int] == JobState::Finished by {
            assert(o.states[o.finished[i] as int] == JobState::Finished);
        }
        assert forall|x: int|
            0 <= x < v.states.len() && #[trigger] v.states[x] == JobState::Finished implies v.finished.contains(
            x as usize,
        ) by {
            assert(o.states[x] == JobState::Finished);
        }
        WorkerAction::Run(id)
    }

    /// Records that `worker` has run its job to completion.
    pub fn finish(&mut self, worker: usize)
        requires
            old(self)@.wf(),
            worker < old(self)@.size,
            old(self)@.running[worker as int] is Some,
        ensures
            final(self)@.wf(),
            final(self)@ == (LedgerView {
                states: old(self)@.states.update(
                    old(self)@.running[worker as int]->0 as int,
                    JobState::Finished,
                ),
                running: old(self)@.running.update(worker as int, None),
                finished: old(self)@.finished.push(old(self)@.running[worker as int]->0),
                ..old(self)@
            }),
    {
        let ghost o = self@;
        let id = match self.running[worker] {
            Some(id) => id,
            None => 0,
        };
        assert(o.states[id as int] == JobState::Running(worker));
        assert(!o.finished.contains(id));
        self.states.set(id, JobState::Finished);
        self.running.set(worker, None);
        self.finished.push(id);
        let ghost v = self@;
        assert forall|i: int| 0 <= i < v.queue.len() implies #[trigger] v.queue[i] < v.states.len()
            && v.states[v.queue[i] as int] == JobState::Queued by {
            assert(o.states[o.queue[i] as int] == JobState::Queued);
        }
        assert forall|x: int|
            0 <= x < v.states.len() && #[trigger] v.states[x] == JobState::Queued implies v.queue.contains(
            x as usize,
        ) by {
            assert(o.states[x] == JobState::Queued);
        }
        assert forall|w: int| 0 <= w < v.running.len() && #[trigger] v.running[w] is Some implies v.running[w]->0
            < v.states.len() && v.states[v.running[w]->0 as int] == JobState::Running(w as usize) by {
            assert(o.states[o.running[w]->0 as int] == JobState::Running(w as usize));
        }
        assert forall|x: int|
            0 <= x < v.states.len() && (#[trigger] v.states[x]) is Running implies v.states[x]->Running_0 < v.size
            && v.running[v.states[x]->Running_0 as int] == Some(x as usize) by {
            assert(x != id as int);
            assert(o.states[x] == v.states[x]);
            assert(o.states[x] is Running);
            let w = o.states[x]->Running_0;
            assert(o.running[w as int] == Some(x as usize));
            assert(w != worker);
        }
        assert forall|i: int| 0 <= i < v.finished.len() implies #[trigger] v.finished[i] < v.states.len()
            && v.states[v.finished[i] as int] == JobState::Finished by {
            if i < o.finished.len() {
                assert(o.states[o.finished[i] as int] == JobState::Finished);
            }
        }
        assert forall|x: int|
            0 <= x < v.states.len() && #[trigger] v.states[x] == JobState::Finished implies v.finished.contains(
            x as usize,
        ) by {
            if x == id {
                assert(v.finished[v.finished.len() - 1] == id);
            } else {
                assert(o.states[x] == JobState::Finished);
                let k = choose|k: int| 0 <= k < o.finished.len() && o.finished[k] == x as usize;
                assert(v.finished[k] == x as usize);
            }
        }
        assert(v =~= (LedgerView {
            states: o.states.update(id as int, JobState::Finished),
            running: o.running.update(worker as int, None),
            finished: o.finished.push(id),
            ..o
        }));
    }

    /// Stops accepting jobs; the queued ones are still handed out.
    pub fn close(&mut self)
        requires
            old(self)@.wf(),
        ensures
            final(self)@.wf(),
            final(self)@ == (LedgerView { closed: true, ..old(self)@ }),
    {
        self.closed = true;
        assert(self@ =~= (LedgerView { closed: true, ..old(self)@ }));
    }
}

/// Once nothing is queued and no worker is busy, every submitted job has been
/// run to completion exactly once: the completion log holds each identifier
/// below the number of submitted jobs once, and nothing else, so its length is
/// that number, whatever the number of workers.
pub proof fn lemma_drained_runs_each_job_once(v: LedgerView)
    requires
        v.wf(),
        v.drained(),
    ensures
        forall|id: int| 0 <= id < v.states.len() ==> #[trigger] v.states[id] == JobState::Finished,
        forall|id: usize| id < v.states.len() ==> #[trigger] v.finished.contains(id),
        forall|i: int| 0 <= i < v.finished.len() ==> #[trigger] v.finished[i] < v.states.len(),
        v.finished.no_duplicates(),
        v.finished.len() == v.states.len(),
{
    let n = v.states.len();
    assert forall|id: int| 0 <= id < n implies #[trigger] v.states[id] == JobState::Finished by {
        if v.states[id] == JobState::Queued {
            assert(v.queue.contains(id as usize));
        }
        if v.states[id] is Running {
            assert(v.running[v.states[id]->Running_0 as int] is None);
        }
    }
    assert forall|id: usize| id < n implies #[trigger] v.finished.contains(id) by {
        assert(v.states[id as int] == JobState::Finished);
    }
    let all = Seq::new(n, |i: int| i as usize);
    assert(all.no_duplicates());
    all.unique_seq_to_set();
    v.finished.unique_seq_to_set();
    assert forall|x: usize| v.finished.contains(x) implies all.contains(x) by {
        let k = choose|k: int| 0 <= k < v.finished.len() && v.finished[k] == x;
        assert(all[x as int] == x);
    }
    assert forall|x: usize| all.contains(x) implies v.finished.contains(x) by {
        let k = choose|k: int| 0 <= k < all.len() && all[k] == x;
        assert(v.states[k] == JobState::Finished);
    }
    assert(v.finished.to_set() =~= all.to_set());
}

} // verus!
