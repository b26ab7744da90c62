//! The job queue that a pool of workers drains: jobs are handed out once
//! each, in the order they came, until the queue is closed; a closed queue
//! takes no job and hands none out. The threads themselves run outside.

use vstd::prelude::*;
use std::collections::VecDeque;

verus! {

/// A job was submitted after shutdown had begun.
#[derive(Debug, PartialEq, Eq, Structural, Clone, Copy)]
pub struct PoolShutdown;

/// What a worker does next.
#[derive(Debug)]
pub enum Step<T> {
    /// Run this job.
    Run(T),
    /// Nothing to do yet: wait for a job.
    Wait,
    /// The pool is shutting down: stop.
    Exit,
}

/// The jobs waiting, oldest first, and whether the queue is closed.
pub type QueueState<T> = (Seq<T>, bool);

/// A queue after a submission: a closed queue refuses the job.
pub open spec fn submitted<T>(st: QueueState<T>, job: T) -> QueueState<T> {
    if st.1 {
        st
    } else {
        (st.0.push(job), false)
    }
}

/// The next step of a worker and the queue after it.
pub open spec fn stepped<T>(st: QueueState<T>) -> (Step<T>, QueueState<T>) {
    if st.1 {
        (Step::Exit, st)
    } else if st.0.len() == 0 {
        (Step::Wait, st)
    } else {
        (Step::Run(st.0[0]), (st.0.drop_first(), false))
    }
}

/// A queue after each of `js` was submitted in turn.
pub open spec fn submit_all<T>(st: QueueState<T>, js: Seq<T>) -> QueueState<T>
    decreases js.len(),
{
    if js.len() == 0 {
        st
    } else {
        submitted(submit_all(st, js.drop_last()), js.last())
    }
}

/// The jobs that workers run, in order, stepping until they are told to
/// wait or to stop.
pub open spec fn runs<T>(st: QueueState<T>) -> Seq<T>
    decreases st.0.len(),
{
    if !st.1 && st.0.len() > 0 {
        seq![st.0[0]] + runs((st.0.drop_first(), false))
    } else {
        Seq::empty()
    }
}

/// The number of workers a pool gets for a requested size: at least one.
pub fn pool_size(requested: usize) -> (r: usize)
    ensures
        r == if requested == 0 { 1 } else { requested },
{
    if requested == 0 {
        1
    } else {
        requested
    }
}

/// The shared queue of a worker pool.
pub struct JobQueue<T> {
    jobs: VecDeque<T>,
    closed: bool,
}

impl<T> View for JobQueue<T> {
    type V = QueueState<T>;

    closed spec fn view(&self) -> QueueState<T> {
        (self.jobs@, self.closed)
    }
}

impl<T> JobQueue<T> {
    /// An open, empty queue.
    pub fn new() -> (r: JobQueue<T>)
        ensures
            r@ == (Seq::<T>::empty(), false),
    {
        JobQueue { jobs: VecDeque::new(), closed: false }
    }

    /// Adds a job at the back; fails once the queue is closed.
    pub fn execute(&mut self, job: T) -> (r: Result<(), PoolShutdown>)
        ensures
            final(self)@ == submitted(old(self)@, job),
            r is Err <==> old(self)@.1,
    {
        if self.closed {
            Err(PoolShutdown)
        } else {
            self.jobs.push_back(job);
            Ok(())
        }
    }

    /// What a worker does next: the oldest job, or wait, or stop once the
    /// queue is closed.
    pub fn next_step(&mut self) -> (r: Step<T>)
        ensures
            (r, final(self)@) == stepped(old(self)@),
    {
        if self.closed {
            return Step::Exit;
        }
        match self.jobs.pop_front() {
            Some(job) => Step::Run(job),
            None => Step::Wait,
        }
    }

    /// Closes the queue: jobs not yet handed out are dropped, never run.
    pub fn close(&mut self)
        ensures
            final(self)@ == (Seq::<T>::empty(), true),
    {
        self.closed = true;
        self.jobs.clear();
    }

    /// Whether shutdown has begun.
    pub fn is_closed(&self) -> (r: bool)
        ensures
            r == self@.1,
    {
        self.closed
    }

    /// The number of jobs waiting.
    pub fn pending(&self) -> (r: usize)
        ensures
            r == self@.0.len(),
    {
        self.jobs.len()
    }
}

proof fn lemma_submit_all_open<T>(js: Seq<T>)
    ensures
        submit_all((Seq::<T>::empty(), false), js) == (js, false),
    decreases js.len(),
{
    if js.len() > 0 {
        lemma_submit_all_open(js.drop_last());
        assert(js.drop_last().push(js.last()) =~= js);
    }
}

proof fn lemma_runs_open<T>(s: Seq<T>)
    ensures
        runs((s, false)) == s,
    decreases s.len(),
{
    if s.len() > 0 {
        lemma_runs_open(s.drop_first());
        assert(seq![s[0]] + s.drop_first() =~= s);
    }
}

/// Every submitted job runs exactly once, in the order of submission: on an
/// open queue, the workers' steps hand out the jobs `js` one by one, each
/// once, and then tell them to wait.
pub proof fn every_job_runs_once<T>(js: Seq<T>)
    ensures
        runs(submit_all((Seq::<T>::empty(), false), js)) == js,
        stepped(submit_all((Seq::<T>::empty(), false), js)).0 matches Step::Run(j) ==> j == js[0],
{
    lemma_submit_all_open(js);
    lemma_runs_open(js);
}

proof fn lemma_submit_all_closed<T>(js: Seq<T>)
    ensures
        submit_all((Seq::<T>::empty(), true), js) == (Seq::<T>::empty(), true),
    decreases js.len(),
{
    if js.len() > 0 {
        lemma_submit_all_closed(js.drop_last());
    }
}

/// Nothing runs after shutdown: once the queue is closed, any later
/// submissions are refused, no job is handed out, and every worker is told
/// to stop.
pub proof fn nothing_runs_after_close<T>(js: Seq<T>)
    ensures
        submit_all((Seq::<T>::empty(), true), js) == (Seq::<T>::empty(), true),
        runs(submit_all((Seq::<T>::empty(), true), js)) == Seq::<T>::empty(),
        stepped(submit_all((Seq::<T>::empty(), true), js)).0 is Exit,
{
    lemma_submit_all_closed(js);
}

} // verus!
