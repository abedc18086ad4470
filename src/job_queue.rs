//! The shared job queue of a fixed-size worker pool.
//!
//! The queue decides which job a worker runs next and when workers stop: jobs leave in the
//! order they were submitted, each one exactly once, and once the queue is closed no job is
//! accepted and the workers stop as soon as the queue is drained. Threads and locking stand
//! around it; every decision is made here.
use vstd::prelude::*;
use std::collections::VecDeque;

verus! {

/// The abstract state of a job queue: the jobs that wait, in order, and whether it is closed.
pub struct QueueState<J> {
    pub pending: Seq<J>,
    pub closed: bool,
}

/// What a worker is told when it asks for work.
pub enum Take<J> {
    /// Run this job.
    Job(J),
    /// Nothing waits yet: block until something is submitted or the queue is closed.
    Wait,
    /// The queue is closed and drained: leave the loop.
    Shutdown,
}

/// Why a submission was refused.
#[derive(PartialEq, Eq, Structural, Debug, Clone, Copy)]
pub enum QueueError {
    /// The queue was closed before the job came.
    Closed,
}

/// The state of a fresh queue.
pub open spec fn initial_state<J>() -> QueueState<J> {
    QueueState { pending: Seq::empty(), closed: false }
}

/// The state after a submission: the job joins the end unless the queue is closed.
pub open spec fn submit_spec<J>(s: QueueState<J>, job: J) -> QueueState<J> {
    if s.closed {
        s
    } else {
        QueueState { pending: s.pending.push(job), closed: false }
    }
}

/// The state after jobs are submitted one after another.
pub open spec fn submit_all<J>(s: QueueState<J>, jobs: Seq<J>) -> QueueState<J>
    decreases jobs.len(),
{
    if jobs.len() == 0 {
        s
    } else {
        submit_spec(submit_all(s, jobs.drop_last()), jobs.last())
    }
}

/// The state after the queue is closed.
pub open spec fn close_spec<J>(s: QueueState<J>) -> QueueState<J> {
    QueueState { pending: s.pending, closed: true }
}

/// The state after one take, and what the worker is told.
pub open spec fn take_spec<J>(s: QueueState<J>) -> (QueueState<J>, Take<J>) {
    if s.pending.len() > 0 {
        (QueueState { pending: s.pending.drop_first(), closed: s.closed }, Take::Job(s.pending[0]))
    } else if s.closed {
        (s, Take::Shutdown)
    } else {
        (s, Take::Wait)
    }
}

/// What `n` takes in a row hand out, and the state they leave.
pub open spec fn take_n<J>(s: QueueState<J>, n: nat) -> (QueueState<J>, Seq<Take<J>>)
    decreases n,
{
    if n == 0 {
        (s, Seq::empty())
    } else {
        let (s1, t) = take_spec(s);
        let (s2, ts) = take_n(s1, (n - 1) as nat);
        (s2, seq![t] + ts)
    }
}

/// The jobs as a worker receives them.
pub open spec fn as_takes<J>(jobs: Seq<J>) -> Seq<Take<J>> {
    jobs.map_values(|j: J| Take::Job(j))
}

/// A FIFO job queue with a closed flag.
pub struct JobQueue<J> {
    pending: VecDeque<J>,
    closed: bool,
}

impl<J> View for JobQueue<J> {
    type V = QueueState<J>;

    closed spec fn view(&self) -> QueueState<J> {
        QueueState { pending: self.pending@, closed: self.closed }
    }
}

impl<J> JobQueue<J> {
    /// An open queue with no jobs.
    pub fn new() -> (r: Self)
        ensures
            r@ == initial_state::<J>(),
    {
        JobQueue { pending: VecDeque::new(), closed: false }
    }

    /// Enqueues `job` and returns at once; a closed queue refuses it and hands it back.
    pub fn submit(&mut self, job: J) -> (r: Result<(), (QueueError, J)>)
        ensures
            final(self)@ == submit_spec(old(self)@, job),
            old(self)@.closed ==> r == Err::<(), (QueueError, J)>((QueueError::Closed, job)),
            !old(self)@.closed ==> r is Ok,
    {
        if self.closed {
            Err((QueueError::Closed, job))
        } else {
            self.pending.push_back(job);
            Ok(())
        }
    }

    /// Closes the queue: jobs already in it are still handed out, new ones are refused.
    pub fn close(&mut self)
        ensures
            final(self)@ == close_spec(old(self)@),
    {
        self.closed = true;
    }

    /// Whether the queue is closed.
    pub fn is_closed(&self) -> (r: bool)
        ensures
            r == self@.closed,
    {
        self.closed
    }

    /// The number of jobs that wait.
    pub fn len(&self) -> (r: usize)
        ensures
            r == self@.pending.len(),
    {
        self.pending.len()
    }

    /// Hands the oldest waiting job to a worker, or tells it to wait or to stop.
    pub fn take(&mut self) -> (r: Take<J>)
        ensures
            (final(self)@, r) == take_spec(old(self)@),
    {
        match self.pending.pop_front() {
            Some(job) => {
                assert(final(self)@.pending =~= old(self)@.pending.drop_first());
                Take::Job(job)
            },
            None => {
                if self.closed {
                    Take::Shutdown
                } else {
                    Take::Wait
                }
            },
        }
    }
}

/// Once a queue is closed, takes hand out exactly the jobs that wait, each once and in order,
/// and every take after that says to shut down.
pub proof fn lemma_closed_queue_drains<J>(s: QueueState<J>, extra: nat)
    requires
        s.closed,
    ensures
        ({
            let (s1, ts) = take_n(s, s.pending.len() + extra);
            &&& s1 == QueueState { pending: Seq::<J>::empty(), closed: true }
            &&& ts.len() == s.pending.len() + extra
            &&& ts.subrange(0, s.pending.len() as int) == as_takes(s.pending)
            &&& forall|i: int| s.pending.len() <= i < ts.len() ==> #[trigger] ts[i] == Take::<J>::Shutdown
        }),
    decreases s.pending.len() + extra,
{
    let n = s.pending.len();
    if n > 0 {
        let (s1, t) = take_spec(s);
        lemma_closed_queue_drains(s1, extra);
        let (s2, ts1) = take_n(s1, (n - 1 + extra) as nat);
        assert(take_n(s, n + extra) == (s2, seq![t] + ts1));
        let ts = seq![t] + ts1;
        assert(ts.subrange(0, n as int) =~= as_takes(s.pending)) by {
            assert forall|i: int| 0 <= i < n implies ts.subrange(0, n as int)[i] == as_takes(s.pending)[i] by {
                if i > 0 {
                    assert(ts1.subrange(0, (n - 1) as int)[i - 1] == as_takes(s1.pending)[i - 1]);
                }
            }
        }
        assert forall|i: int| n <= i < ts.len() implies #[trigger] ts[i] == Take::<J>::Shutdown by {
            assert(ts[i] == ts1[i - 1]);
        }
    } else if extra > 0 {
        lemma_closed_queue_drains(s, (extra - 1) as nat);
        let (s1, ts1) = take_n(s, (extra - 1) as nat);
        assert(take_n(s, extra) == (s1, seq![Take::<J>::Shutdown] + ts1));
        let ts = seq![Take::<J>::Shutdown] + ts1;
        assert forall|i: int| 0 <= i < ts.len() implies #[trigger] ts[i] == Take::<J>::Shutdown by {
            if i > 0 {
                assert(ts[i] == ts1[i - 1]);
            }
        }
        assert(ts.subrange(0, 0) =~= as_takes(s.pending));
    } else {
        assert(s.pending =~= Seq::<J>::empty());
        assert(as_takes(s.pending) =~= Seq::<Take<J>>::empty());
    }
}

proof fn lemma_submit_all_open<J>(jobs: Seq<J>)
    ensures
        submit_all(initial_state::<J>(), jobs) == (QueueState { pending: jobs, closed: false }),
    decreases jobs.len(),
{
    if jobs.len() > 0 {
        lemma_submit_all_open(jobs.drop_last());
        assert(jobs.drop_last().push(jobs.last()) =~= jobs);
    } else {
        assert(jobs =~= Seq::<J>::empty());
    }
}

/// Every job submitted to a fresh queue before it is closed is handed out exactly once, in
/// submission order, and after the last of them every worker is told to shut down; no job
/// is lost and none runs twice, however many takes the workers make.
pub proof fn lemma_every_job_runs_once<J>(jobs: Seq<J>, extra: nat)
    ensures
        ({
            let s = close_spec(submit_all(initial_state::<J>(), jobs));
            let (s1, ts) = take_n(s, jobs.len() + extra);
            &&& ts.subrange(0, jobs.len() as int) == as_takes(jobs)
            &&& forall|i: int| jobs.len() <= i < ts.len() ==> #[trigger] ts[i] == Take::<J>::Shutdown
            &&& s1.pending.len() == 0
        }),
{
    lemma_submit_all_open(jobs);
    lemma_closed_queue_drains(close_spec(submit_all(initial_state::<J>(), jobs)), extra);
}

/// One operation on a job queue, as producers and workers interleave them.
pub enum QueueEvent<J> {
    Submit(J),
    Take,
    Close,
}

/// Replays operations on a fresh queue: the state they leave, the jobs it accepted, and the
/// jobs it handed to workers, each in order.
pub open spec fn replay<J>(events: Seq<QueueEvent<J>>) -> (QueueState<J>, Seq<J>, Seq<J>)
    decreases events.len(),
{
    if events.len() == 0 {
        (initial_state(), Seq::empty(), Seq::empty())
    } else {
        let (s, accepted, handed) = replay(events.drop_last());
        match events.last() {
            QueueEvent::Submit(j) => (
                submit_spec(s, j),
                if s.closed { accepted } else { accepted.push(j) },
                handed,
            ),
            QueueEvent::Take => {
                let (s1, t) = take_spec(s);
                (s1, accepted, match t {
                    Take::Job(j) => handed.push(j),
                    _ => handed,
                })
            },
            QueueEvent::Close => (close_spec(s), accepted, handed),
        }
    }
}

proof fn lemma_replay_conserves<J>(events: Seq<QueueEvent<J>>)
    ensures
        ({
            let (s, accepted, handed) = replay(events);
            handed + s.pending == accepted
        }),
    decreases events.len(),
{
    if events.len() == 0 {
        assert(Seq::<J>::empty() + Seq::<J>::empty() =~= Seq::<J>::empty());
    } else {
        lemma_replay_conserves(events.drop_last());
        let (s, accepted, handed) = replay(events.drop_last());
        match events.last() {
            QueueEvent::Submit(j) => {
                if !s.closed {
                    assert(handed + s.pending.push(j) =~= (handed + s.pending).push(j));
                }
            },
            QueueEvent::Take => {
                if s.pending.len() > 0 {
                    assert(handed.push(s.pending[0]) + s.pending.drop_first() =~= handed + s.pending);
                }
            },
            QueueEvent::Close => {},
        }
    }
}

/// Whatever the interleaving of submissions, takes and closing, every job the queue accepted
/// has either been handed out already or still waits, once each and in submission order;
/// and when the queue is then closed, the takes that follow hand out exactly the waiting
/// jobs before telling every worker to shut down. So shutdown runs every accepted job
/// exactly once.
pub proof fn lemma_every_accepted_job_runs_once<J>(events: Seq<QueueEvent<J>>, extra: nat)
    ensures
        ({
            let (s, accepted, handed) = replay(events);
            let (s2, ts) = take_n(close_spec(s), s.pending.len() + extra);
            &&& handed + s.pending == accepted
            &&& ts.subrange(0, s.pending.len() as int) == as_takes(s.pending)
            &&& forall|i: int| s.pending.len() <= i < ts.len() ==> #[trigger] ts[i] == Take::<J>::Shutdown
            &&& s2.pending.len() == 0
        }),
{
    lemma_replay_conserves(events);
    let (s, accepted, handed) = replay(events);
    lemma_closed_queue_drains(close_spec(s), extra);
}

/// A job submitted after the queue is closed is refused and leaves the queue as it was.
pub proof fn lemma_closed_refuses<J>(s: QueueState<J>, job: J)
    requires
        s.closed,
    ensures
        submit_spec(s, job) == s,
{
}

} // verus!
