//! The mailbox of an actor: one consumer, messages processed strictly in the order sent.
//!
//! The mailbox holds what was sent and decides what the actor's thread does next: process an
//! item, wait, or finish. A stop request is queued behind the items sent before it, so they
//! are all processed first; once it is taken the actor has finished and refuses new items.
use vstd::prelude::*;
use std::collections::VecDeque;

verus! {

/// A message in an actor's mailbox.
pub enum Message<T> {
    /// An item to process.
    Work(T),
    /// The request to finish; nothing behind it is processed.
    Stop,
}

/// What the actor's thread does next.
pub enum Step<T> {
    /// Hand this item to the processor.
    Process(T),
    /// Nothing waits: block until a message arrives.
    Wait,
    /// Leave the loop: the actor has finished.
    Finish,
}

/// Why a send was refused.
#[derive(PartialEq, Eq, Structural, Debug, Clone, Copy)]
pub enum MailboxError {
    /// The actor has already finished.
    Closed,
}

/// The abstract state of a mailbox.
pub struct MailboxState<T> {
    pub queue: Seq<Message<T>>,
    pub finished: bool,
}

/// A fresh mailbox.
pub open spec fn initial_mailbox<T>() -> MailboxState<T> {
    MailboxState { queue: Seq::empty(), finished: false }
}

/// The state after an item is sent: it joins the end unless the actor has finished.
pub open spec fn send_spec<T>(s: MailboxState<T>, item: T) -> MailboxState<T> {
    if s.finished {
        s
    } else {
        MailboxState { queue: s.queue.push(Message::Work(item)), finished: false }
    }
}

/// The state after items are sent one after another by one producer.
pub open spec fn send_all<T>(s: MailboxState<T>, items: Seq<T>) -> MailboxState<T>
    decreases items.len(),
{
    if items.len() == 0 {
        s
    } else {
        send_spec(send_all(s, items.drop_last()), items.last())
    }
}

/// The state after a stop request is queued.
pub open spec fn stop_spec<T>(s: MailboxState<T>) -> MailboxState<T> {
    if s.finished {
        s
    } else {
        MailboxState { queue: s.queue.push(Message::Stop), finished: false }
    }
}

/// The state after the actor's thread takes one step, and the step.
pub open spec fn step_spec<T>(s: MailboxState<T>) -> (MailboxState<T>, Step<T>) {
    if s.finished {
        (s, Step::Finish)
    } else if s.queue.len() == 0 {
        (s, Step::Wait)
    } else {
        match s.queue[0] {
            Message::Work(item) => (
                MailboxState { queue: s.queue.drop_first(), finished: false },
                Step::Process(item),
            ),
            Message::Stop => (MailboxState { queue: Seq::empty(), finished: true }, Step::Finish),
        }
    }
}

/// The steps of `n` rounds of the actor's loop, and the state they leave.
pub open spec fn step_n<T>(s: MailboxState<T>, n: nat) -> (MailboxState<T>, Seq<Step<T>>)
    decreases n,
{
    if n == 0 {
        (s, Seq::empty())
    } else {
        let (s1, t) = step_spec(s);
        let (s2, ts) = step_n(s1, (n - 1) as nat);
        (s2, seq![t] + ts)
    }
}

/// The items as the processor receives them.
pub open spec fn as_steps<T>(items: Seq<T>) -> Seq<Step<T>> {
    items.map_values(|t: T| Step::Process(t))
}

/// An actor's mailbox.
pub struct Mailbox<T> {
    queue: VecDeque<Message<T>>,
    finished: bool,
}

impl<T> View for Mailbox<T> {
    type V = MailboxState<T>;

    closed spec fn view(&self) -> MailboxState<T> {
        MailboxState { queue: self.queue@, finished: self.finished }
    }
}

impl<T> Mailbox<T> {
    /// An empty mailbox of an actor that runs.
    pub fn new() -> (r: Self)
        ensures
            r@ == initial_mailbox::<T>(),
    {
        Mailbox { queue: VecDeque::new(), finished: false }
    }

    /// Queues `item` without waiting for it to be processed; a finished actor refuses it and
    /// hands it back.
    pub fn send(&mut self, item: T) -> (r: Result<(), (MailboxError, T)>)
        ensures
            final(self)@ == send_spec(old(self)@, item),
            old(self)@.finished ==> r == Err::<(), (MailboxError, T)>((MailboxError::Closed, item)),
            !old(self)@.finished ==> r is Ok,
    {
        if self.finished {
            Err((MailboxError::Closed, item))
        } else {
            self.queue.push_back(Message::Work(item));
            Ok(())
        }
    }

    /// Queues the stop request behind every item sent so far.
    pub fn request_stop(&mut self)
        ensures
            final(self)@ == stop_spec(old(self)@),
    {
        if !self.finished {
            self.queue.push_back(Message::Stop);
        }
    }

    /// Whether the actor has finished.
    pub fn is_finished(&self) -> (r: bool)
        ensures
            r == self@.finished,
    {
        self.finished
    }

    /// Decides the next step of the actor's loop.
    pub fn next_step(&mut self) -> (r: Step<T>)
        ensures
            (final(self)@, r) == step_spec(old(self)@),
    {
        if self.finished {
            return Step::Finish;
        }
        match self.queue.pop_front() {
            Some(Message::Work(item)) => {
                assert(self@.queue =~= old(self)@.queue.drop_first());
                Step::Process(item)
            },
            Some(Message::Stop) => {
                self.queue.clear();
                self.finished = true;
                assert(self@.queue =~= Seq::<Message<T>>::empty());
                Step::Finish
            },
            None => Step::Wait,
        }
    }
}

proof fn lemma_send_all_fresh<T>(items: Seq<T>)
    ensures
        send_all(initial_mailbox::<T>(), items) == (MailboxState {
            queue: items.map_values(|t: T| Message::Work(t)),
            finished: false,
        }),
    decreases items.len(),
{
    if items.len() > 0 {
        lemma_send_all_fresh(items.drop_last());
        assert(items.drop_last().map_values(|t: T| Message::Work(t)).push(Message::Work(items.last()))
            =~= items.map_values(|t: T| Message::Work(t)));
    } else {
        assert(items.map_values(|t: T| Message::Work(t)) =~= Seq::<Message<T>>::empty());
    }
}

proof fn lemma_drain_work<T>(items: Seq<T>, extra: nat)
    ensures
        ({
            let s = MailboxState {
                queue: items.map_values(|t: T| Message::Work(t)).push(Message::Stop),
                finished: false,
            };
            let (s1, ts) = step_n(s, items.len() + 1 + extra);
            &&& s1.finished
            &&& ts.len() == items.len() + 1 + extra
            &&& ts.subrange(0, items.len() as int) == as_steps(items)
            &&& forall|i: int| items.len() <= i < ts.len() ==> #[trigger] ts[i] == Step::<T>::Finish
        }),
    decreases items.len() + 1 + extra,
{
    let s = MailboxState {
        queue: items.map_values(|t: T| Message::Work(t)).push(Message::Stop),
        finished: false,
    };
    let n = items.len();
    if n > 0 {
        let rest = items.drop_first();
        lemma_drain_work(rest, extra);
        let s1 = MailboxState {
            queue: rest.map_values(|t: T| Message::Work(t)).push(Message::Stop),
            finished: false,
        };
        assert(s.queue.drop_first() =~= s1.queue);
        assert(step_spec(s) == (s1, Step::Process(items[0])));
        let (s2, ts1) = step_n(s1, (n + extra) as nat);
        let ts = seq![Step::Process(items[0])] + ts1;
        assert(step_n(s, n + 1 + extra) == (s2, ts));
        assert(ts.subrange(0, n as int) =~= as_steps(items)) by {
            assert forall|i: int| 0 <= i < n implies ts.subrange(0, n as int)[i] == as_steps(items)[i] by {
                if i > 0 {
                    assert(ts1.subrange(0, (n - 1) as int)[i - 1] == as_steps(rest)[i - 1]);
                }
            }
        }
        assert forall|i: int| n <= i < ts.len() implies #[trigger] ts[i] == Step::<T>::Finish by {
            assert(ts[i] == ts1[i - 1]);
        }
    } else {
        assert(s.queue[0] == Message::<T>::Stop);
        let f = MailboxState { queue: Seq::<Message<T>>::empty(), finished: true };
        assert(step_spec(s) == (f, Step::<T>::Finish));
        lemma_finished_stays(f, extra);
        let (s2, ts1) = step_n(f, extra);
        let ts = seq![Step::<T>::Finish] + ts1;
        assert(step_n(s, 1 + extra) == (s2, ts));
        assert forall|i: int| 0 <= i < ts.len() implies #[trigger] ts[i] == Step::<T>::Finish by {
            if i > 0 {
                assert(ts[i] == ts1[i - 1]);
            }
        }
        assert(ts.subrange(0, 0) =~= as_steps(items));
    }
}

proof fn lemma_finished_stays<T>(s: MailboxState<T>, n: nat)
    requires
        s.finished,
    ensures
        step_n(s, n).0 == s,
        step_n(s, n).1.len() == n,
        forall|i: int| 0 <= i < n ==> #[trigger] step_n(s, n).1[i] == Step::<T>::Finish,
    decreases n,
{
    if n > 0 {
        lemma_finished_stays(s, (n - 1) as nat);
        let ts1 = step_n(s, (n - 1) as nat).1;
        let ts = seq![Step::<T>::Finish] + ts1;
        assert(step_n(s, n).1 == ts);
        assert forall|i: int| 0 <= i < n implies #[trigger] ts[i] == Step::<T>::Finish by {
            if i > 0 {
                assert(ts[i] == ts1[i - 1]);
            }
        }
    }
}

/// Items sent by one producer to a fresh actor, followed by a stop request, are processed
/// exactly in the order sent, all of them before the actor finishes; every later round of
/// its loop finds it finished.
pub proof fn lemma_processed_in_send_order<T>(items: Seq<T>, extra: nat)
    ensures
        ({
            let s = stop_spec(send_all(initial_mailbox::<T>(), items));
            let (s1, ts) = step_n(s, items.len() + 1 + extra);
            &&& s1.finished
            &&& ts.subrange(0, items.len() as int) == as_steps(items)
            &&& forall|i: int| items.len() <= i < ts.len() ==> #[trigger] ts[i] == Step::<T>::Finish
        }),
{
    lemma_send_all_fresh(items);
    lemma_drain_work(items, extra);
}

/// An item sent to a finished actor is refused and changes nothing.
pub proof fn lemma_finished_refuses<T>(s: MailboxState<T>, item: T)
    requires
        s.finished,
    ensures
        send_spec(s, item) == s,
        step_spec(s) == (s, Step::<T>::Finish),
{
}

} // verus!
