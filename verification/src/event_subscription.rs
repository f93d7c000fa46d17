//! The broadcast actor and the handle that feeds it.
//!
//! The actor owns the pending queue and the registry of mailboxes. It is
//! driven one step at a time by whoever runs it: a step makes one delivery
//! round and then takes at most one command off the command channel.

use vstd::prelude::*;
use futures::channel::mpsc::{Receiver, Sender};
use std::collections::VecDeque;
use std::task::{Context, Waker};
use crate::channel::{
    context_waker, open_channel, receiver_poll_next, reply_send, sender_clone, sender_is_closed,
    sender_poll_ready, sender_try_send, waker_clone, waker_wake, Incoming, Room,
};
use crate::history::{
    admissible, law_reachable_states_well_formed, lemma_place_of, lemma_received_extends,
    lemma_run_extends, lemma_unjoined_received_nothing, received, run, Step,
};
use crate::hub_state::HubState;
use crate::offer::{
    deliveries_upto, lemma_deliveries_upto_prefix, lemma_retained_upto_prefix, retained_upto,
    Offer,
};

verus! {

/// The number of undelivered events a mailbox can hold.
pub const MAILBOX_CAPACITY: usize = 1;

/// A request to the actor.
#[verifier::reject_recursive_types(T)]
pub enum Command<T> {
    /// Asks for a new mailbox; its read end is sent back through `response`.
    Subscribe { response: futures::channel::oneshot::Sender<Receiver<T>> },
    /// Asks for `event` to be broadcast.
    Emit { event: T },
}

/// What a step of the actor did after its delivery round.
#[derive(Clone, Copy, Debug, PartialEq, Eq, Structural)]
pub enum Activity {
    /// A `Subscribe` command was served.
    Subscribed,
    /// An `Emit` command was served.
    Emitted,
    /// No command was waiting; the actor will be woken for the next one.
    Idle,
    /// Every handle is gone: the command channel is closed and drained.
    Terminated,
}

/// A registry entry: the write end of one subscriber's mailbox, with the
/// record of the events handed to it so far.
#[verifier::reject_recursive_types(T)]
struct Mailbox<T> {
    id: Ghost<nat>,
    handed: Ghost<Seq<T>>,
    tx: Sender<T>,
}

/// `after` is `before` with one more event at the end, a copy of `event`.
spec fn grew_by_copy<T: Clone>(before: Seq<T>, after: Seq<T>, event: T) -> bool {
    &&& after.len() == before.len() + 1
    &&& after.drop_last() == before
    &&& cloned(event, after.last())
}

/// The names of the subscribers behind a registry, in registry order.
spec fn names<T>(registry: Seq<Mailbox<T>>) -> Seq<nat> {
    registry.map_values(|m: Mailbox<T>| m.id@)
}

/// What a round does to one mailbox that gave `answer`: an accepting
/// mailbox's record grows by a copy of the event, any other is as before.
spec fn offered<T: Clone>(before: Mailbox<T>, after: Mailbox<T>, answer: Offer, event: T) -> bool {
    &&& after.id == before.id
    &&& if answer is Accepted {
        grew_by_copy(before.handed@, after.handed@, event)
    } else {
        after.handed@ == before.handed@
    }
}

/// Each event of `copies` is a copy of the event at its place in `events`.
pub open spec fn copies_of<T: Clone>(events: Seq<T>, copies: Seq<T>) -> bool {
    &&& copies.len() == events.len()
    &&& forall|i: int| 0 <= i < events.len() ==> cloned(events[i], #[trigger] copies[i])
}

/// Offers `event` to one mailbox: a mailbox already known closed gets
/// nothing; one with room gets a copy; one that is full is skipped.
///
/// A copy of the event is handed to the mailbox's channel exactly when the
/// answer is `Accepted`, and the mailbox's record grows by that copy.
fn offer<T: Clone>(mailbox: &mut Mailbox<T>, event: &T, cx: &mut Context<'_>) -> (answer: Offer)
    ensures
        final(mailbox).id == old(mailbox).id,
        answer is Accepted ==> grew_by_copy(
            old(mailbox).handed@,
            final(mailbox).handed@,
            *event,
        ),
        !(answer is Accepted) ==> final(mailbox).handed@ == old(mailbox).handed@,
{
    if sender_is_closed(&mailbox.tx) {
        return Offer::Closed;
    }
    let room = sender_poll_ready(&mut mailbox.tx, cx);
    match room {
        Room::Free => {
            let copy = event.clone();
            let ghost before = mailbox.handed@;
            mailbox.handed = Ghost(before.push(copy));
            assert(cloned(*event, copy));
            assert(before.push(copy).drop_last() == before);
            let _ = sender_try_send(&mut mailbox.tx, copy);
        },
        _ => {},
    }
    Offer::answering(room)
}

/// The state of the broadcast actor.
#[verifier::reject_recursive_types(T)]
pub struct EventSubscriptionTask<T> {
    senders: Vec<Mailbox<T>>,
    queue: VecDeque<T>,
    rx: Receiver<Command<T>>,
    waker: Option<Waker>,
    issued: Ghost<nat>,
    steps: Ghost<Seq<Step<T>>>,
}

impl<T> View for EventSubscriptionTask<T> {
    type V = HubState<T>;

    closed spec fn view(&self) -> HubState<T> {
        HubState { pending: self.queue@, subscribers: names(self.senders@), issued: self.issued@ }
    }
}

impl<T: Clone> EventSubscriptionTask<T> {
    /// An actor with nothing pending and nobody subscribed, which takes its
    /// commands from `rx`.
    pub fn new(rx: Receiver<Command<T>>) -> (task: Self)
        ensures
            task@ == HubState::<T>::empty(),
            task.history() == Seq::<Step<T>>::empty(),
            task.consistent(),
            !task.is_waiting(),
    {
        let task = EventSubscriptionTask {
            senders: Vec::new(),
            queue: VecDeque::new(),
            rx,
            waker: None,
            issued: Ghost(0),
            steps: Ghost(Seq::empty()),
        };
        assert(names(task.senders@) == Seq::<nat>::empty());
        task
    }

    /// The steps the actor has made since it was created.
    pub closed spec fn history(&self) -> Seq<Step<T>> {
        self.steps@
    }

    /// The events handed so far to the mailbox of subscriber `id`, while it
    /// is in the registry.
    pub closed spec fn handed(&self, id: nat) -> Seq<T> {
        if exists|j: int| 0 <= j < self.senders@.len() && self.senders@[j].id@ == id {
            self.senders@[choose|j: int| 0 <= j < self.senders@.len() && self.senders@[j].id@ == id].handed@
        } else {
            Seq::empty()
        }
    }

    /// What was handed to each mailbox in the registry is, event by event,
    /// a copy of what the history says its subscriber received.
    pub closed spec fn faithful(&self) -> bool {
        forall|j: int|
            0 <= j < self.senders@.len() ==> copies_of(
                received(self.steps@, (#[trigger] self.senders@[j]).id@),
                self.senders@[j].handed@,
            )
    }

    /// The actor's state is what its history leads to, each step of the
    /// history could follow the ones before it, and the mailboxes were
    /// handed what the history says. Every actor made by
    /// [`EventSubscriptionTask::new`] is consistent and stays so.
    pub open spec fn consistent(&self) -> bool {
        admissible(self.history()) && run(self.history()) == self@ && self.faithful()
    }

    /// In a consistent actor, the events handed to a subscriber's mailbox
    /// are copies of the events the history says it received, in order.
    pub proof fn lemma_handed_copies_received(&self, id: nat)
        requires
            self.consistent(),
            self@.subscribers.contains(id),
        ensures
            copies_of(received(self.history(), id), self.handed(id)),
    {
        let k = self@.subscribers.index_of(id);
        assert(0 <= k < self.senders@.len() && self.senders@[k].id@ == id);
        let j = choose|j: int| 0 <= j < self.senders@.len() && self.senders@[j].id@ == id;
        assert(copies_of(received(self.steps@, self.senders@[j].id@), self.senders@[j].handed@));
    }

    /// The actor has finished a delivery round and keeps the waker of its
    /// task, to be resumed when a subscriber joins.
    pub closed spec fn is_waiting(&self) -> bool {
        self.waker is Some
    }

    /// Whether the actor keeps a waker to be resumed by.
    pub fn waiting(&self) -> (waiting: bool)
        ensures
            waiting == self.is_waiting(),
    {
        self.waker.is_some()
    }

    /// The number of events waiting in the pending queue.
    pub fn pending_count(&self) -> (n: usize)
        ensures
            n == self@.pending.len(),
    {
        self.queue.len()
    }

    /// The number of mailboxes in the registry.
    pub fn subscriber_count(&self) -> (n: usize)
        ensures
            n == self@.subscribers.len(),
    {
        self.senders.len()
    }

    /// Creates a mailbox, adds its write end to the registry and returns its
    /// read end. The mailbox is a channel without a shared buffer: all it
    /// can hold is the one message of its single write end.
    pub fn subscribe(&mut self) -> (stream: Receiver<T>)
        ensures
            final(self)@ == old(self)@.subscribe(),
            final(self).history() == old(self).history().push(Step::Subscribe),
            old(self).consistent() ==> final(self).consistent(),
            final(self).is_waiting() == old(self).is_waiting(),
    {
        let (tx, rx) = open_channel::<T>(MAILBOX_CAPACITY - 1);
        let ghost id = self.issued@;
        let ghost before = self.senders@;
        let ghost steps = self.steps@;
        proof {
            lemma_run_extends(steps, Step::Subscribe);
        }
        self.issued = Ghost(id + 1);
        self.steps = Ghost(steps.push(Step::Subscribe));
        self.senders.push(Mailbox { id: Ghost(id), handed: Ghost(Seq::empty()), tx });
        assert(names(self.senders@) == names(before).push(id));
        proof {
            if old(self).consistent() {
                lemma_unjoined_received_nothing(steps, id);
                assert forall|j: int| 0 <= j < self.senders@.len() implies copies_of(
                    received(self.steps@, (#[trigger] self.senders@[j]).id@),
                    self.senders@[j].handed@,
                ) by {
                    lemma_received_extends(steps, Step::Subscribe, self.senders@[j].id@);
                    if j < before.len() {
                        assert(self.senders@[j] == before[j]);
                    }
                }
            }
        }
        rx
    }

    /// One delivery round: offers the front event, if there is one, to every
    /// mailbox in the registry, in registry order, and returns their answers.
    ///
    /// Mailboxes whose read end is gone leave the registry. The event leaves
    /// the queue if at least one mailbox accepted it; a mailbox that was full
    /// in that round never gets it. With nothing pending the registry is not
    /// examined and the report is empty.
    ///
    /// Each accepting mailbox is handed a copy of the event: in a consistent
    /// actor the record of what a mailbox was handed stays, event by event,
    /// a copy of what the history says its subscriber received.
    ///
    /// The round ends by keeping the waker of the polling task, so that the
    /// actor can be resumed when the registry changes.
    pub fn deliver(&mut self, cx: &mut Context<'_>) -> (report: Vec<Offer>)
        ensures
            old(self)@.pending.len() == 0 ==> report@.len() == 0,
            old(self)@.pending.len() > 0 ==> report@.len() == old(self)@.subscribers.len(),
            final(self)@ == old(self)@.round(report@),
            final(self).history() == old(self).history().push(Step::Round(report@)),
            old(self).consistent() ==> final(self).consistent(),
            final(self).is_waiting(),
    {
        let mut report: Vec<Offer> = Vec::new();
        let ghost members = names(self.senders@);
        let ghost steps = self.steps@;
        let ghost before = self.senders@;
        match self.queue.pop_front() {
            None => {
                proof {
                    lemma_run_extends(steps, Step::Round(report@));
                    if old(self).consistent() {
                        assert forall|j: int| 0 <= j < before.len() implies copies_of(
                            received(
                                steps.push(Step::Round(report@)),
                                (#[trigger] before[j]).id@,
                            ),
                            before[j].handed@,
                        ) by {
                            lemma_received_extends(steps, Step::Round(report@), before[j].id@);
                        }
                    }
                }
            },
            Some(event) => {
                let mut examined: Vec<Mailbox<T>> = Vec::new();
                std::mem::swap(&mut self.senders, &mut examined);
                let ghost registry = examined@;
                let total: usize = examined.len();
                let mut kept: Vec<Mailbox<T>> = Vec::new();
                let mut count: usize = 0;
                for mailbox in it: examined
                    invariant
                        it.seq() == registry,
                        registry.len() == total,
                        members == names(registry),
                        report@.len() == it.index(),
                        names(kept@) == retained_upto(members, report@, it.index() as nat),
                        count == deliveries_upto(report@, it.index() as nat),
                        count <= it.index(),
                        forall|j: int|
                            0 <= j < kept@.len() ==> exists|k: int|
                                0 <= k < it.index() && offered(
                                    registry[k],
                                    #[trigger] kept@[j],
                                    report@[k],
                                    event,
                                ),
                {
                    let mut mailbox = mailbox;
                    let ghost seen = report@;
                    let ghost held = kept@;
                    let ghost k = it.index();
                    let answer = offer(&mut mailbox, &event, cx);
                    if answer.is_delivery() {
                        count = count + 1;
                    }
                    if answer.keeps_mailbox() {
                        kept.push(mailbox);
                    }
                    report.push(answer);
                    proof {
                        let n = seen.len();
                        lemma_retained_upto_prefix(members, seen, members, report@, n);
                        lemma_deliveries_upto_prefix(seen, report@, n);
                        assert(names(kept@) == if answer.stays() {
                            names(held).push(mailbox.id@)
                        } else {
                            names(held)
                        });
                        assert(offered(registry[k], mailbox, report@[k], event));
                        assert forall|j: int| 0 <= j < kept@.len() implies exists|k2: int|
                            0 <= k2 < k + 1 && offered(
                                registry[k2],
                                #[trigger] kept@[j],
                                report@[k2],
                                event,
                            ) by {
                            if j < held.len() {
                                assert(kept@[j] == held[j]);
                                let k1 = choose|k1: int|
                                    0 <= k1 < k && offered(registry[k1], held[j], seen[k1], event);
                                assert(report@[k1] == seen[k1]);
                                assert(offered(registry[k1], kept@[j], report@[k1], event));
                            } else {
                                assert(kept@[j] == mailbox);
                            }
                        }
                    }
                }
                self.senders = kept;
                if count == 0 {
                    self.queue.push_front(event);
                }
                proof {
                    let pending = old(self)@.pending;
                    assert(seq![event] + pending.subrange(1, pending.len() as int) == pending);
                    assert(pending.subrange(1, pending.len() as int) == pending.drop_first());
                    lemma_run_extends(steps, Step::Round(report@));
                    if old(self).consistent() {
                        let state = run(steps);
                        law_reachable_states_well_formed(steps);
                        assert forall|j: int| 0 <= j < self.senders@.len() implies copies_of(
                            received(
                                steps.push(Step::Round(report@)),
                                (#[trigger] self.senders@[j]).id@,
                            ),
                            self.senders@[j].handed@,
                        ) by {
                            let after = self.senders@[j];
                            let k = choose|k: int|
                                0 <= k < registry.len() && offered(
                                    registry[k],
                                    after,
                                    report@[k],
                                    event,
                                );
                            let id = after.id@;
                            assert(state.subscribers[k] == registry[k].id@);
                            lemma_place_of(state, k);
                            lemma_received_extends(steps, Step::Round(report@), id);
                            assert(state.answer_of(report@, id) == Some(report@[k]));
                            assert(state.pending[0] == event);
                            let was = received(steps, id);
                            let now = received(steps.push(Step::Round(report@)), id);
                            assert(copies_of(was, registry[k].handed@)) by {
                                assert(before[k] == registry[k]);
                            }
                            if report@[k] is Accepted {
                                assert(now == was.push(event));
                                assert forall|i: int| 0 <= i < now.len() implies cloned(
                                    now[i],
                                    #[trigger] after.handed@[i],
                                ) by {
                                    if i < was.len() {
                                        assert(after.handed@[i] == after.handed@.drop_last()[i]);
                                    }
                                }
                            } else {
                                assert(now == was);
                            }
                        }
                    }
                }
            },
        }
        self.waker = Some(waker_clone(context_waker(cx)));
        self.steps = Ghost(steps.push(Step::Round(report@)));
        report
    }

    /// Appends `event` to the back of the pending queue.
    pub fn emit(&mut self, event: T)
        ensures
            final(self)@ == old(self)@.emit(event),
            final(self).history() == old(self).history().push(Step::Emit(event)),
            old(self).consistent() ==> final(self).consistent(),
            final(self).is_waiting() == old(self).is_waiting(),
    {
        let ghost steps = self.steps@;
        proof {
            lemma_run_extends(steps, Step::Emit(event));
        }
        self.steps = Ghost(steps.push(Step::Emit(event)));
        self.queue.push_back(event);
        proof {
            if old(self).consistent() {
                assert forall|j: int| 0 <= j < self.senders@.len() implies copies_of(
                    received(self.steps@, (#[trigger] self.senders@[j]).id@),
                    self.senders@[j].handed@,
                ) by {
                    lemma_received_extends(steps, Step::Emit(event), self.senders@[j].id@);
                }
            }
        }
    }

    /// Serves one command. A subscription's read end goes back through the
    /// command's reply slot; if the requester has gone away in the meantime
    /// the mailbox stays registered and is found closed by a later round.
    /// After a subscription a waiting actor is woken: the new mailbox may
    /// take an event that no other mailbox had room for.
    pub fn handle(&mut self, command: Command<T>) -> (activity: Activity)
        ensures
            match command {
                Command::Subscribe { .. } => {
                    &&& activity == Activity::Subscribed
                    &&& final(self)@ == old(self)@.subscribe()
                    &&& final(self).history() == old(self).history().push(Step::Subscribe)
                    &&& !final(self).is_waiting()
                },
                Command::Emit { event } => {
                    &&& activity == Activity::Emitted
                    &&& final(self)@ == old(self)@.emit(event)
                    &&& final(self).history() == old(self).history().push(Step::Emit(event))
                    &&& final(self).is_waiting() == old(self).is_waiting()
                },
            },
            old(self).consistent() ==> final(self).consistent(),
    {
        match command {
            Command::Subscribe { response } => {
                let stream = self.subscribe();
                let _ = reply_send(response, stream);
                match self.waker.take() {
                    Some(waker) => waker_wake(waker),
                    None => {},
                }
                Activity::Subscribed
            },
            Command::Emit { event } => {
                self.emit(event);
                Activity::Emitted
            },
        }
    }

    /// One step of the actor: a delivery round, then at most one command
    /// from the command channel.
    ///
    /// Returns the round's answers and what was done after it. After `Idle`
    /// the caller may suspend: the context's waker is registered with the
    /// command channel and with every mailbox that was full. After
    /// `Terminated` no command will ever arrive again.
    pub fn step(&mut self, cx: &mut Context<'_>) -> (done: (Vec<Offer>, Activity))
        ensures
            old(self)@.pending.len() == 0 ==> done.0@.len() == 0,
            old(self)@.pending.len() > 0 ==> done.0@.len() == old(self)@.subscribers.len(),
            match done.1 {
                Activity::Subscribed => {
                    &&& final(self)@ == old(self)@.round(done.0@).subscribe()
                    &&& final(self).history() == old(self).history().push(
                        Step::Round(done.0@),
                    ).push(Step::Subscribe)
                },
                Activity::Emitted => {
                    &&& final(self)@.pending.len() > 0
                    &&& final(self)@ == old(self)@.round(done.0@).emit(
                        final(self)@.pending.last(),
                    )
                    &&& final(self).history() == old(self).history().push(
                        Step::Round(done.0@),
                    ).push(Step::Emit(final(self)@.pending.last()))
                },
                Activity::Idle | Activity::Terminated => {
                    &&& final(self)@ == old(self)@.round(done.0@)
                    &&& final(self).history() == old(self).history().push(Step::Round(done.0@))
                },
            },
            old(self).consistent() ==> final(self).consistent(),
            final(self).is_waiting() == (done.1 != Activity::Subscribed),
    {
        let report = self.deliver(cx);
        let activity = match receiver_poll_next(&mut self.rx, cx) {
            Incoming::Message(command) => self.handle(command),
            Incoming::Closed => Activity::Terminated,
            Incoming::Idle => Activity::Idle,
        };
        (report, activity)
    }
}

/// The handle through which application code reaches the actor. It holds a
/// write end of the command channel; cloning it shares the actor.
#[verifier::reject_recursive_types(T)]
pub struct EventSubscription<T> {
    tx: Sender<Command<T>>,
}

impl<T: Clone> EventSubscription<T> {
    /// Creates the command channel and the actor that reads it. The channel
    /// has no buffer of its own: a command is held on behalf of the write
    /// end that sent it until the actor takes it.
    ///
    /// The actor is returned to the caller, who runs it by calling
    /// [`EventSubscriptionTask::step`] until it reports `Terminated`.
    pub fn new() -> (pair: (Self, EventSubscriptionTask<T>))
        ensures
            pair.1@ == HubState::<T>::empty(),
            pair.1.history() == Seq::<Step<T>>::empty(),
            pair.1.consistent(),
            !pair.1.is_waiting(),
    {
        let (tx, rx) = open_channel::<Command<T>>(0);
        (EventSubscription { tx }, EventSubscriptionTask::new(rx))
    }

    /// A write end of the command channel, for callers that send commands
    /// themselves and wait for the actor to take them.
    pub fn commands(&self) -> (tx: Sender<Command<T>>) {
        sender_clone(&self.tx)
    }

    /// Hands an `Emit` command to the command channel without waiting. If
    /// the channel does not take it, because the actor is gone or the
    /// channel is full, the event is dropped and nothing is reported.
    pub fn try_emit(&self, event: T) {
        let mut tx = sender_clone(&self.tx);
        let _ = sender_try_send(&mut tx, Command::Emit { event });
    }
}

impl<T> Clone for EventSubscription<T> {
    /// Another handle to the same actor.
    fn clone(&self) -> (other: Self) {
        EventSubscription { tx: sender_clone(&self.tx) }
    }
}

/// Whether dropping a handle cancels the actor's task: only the last handle
/// does, and only while the task is still running.
pub fn cancel_on_drop(handles: usize, finished: bool) -> (cancel: bool)
    ensures
        cancel == (handles == 1 && !finished),
{
    handles == 1 && !finished
}

} // verus!
