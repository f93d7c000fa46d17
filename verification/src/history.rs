//! Runs of the hub and the laws that hold of every run.
//!
//! A run is the sequence of steps the actor has made since it was created.
//! The laws relate what was emitted, what has left the pending queue and
//! what each subscriber received.

use vstd::prelude::*;
use crate::hub_state::HubState;
use crate::offer::{
    all_accepted, deliveries, deliveries_upto, lemma_all_accepted, lemma_retained_members,
    lemma_round_counts, retained, retained_upto, Offer,
};

verus! {

/// One step of the actor.
pub enum Step<T> {
    /// An event was appended to the pending queue.
    Emit(T),
    /// A subscriber joined.
    Subscribe,
    /// A delivery round was made and the mailboxes gave these answers.
    Round(Seq<Offer>),
}

/// The state after `step`.
pub open spec fn apply<T>(state: HubState<T>, step: Step<T>) -> HubState<T> {
    match step {
        Step::Emit(event) => state.emit(event),
        Step::Subscribe => state.subscribe(),
        Step::Round(report) => state.round(report),
    }
}

/// The state after all of `steps`, starting from an empty hub.
pub open spec fn run<T>(steps: Seq<Step<T>>) -> HubState<T>
    decreases steps.len(),
{
    if steps.len() == 0 {
        HubState::empty()
    } else {
        apply(run(steps.drop_last()), steps.last())
    }
}

/// `step` can follow `state`: a round that has an event to offer carries
/// one answer for each mailbox in the registry.
pub open spec fn fits<T>(state: HubState<T>, step: Step<T>) -> bool {
    match step {
        Step::Round(report) => state.pending.len() > 0 ==> report.len()
            == state.subscribers.len(),
        _ => true,
    }
}

/// Every step of the run can follow the steps before it.
pub open spec fn admissible<T>(steps: Seq<Step<T>>) -> bool
    decreases steps.len(),
{
    steps.len() == 0 || (admissible(steps.drop_last()) && fits(
        run(steps.drop_last()),
        steps.last(),
    ))
}

/// `step` takes the front event out of the pending queue of `state`.
pub open spec fn removes<T>(state: HubState<T>, step: Step<T>) -> bool {
    step matches Step::Round(report) && state.pending.len() > 0 && deliveries(report) > 0
}

/// In `step`, the mailbox of subscriber `id` takes a copy of the front event.
pub open spec fn hands_to<T>(state: HubState<T>, step: Step<T>, id: nat) -> bool {
    step matches Step::Round(report) && state.answer_of(report, id) == Some(Offer::Accepted)
}

/// The events emitted during the run, in emission order.
pub open spec fn emitted<T>(steps: Seq<Step<T>>) -> Seq<T>
    decreases steps.len(),
{
    if steps.len() == 0 {
        Seq::empty()
    } else {
        let before = emitted(steps.drop_last());
        match steps.last() {
            Step::Emit(event) => before.push(event),
            _ => before,
        }
    }
}

/// The events that have left the pending queue, in the order they left.
pub open spec fn delivered<T>(steps: Seq<Step<T>>) -> Seq<T>
    decreases steps.len(),
{
    if steps.len() == 0 {
        Seq::empty()
    } else {
        let before = delivered(steps.drop_last());
        let state = run(steps.drop_last());
        if removes(state, steps.last()) {
            before.push(state.pending[0])
        } else {
            before
        }
    }
}

/// The events that the mailbox of subscriber `id` took, in the order it took
/// them.
pub open spec fn received<T>(steps: Seq<Step<T>>, id: nat) -> Seq<T>
    decreases steps.len(),
{
    if steps.len() == 0 {
        Seq::empty()
    } else {
        let before = received(steps.drop_last(), id);
        let state = run(steps.drop_last());
        if hands_to(state, steps.last(), id) {
            before.push(state.pending[0])
        } else {
            before
        }
    }
}

/// For each event that has left the queue, whether the mailbox of
/// subscriber `id` took it.
pub open spec fn took<T>(steps: Seq<Step<T>>, id: nat) -> Seq<bool>
    decreases steps.len(),
{
    if steps.len() == 0 {
        Seq::empty()
    } else {
        let before = took(steps.drop_last(), id);
        let state = run(steps.drop_last());
        if removes(state, steps.last()) {
            before.push(hands_to(state, steps.last(), id))
        } else {
            before
        }
    }
}

/// The events at the marked positions, in order.
pub open spec fn selected<T>(events: Seq<T>, marks: Seq<bool>) -> Seq<T>
    recommends
        events.len() == marks.len(),
    decreases events.len(),
{
    if events.len() == 0 || marks.len() == 0 {
        Seq::empty()
    } else {
        let before = selected(events.drop_last(), marks.drop_last());
        if marks.last() {
            before.push(events.last())
        } else {
            before
        }
    }
}

/// Subscriber `id` was ready in `step`: if the step offered its mailbox an
/// event, the mailbox took it.
pub open spec fn ready_in<T>(state: HubState<T>, step: Step<T>, id: nat) -> bool {
    step matches Step::Round(report) ==> (state.answer_of(report, id) matches Some(answer)
        ==> answer is Accepted)
}

/// Subscriber `id` was ready in every step of the run.
pub open spec fn responsive<T>(steps: Seq<Step<T>>, id: nat) -> bool
    decreases steps.len(),
{
    steps.len() == 0 || (responsive(steps.drop_last(), id) && ready_in(
        run(steps.drop_last()),
        steps.last(),
        id,
    ))
}

/// How many events had left the queue when subscriber `id` joined; for a
/// subscriber that has not joined yet, how many have left so far.
pub open spec fn missed_before_joining<T>(steps: Seq<Step<T>>, id: nat) -> nat
    decreases steps.len(),
{
    if steps.len() == 0 {
        0
    } else if run(steps.drop_last()).issued <= id {
        delivered(steps).len()
    } else {
        missed_before_joining(steps.drop_last(), id)
    }
}

/// How many mailboxes the rounds of the run found gone.
pub open spec fn dropped<T>(steps: Seq<Step<T>>) -> nat
    decreases steps.len(),
{
    if steps.len() == 0 {
        0
    } else {
        let before = dropped(steps.drop_last());
        let state = run(steps.drop_last());
        match steps.last() {
            Step::Round(report) => if state.pending.len() > 0 {
                (before + state.subscribers.len() - retained(
                    state.subscribers,
                    report,
                ).len()) as nat
            } else {
                before
            },
            _ => before,
        }
    }
}

/// A run extended by one step: the state is that of the run with the step
/// applied, and the longer run is admissible if the shorter one is and the
/// step can follow it.
pub proof fn lemma_run_extends<T>(steps: Seq<Step<T>>, step: Step<T>)
    ensures
        run(steps.push(step)) == apply(run(steps), step),
        admissible(steps.push(step)) == (admissible(steps) && fits(run(steps), step)),
        emitted(steps.push(step)) == match step {
            Step::Emit(event) => emitted(steps).push(event),
            _ => emitted(steps),
        },
{
    assert(steps.push(step).drop_last() == steps);
}

/// What a subscriber has received after one more step.
pub proof fn lemma_received_extends<T>(steps: Seq<Step<T>>, step: Step<T>, id: nat)
    ensures
        received(steps.push(step), id) == if hands_to(run(steps), step, id) {
            received(steps, id).push(run(steps).pending[0])
        } else {
            received(steps, id)
        },
{
    assert(steps.push(step).drop_last() == steps);
}

/// Members that stay after a round keep their order.
proof fn lemma_retained_ordered(members: Seq<nat>, report: Seq<Offer>, n: nat)
    requires
        n <= members.len(),
        n <= report.len(),
        forall|i: int, j: int| 0 <= i < j < members.len() ==> members[i] < members[j],
    ensures
        forall|i: int, j: int|
            0 <= i < j < retained_upto(members, report, n).len() ==> retained_upto(
                members,
                report,
                n,
            )[i] < retained_upto(members, report, n)[j],
    decreases n,
{
    if n > 0 {
        let before = retained_upto(members, report, (n - 1) as nat);
        let kept = retained_upto(members, report, n);
        lemma_retained_ordered(members, report, (n - 1) as nat);
        lemma_retained_members(members, report, (n - 1) as nat);
        assert forall|i: int, j: int| 0 <= i < j < kept.len() implies kept[i] < kept[j] by {
            if j == before.len() {
                assert(before.contains(before[i]));
                let k = choose|k: int|
                    0 <= k < n - 1 && members[k] == before[i] && #[trigger] report[k].stays();
                assert(members[k] < members[n - 1]);
            }
        }
    }
}

/// Each transition keeps the registry in joining order.
pub proof fn lemma_step_keeps_well_formed<T>(state: HubState<T>, step: Step<T>)
    requires
        state.wf(),
        fits(state, step),
    ensures
        apply(state, step).wf(),
{
    match step {
        Step::Emit(event) => {},
        Step::Subscribe => {},
        Step::Round(report) => {
            if state.pending.len() > 0 {
                let n = state.subscribers.len();
                lemma_retained_ordered(state.subscribers, report, n);
                lemma_retained_members(state.subscribers, report, n);
                let kept = retained(state.subscribers, report);
                assert forall|i: int| 0 <= i < kept.len() implies kept[i] < state.issued by {
                    assert(kept.contains(kept[i]));
                }
            }
        },
    }
}

/// In every reachable state the registry lists each subscriber once, in
/// joining order, and only subscribers that joined.
pub proof fn law_reachable_states_well_formed<T>(steps: Seq<Step<T>>)
    requires
        admissible(steps),
    ensures
        run(steps).wf(),
    decreases steps.len(),
{
    if steps.len() > 0 {
        law_reachable_states_well_formed(steps.drop_last());
        lemma_step_keeps_well_formed(run(steps.drop_last()), steps.last());
    }
}

/// Nothing is lost or reordered in the queue: the events that have left it,
/// followed by those still pending, are exactly the events emitted, in
/// emission order.
pub proof fn law_queue_is_fifo<T>(steps: Seq<Step<T>>)
    requires
        admissible(steps),
    ensures
        delivered(steps) + run(steps).pending == emitted(steps),
    decreases steps.len(),
{
    if steps.len() > 0 {
        let before = steps.drop_last();
        law_queue_is_fifo(before);
        let state = run(before);
        match steps.last() {
            Step::Emit(event) => {
                assert(delivered(before) + state.pending.push(event) == (delivered(before)
                    + state.pending).push(event));
            },
            Step::Subscribe => {},
            Step::Round(report) => {
                if removes(state, steps.last()) {
                    assert(delivered(before).push(state.pending[0]) + state.pending.drop_first()
                        == delivered(before) + state.pending);
                }
            },
        }
    } else {
        assert(delivered(steps) + run(steps).pending == emitted(steps));
    }
}

/// An accepted offer makes the round's delivery counter positive.
proof fn lemma_accepted_is_counted(report: Seq<Offer>, k: int, n: nat)
    requires
        0 <= k < n <= report.len(),
        report[k] is Accepted,
    ensures
        deliveries_upto(report, n) > 0,
    decreases n,
{
    if k < n - 1 {
        lemma_accepted_is_counted(report, k, (n - 1) as nat);
    }
}

/// In a well-formed state a subscriber is found at its one place in the
/// registry.
pub proof fn lemma_place_of<T>(state: HubState<T>, k: int)
    requires
        state.wf(),
        0 <= k < state.subscribers.len(),
    ensures
        state.subscribers.contains(state.subscribers[k]),
        state.subscribers.index_of(state.subscribers[k]) == k,
{
    let id = state.subscribers[k];
    let j = state.subscribers.index_of(id);
    assert(0 <= j < state.subscribers.len() && state.subscribers[j] == id);
    if j < k {
        assert(state.subscribers[j] < state.subscribers[k]);
    } else if k < j {
        assert(state.subscribers[k] < state.subscribers[j]);
    }
}

/// A mailbox that takes the event makes the event leave the queue.
proof fn lemma_handing_removes<T>(state: HubState<T>, step: Step<T>, id: nat)
    requires
        hands_to(state, step, id),
    ensures
        removes(state, step),
{
    let report = step->Round_0;
    let k = state.subscribers.index_of(id);
    assert(0 <= k < state.subscribers.len() && state.subscribers[k] == id);
    lemma_accepted_is_counted(report, k, report.len());
}

/// Selecting from a sequence extended by one event.
proof fn lemma_selected_push<T>(events: Seq<T>, marks: Seq<bool>, event: T, mark: bool)
    requires
        events.len() == marks.len(),
    ensures
        selected(events.push(event), marks.push(mark)) == if mark {
            selected(events, marks).push(event)
        } else {
            selected(events, marks)
        },
{
    assert(events.push(event).drop_last() == events);
    assert(marks.push(mark).drop_last() == marks);
}

/// The number of subscriptions never goes down.
proof fn lemma_issued_grows<T>(state: HubState<T>, step: Step<T>)
    ensures
        state.issued <= apply(state, step).issued,
{
}

/// A subscriber that has not joined has received nothing.
pub proof fn lemma_unjoined_received_nothing<T>(steps: Seq<Step<T>>, id: nat)
    requires
        admissible(steps),
        run(steps).issued <= id,
    ensures
        received(steps, id) == Seq::<T>::empty(),
    decreases steps.len(),
{
    if steps.len() > 0 {
        let before = steps.drop_last();
        let state = run(before);
        lemma_issued_grows(state, steps.last());
        lemma_unjoined_received_nothing(before, id);
        law_reachable_states_well_formed(before);
        if state.subscribers.contains(id) {
            let k = state.subscribers.index_of(id);
            assert(state.subscribers[k] < state.issued);
        }
    }
}

/// **Ordering.** What a subscriber receives is a selection of the events
/// that left the queue, in the order they left it, each at most once. With
/// [`law_queue_is_fifo`]: a subsequence of the emitted events, in emission
/// order.
pub proof fn law_received_in_emission_order<T>(steps: Seq<Step<T>>, id: nat)
    requires
        admissible(steps),
    ensures
        took(steps, id).len() == delivered(steps).len(),
        received(steps, id) == selected(delivered(steps), took(steps, id)),
    decreases steps.len(),
{
    if steps.len() > 0 {
        let before = steps.drop_last();
        let state = run(before);
        law_received_in_emission_order(before, id);
        if removes(state, steps.last()) {
            lemma_selected_push(
                delivered(before),
                took(before, id),
                state.pending[0],
                hands_to(state, steps.last(), id),
            );
        } else if hands_to(state, steps.last(), id) {
            lemma_handing_removes(state, steps.last(), id);
        }
    }
}

/// Marks that select nothing from `n` events.
pub open spec fn none_taken(n: nat) -> Seq<bool> {
    Seq::new(n, |i: int| false)
}

/// Events that are not marked add nothing to a selection.
proof fn lemma_selected_ignores_unmarked<T>(events: Seq<T>, marks: Seq<bool>, more: Seq<T>)
    requires
        events.len() == marks.len(),
    ensures
        selected(events + more, marks + none_taken(more.len())) == selected(events, marks),
    decreases more.len(),
{
    if more.len() > 0 {
        let fewer = more.drop_last();
        lemma_selected_ignores_unmarked(events, marks, fewer);
        assert((events + more).drop_last() == events + fewer);
        assert((marks + none_taken(more.len())).drop_last() == marks + none_taken(fewer.len()));
    } else {
        assert(events + more == events);
        assert(marks + none_taken(more.len()) == marks);
    }
}

/// **Ordering, against what was emitted.** What a subscriber has received is
/// a subsequence of the emitted events, in emission order: the events it
/// took among those that left the queue, and none of those still pending.
pub proof fn law_received_is_subsequence_of_emitted<T>(steps: Seq<Step<T>>, id: nat)
    requires
        admissible(steps),
    ensures
        (took(steps, id) + none_taken(run(steps).pending.len())).len() == emitted(steps).len(),
        received(steps, id) == selected(
            emitted(steps),
            took(steps, id) + none_taken(run(steps).pending.len()),
        ),
{
    law_received_in_emission_order(steps, id);
    law_queue_is_fifo(steps);
    lemma_selected_ignores_unmarked(delivered(steps), took(steps, id), run(steps).pending);
}

/// **Ordering, for a responsive subscriber.** A subscriber whose mailbox
/// took every event it was offered stays in the registry and has received
/// every event that left the queue since it joined, in that order.
pub proof fn law_responsive_subscriber_misses_nothing<T>(steps: Seq<Step<T>>, id: nat)
    requires
        admissible(steps),
        responsive(steps, id),
    ensures
        missed_before_joining(steps, id) <= delivered(steps).len(),
        received(steps, id) == delivered(steps).skip(missed_before_joining(steps, id) as int),
        id < run(steps).issued ==> run(steps).subscribers.contains(id),
        run(steps).issued <= id ==> missed_before_joining(steps, id) == delivered(steps).len(),
    decreases steps.len(),
{
    if steps.len() > 0 {
        let before = steps.drop_last();
        let state = run(before);
        let last = steps.last();
        law_responsive_subscriber_misses_nothing(before, id);
        law_reachable_states_well_formed(before);
        law_reachable_states_well_formed(steps);
        lemma_issued_grows(state, last);
        let missed = missed_before_joining(steps, id);
        if state.issued <= id {
            if state.subscribers.contains(id) {
                let k = state.subscribers.index_of(id);
                assert(state.subscribers[k] < state.issued);
            }
            assert(!hands_to(state, last, id));
            assert(received(steps, id) == received(before, id));
            assert(received(steps, id) == delivered(steps).skip(missed as int));
            if id < run(steps).issued {
                assert(last is Subscribe);
                assert(run(steps).subscribers[state.subscribers.len() as int] == id);
            }
        } else {
            assert(missed == missed_before_joining(before, id));
            let k = state.subscribers.index_of(id);
            assert(0 <= k < state.subscribers.len() && state.subscribers[k] == id);
            match last {
                Step::Emit(event) => {},
                Step::Subscribe => {
                    assert(run(steps).subscribers[k] == id);
                },
                Step::Round(report) => {
                    if state.pending.len() > 0 {
                        assert(state.answer_of(report, id) == Some(report[k]));
                        assert(report[k] is Accepted);
                        assert(hands_to(state, last, id));
                        lemma_handing_removes(state, last, id);
                        lemma_retained_members(state.subscribers, report, state.subscribers.len());
                        assert(report[k].stays());
                        assert(delivered(before).push(state.pending[0]).skip(missed as int)
                            == delivered(before).skip(missed as int).push(state.pending[0]));
                    } else {
                        assert(!hands_to(state, last, id));
                    }
                },
            }
        }
    } else {
        assert(received(steps, id) == delivered(steps).skip(0));
    }
}

/// **Late subscription, first half.** While nobody has subscribed, rounds
/// change nothing: every emitted event is still pending, in emission order.
pub proof fn law_backlog_waits_for_a_subscriber<T>(steps: Seq<Step<T>>)
    requires
        admissible(steps),
        run(steps).issued == 0,
    ensures
        delivered(steps).len() == 0,
        run(steps).pending == emitted(steps),
    decreases steps.len(),
{
    if steps.len() > 0 {
        let before = steps.drop_last();
        let state = run(before);
        lemma_issued_grows(state, steps.last());
        law_backlog_waits_for_a_subscriber(before);
        law_reachable_states_well_formed(before);
        if state.subscribers.len() > 0 {
            assert(state.subscribers[0] < state.issued);
        }
        assert(!removes(state, steps.last()));
    }
    law_queue_is_fifo(steps);
    assert(delivered(steps) + run(steps).pending == run(steps).pending);
}

/// Nothing has left the queue when the first subscriber joins.
proof fn lemma_first_subscriber_misses_nothing<T>(steps: Seq<Step<T>>)
    requires
        admissible(steps),
    ensures
        missed_before_joining(steps, 0) == 0,
    decreases steps.len(),
{
    if steps.len() > 0 {
        let before = steps.drop_last();
        let state = run(before);
        if state.issued <= 0 {
            law_backlog_waits_for_a_subscriber(before);
            law_reachable_states_well_formed(before);
            if state.subscribers.len() > 0 {
                assert(state.subscribers[0] < state.issued);
            }
            assert(!removes(state, steps.last()));
        } else {
            lemma_first_subscriber_misses_nothing(before);
        }
    }
}

/// **Late subscription, second half.** If the first subscriber to join is
/// responsive, it receives the emitted events from the first one on, in
/// emission order: what it has received, followed by what is still pending,
/// is everything that was emitted.
pub proof fn law_first_subscriber_replay<T>(steps: Seq<Step<T>>)
    requires
        admissible(steps),
        responsive(steps, 0),
    ensures
        received(steps, 0) + run(steps).pending == emitted(steps),
{
    law_responsive_subscriber_misses_nothing(steps, 0);
    lemma_first_subscriber_misses_nothing(steps);
    law_queue_is_fifo(steps);
    assert(delivered(steps).skip(0) == delivered(steps));
}

/// **Fan-out.** In a round in which every mailbox accepts, every subscriber
/// in the registry receives the front event, the event leaves the queue and
/// the registry is unchanged.
pub proof fn law_fan_out<T>(steps: Seq<Step<T>>, report: Seq<Offer>, id: nat)
    requires
        admissible(steps),
        run(steps).offers(report),
        all_accepted(report),
        run(steps).subscribers.contains(id),
    ensures
        received(steps.push(Step::Round(report)), id) == received(steps, id).push(
            run(steps).pending[0],
        ),
        run(steps.push(Step::Round(report))).pending == run(steps).pending.drop_first(),
        run(steps.push(Step::Round(report))).subscribers == run(steps).subscribers,
{
    let state = run(steps);
    let after = steps.push(Step::Round(report));
    assert(after.drop_last() == steps);
    let k = state.subscribers.index_of(id);
    assert(0 <= k < state.subscribers.len() && state.subscribers[k] == id);
    assert(report[k] is Accepted);
    lemma_all_accepted(state.subscribers, report, state.subscribers.len());
    assert(state.subscribers.take(state.subscribers.len() as int) == state.subscribers);
}

/// **Bounded mailbox.** When a round finds a subscriber's mailbox full while
/// another mailbox accepts, the event leaves the queue and the subscriber
/// does not receive it; the subscriber stays in the registry.
pub proof fn law_full_mailbox_misses_event<T>(steps: Seq<Step<T>>, report: Seq<Offer>, id: nat)
    requires
        admissible(steps),
        run(steps).offers(report),
        deliveries(report) > 0,
        run(steps).answer_of(report, id) == Some(Offer::Full),
    ensures
        delivered(steps.push(Step::Round(report))) == delivered(steps).push(
            run(steps).pending[0],
        ),
        took(steps.push(Step::Round(report)), id) == took(steps, id).push(false),
        received(steps.push(Step::Round(report)), id) == received(steps, id),
        run(steps.push(Step::Round(report))).subscribers.contains(id),
{
    let state = run(steps);
    let after = steps.push(Step::Round(report));
    assert(after.drop_last() == steps);
    let k = state.subscribers.index_of(id);
    assert(0 <= k < state.subscribers.len() && state.subscribers[k] == id);
    lemma_retained_members(state.subscribers, report, state.subscribers.len());
    assert(report[k].stays());
}

/// **Bounded mailbox, for good.** An event that a subscriber did not receive
/// when it left the queue is never received later: whatever steps follow,
/// the record of what the subscriber took so far stays as it is.
pub proof fn law_missed_events_stay_missed<T>(steps: Seq<Step<T>>, more: Seq<Step<T>>, id: nat)
    requires
        admissible(steps + more),
    ensures
        took(steps, id).len() <= took(steps + more, id).len(),
        took(steps + more, id).take(took(steps, id).len() as int) == took(steps, id),
    decreases more.len(),
{
    if more.len() > 0 {
        let prefix = steps + more.drop_last();
        assert((steps + more).drop_last() == prefix);
        law_missed_events_stay_missed(steps, more.drop_last(), id);
        let n = took(steps, id).len() as int;
        if removes(run(prefix), (steps + more).last()) {
            let mark = hands_to(run(prefix), (steps + more).last(), id);
            assert(took(prefix, id).push(mark).take(n) == took(prefix, id).take(n));
        }
    } else {
        assert(steps + more == steps);
        assert(took(steps, id).take(took(steps, id).len() as int) == took(steps, id));
    }
}

/// **Cleanup.** A subscriber whose mailbox a round found gone is not in the
/// registry afterwards.
pub proof fn law_closed_mailboxes_leave<T>(state: HubState<T>, report: Seq<Offer>, id: nat)
    requires
        state.wf(),
        state.answer_of(report, id) == Some(Offer::Closed) || state.answer_of(report, id) == Some(
            Offer::Disconnected,
        ),
    ensures
        !state.round(report).subscribers.contains(id),
{
    let n = state.subscribers.len();
    let k = state.subscribers.index_of(id);
    assert(0 <= k < n && state.subscribers[k] == id);
    lemma_retained_members(state.subscribers, report, n);
    if retained(state.subscribers, report).contains(id) {
        let j = choose|j: int|
            0 <= j < n && state.subscribers[j] == id && #[trigger] report[j].stays();
        lemma_place_of(state, j);
    }
}

/// **Cleanup.** A round adds nobody to the registry: whoever is in it
/// afterwards was in it before, and it is no longer than before.
pub proof fn law_round_never_grows_registry<T>(state: HubState<T>, report: Seq<Offer>)
    requires
        fits(state, Step::Round(report)),
    ensures
        state.round(report).subscribers.len() <= state.subscribers.len(),
        forall|id: nat|
            state.round(report).subscribers.contains(id) ==> state.subscribers.contains(id),
{
    if state.pending.len() > 0 {
        let n = state.subscribers.len();
        lemma_round_counts(state.subscribers, report, n);
        lemma_retained_members(state.subscribers, report, n);
    }
}

/// **Cleanup, over a run.** The registry holds exactly the subscribers that
/// joined and whose mailbox no round has found gone: its size is the number
/// of subscriptions less the number of mailboxes dropped.
pub proof fn law_registry_size<T>(steps: Seq<Step<T>>)
    requires
        admissible(steps),
    ensures
        run(steps).subscribers.len() + dropped(steps) == run(steps).issued,
    decreases steps.len(),
{
    if steps.len() > 0 {
        let before = steps.drop_last();
        let state = run(before);
        law_registry_size(before);
        match steps.last() {
            Step::Round(report) => {
                law_round_never_grows_registry(state, report);
            },
            _ => {},
        }
    }
}

} // verus!
