use futures::channel::mpsc::Receiver;
use futures::task::noop_waker;
use std::sync::atomic::{AtomicUsize, Ordering};
use std::sync::Arc;
use std::task::{Context, Wake, Waker};
use warp_events::event_subscription::{
    cancel_on_drop, Activity, Command, EventSubscription, EventSubscriptionTask,
    MAILBOX_CAPACITY,
};
use warp_events::channel::Room;
use warp_events::offer::Offer;

struct Wakes(AtomicUsize);

impl Wake for Wakes {
    fn wake(self: Arc<Self>) {
        self.0.fetch_add(1, Ordering::SeqCst);
    }
}

fn counting_waker() -> (Arc<Wakes>, Waker) {
    let wakes = Arc::new(Wakes(AtomicUsize::new(0)));
    (wakes.clone(), Waker::from(wakes))
}

fn take(stream: &mut Receiver<String>) -> Option<String> {
    stream.try_recv().ok()
}

#[test]
fn emit_event() {
    let waker = noop_waker();
    let mut cx = Context::from_waker(&waker);
    let (pubsub, mut task) = EventSubscription::<String>::new();
    let mut stream = task.subscribe();

    pubsub.try_emit(String::from("Hello, World"));
    assert_eq!(task.step(&mut cx).1, Activity::Emitted);
    pubsub.try_emit(String::from("World, Hello"));
    let (report, activity) = task.step(&mut cx);
    assert_eq!(report, vec![Offer::Accepted]);
    assert_eq!(activity, Activity::Emitted);

    let ev = take(&mut stream).expect("Stream contains value");
    assert_eq!(ev, "Hello, World");

    // The mailbox holds one event: the second one follows once the first
    // has been taken and the actor has run again.
    let (report, activity) = task.step(&mut cx);
    assert_eq!(report, vec![Offer::Accepted]);
    assert_eq!(activity, Activity::Idle);
    let ev = take(&mut stream).expect("Stream contains value");
    assert_eq!(ev, "World, Hello");
}

#[test]
fn multiple_emit_before_subscription() {
    let waker = noop_waker();
    let mut cx = Context::from_waker(&waker);
    let (pubsub, mut task) = EventSubscription::<String>::new();
    pubsub.try_emit(String::from("Hello, World"));
    assert_eq!(task.step(&mut cx).1, Activity::Emitted);
    pubsub.try_emit(String::from("World, Hello"));
    assert_eq!(task.step(&mut cx).1, Activity::Emitted);
    // Rounds without a subscriber leave the queue alone.
    assert_eq!(task.deliver(&mut cx), Vec::<Offer>::new());
    assert_eq!(task.pending_count(), 2);

    let mut stream = task.subscribe();

    let mut list = Vec::new();
    while list.len() < 2 {
        task.step(&mut cx);
        if let Some(ev) = take(&mut stream) {
            list.push(ev);
        }
    }

    assert_eq!(list.len(), 2);

    assert_eq!(list[0], "Hello, World");
    assert_eq!(list[1], "World, Hello");
    assert_eq!(task.pending_count(), 0);
}

#[test]
fn responsive_subscriber_sees_emission_order() {
    let waker = noop_waker();
    let mut cx = Context::from_waker(&waker);
    let (_pubsub, mut task) = EventSubscription::<String>::new();
    let mut stream = task.subscribe();
    let sent: Vec<String> = (0..20).map(|i| format!("event {i}")).collect();
    for ev in &sent {
        task.emit(ev.clone());
    }
    let mut seen = Vec::new();
    for _ in 0..sent.len() {
        assert_eq!(task.deliver(&mut cx), vec![Offer::Accepted]);
        seen.push(take(&mut stream).unwrap());
    }
    assert_eq!(seen, sent);
    assert_eq!(task.pending_count(), 0);
    assert!(take(&mut stream).is_none());
}

#[test]
fn mailbox_holds_a_single_event() {
    assert_eq!(MAILBOX_CAPACITY, 1);
    let waker = noop_waker();
    let mut cx = Context::from_waker(&waker);
    let (_pubsub, mut task) = EventSubscription::<String>::new();
    let mut stream = task.subscribe();
    task.emit(String::from("a"));
    task.emit(String::from("b"));
    assert_eq!(task.deliver(&mut cx), vec![Offer::Accepted]);
    assert_eq!(task.pending_count(), 1);
    // Nobody accepted: the event stays at the front and the mailbox stays.
    assert_eq!(task.deliver(&mut cx), vec![Offer::Full]);
    assert_eq!(task.deliver(&mut cx), vec![Offer::Full]);
    assert_eq!(task.pending_count(), 1);
    assert_eq!(task.subscriber_count(), 1);
    assert_eq!(take(&mut stream).unwrap(), "a");
    assert!(take(&mut stream).is_none());
    assert_eq!(task.deliver(&mut cx), vec![Offer::Accepted]);
    assert_eq!(task.pending_count(), 0);
    assert_eq!(take(&mut stream).unwrap(), "b");
}

#[test]
fn fan_out_to_two_responsive_subscribers() {
    let waker = noop_waker();
    let mut cx = Context::from_waker(&waker);
    let (_pubsub, mut task) = EventSubscription::<String>::new();
    let mut first = task.subscribe();
    let mut second = task.subscribe();
    task.emit(String::from("X"));
    assert_eq!(task.deliver(&mut cx), vec![Offer::Accepted, Offer::Accepted]);
    assert_eq!(take(&mut first).unwrap(), "X");
    assert_eq!(take(&mut second).unwrap(), "X");
    assert_eq!(task.pending_count(), 0);
    assert_eq!(task.subscriber_count(), 2);
    assert_eq!(task.deliver(&mut cx), Vec::<Offer>::new());
    assert!(take(&mut first).is_none());
    assert!(take(&mut second).is_none());
}

#[test]
fn stalled_subscriber_misses_events() {
    let waker = noop_waker();
    let mut cx = Context::from_waker(&waker);
    let (_pubsub, mut task) = EventSubscription::<String>::new();
    let mut stalled = task.subscribe();
    let mut draining = task.subscribe();

    task.emit(String::from("one"));
    assert_eq!(task.deliver(&mut cx), vec![Offer::Accepted, Offer::Accepted]);
    assert_eq!(take(&mut draining).unwrap(), "one");

    // The stalled subscriber still holds "one" when "two" goes out. The
    // draining subscriber accepts it, so it leaves the queue: this loss is
    // what the hub promises, not a fault.
    task.emit(String::from("two"));
    assert_eq!(task.deliver(&mut cx), vec![Offer::Full, Offer::Accepted]);
    assert_eq!(task.pending_count(), 0);
    assert_eq!(task.subscriber_count(), 2);
    assert_eq!(take(&mut draining).unwrap(), "two");

    assert_eq!(take(&mut stalled).unwrap(), "one");
    assert_eq!(task.deliver(&mut cx), Vec::<Offer>::new());
    assert!(take(&mut stalled).is_none());

    // It gets the next event it is ready for.
    task.emit(String::from("three"));
    assert_eq!(task.deliver(&mut cx), vec![Offer::Accepted, Offer::Accepted]);
    assert_eq!(take(&mut stalled).unwrap(), "three");
    assert_eq!(take(&mut draining).unwrap(), "three");
}

#[test]
fn closed_subscribers_leave_the_registry() {
    let waker = noop_waker();
    let mut cx = Context::from_waker(&waker);
    let (_pubsub, mut task) = EventSubscription::<String>::new();
    let first = task.subscribe();
    let mut second = task.subscribe();
    let third = task.subscribe();
    assert_eq!(task.subscriber_count(), 3);
    drop(first);
    drop(third);
    // A dropped read end is found on the next round that has an event.
    assert_eq!(task.deliver(&mut cx), Vec::<Offer>::new());
    assert_eq!(task.subscriber_count(), 3);
    task.emit(String::from("still here"));
    assert_eq!(task.deliver(&mut cx), vec![Offer::Closed, Offer::Accepted, Offer::Closed]);
    assert_eq!(task.subscriber_count(), 1);
    assert_eq!(take(&mut second).unwrap(), "still here");

    for i in 0..100 {
        let short_lived = task.subscribe();
        drop(short_lived);
        task.emit(format!("event {i}"));
        assert_eq!(task.deliver(&mut cx), vec![Offer::Accepted, Offer::Closed]);
        assert_eq!(task.subscriber_count(), 1);
        assert_eq!(take(&mut second).unwrap(), format!("event {i}"));
    }
}

#[test]
fn sole_closed_subscriber_keeps_the_event_queued() {
    let waker = noop_waker();
    let mut cx = Context::from_waker(&waker);
    let (_pubsub, mut task) = EventSubscription::<String>::new();
    let gone = task.subscribe();
    drop(gone);
    task.emit(String::from("kept"));
    assert_eq!(task.deliver(&mut cx), vec![Offer::Closed]);
    assert_eq!(task.subscriber_count(), 0);
    assert_eq!(task.pending_count(), 1);
    let mut late = task.subscribe();
    assert_eq!(task.deliver(&mut cx), vec![Offer::Accepted]);
    assert_eq!(take(&mut late).unwrap(), "kept");
}

#[test]
fn emit_after_the_actor_is_gone_does_nothing() {
    let (pubsub, task) = EventSubscription::<String>::new();
    let other = pubsub.clone();
    drop(task);
    pubsub.try_emit(String::from("nobody listens"));
    other.try_emit(String::from("nobody listens"));
    drop(pubsub);
    other.try_emit(String::from("nobody listens"));
}

#[test]
fn actor_terminates_when_every_handle_is_dropped() {
    let waker = noop_waker();
    let mut cx = Context::from_waker(&waker);
    let (pubsub, mut task) = EventSubscription::<String>::new();
    let other = pubsub.clone();
    assert_eq!(task.step(&mut cx).1, Activity::Idle);
    drop(pubsub);
    assert_eq!(task.step(&mut cx).1, Activity::Idle);
    other.try_emit(String::from("last words"));
    drop(other);
    // What was sent before the last handle went is still served.
    assert_eq!(task.step(&mut cx).1, Activity::Emitted);
    assert_eq!(task.pending_count(), 1);
    assert_eq!(task.step(&mut cx).1, Activity::Terminated);
    assert_eq!(task.step(&mut cx).1, Activity::Terminated);
}

#[test]
fn subscribe_command_sends_the_read_end_back() {
    let waker = noop_waker();
    let mut cx = Context::from_waker(&waker);
    let (pubsub, mut task) = EventSubscription::<String>::new();
    let (response, mut reply) = futures::channel::oneshot::channel();
    let mut commands = pubsub.commands();
    assert!(commands.try_send(Command::Subscribe { response }).is_ok());
    pubsub.try_emit(String::from("queued behind"));

    let (report, activity) = task.step(&mut cx);
    assert_eq!(report, Vec::<Offer>::new());
    assert_eq!(activity, Activity::Subscribed);
    assert_eq!(task.subscriber_count(), 1);
    let mut stream = reply.try_recv().unwrap().expect("the actor replied");

    assert_eq!(task.step(&mut cx).1, Activity::Emitted);
    let (report, activity) = task.step(&mut cx);
    assert_eq!(report, vec![Offer::Accepted]);
    assert_eq!(activity, Activity::Idle);
    assert_eq!(take(&mut stream).unwrap(), "queued behind");
}

#[test]
fn subscribe_after_shutdown_is_unavailable() {
    let (pubsub, task) = EventSubscription::<String>::new();
    drop(task);
    let (response, mut reply) = futures::channel::oneshot::channel::<Receiver<String>>();
    let mut commands = pubsub.commands();
    let sent = commands.try_send(Command::Subscribe { response });
    assert!(sent.is_err());
    drop(sent);
    assert!(reply.try_recv().is_err());
}

#[test]
fn handle_serves_each_command() {
    let (_pubsub, mut task) = EventSubscription::<u32>::new();
    assert_eq!(task.handle(Command::Emit { event: 7 }), Activity::Emitted);
    assert_eq!(task.handle(Command::Emit { event: 8 }), Activity::Emitted);
    assert_eq!(task.pending_count(), 2);
    let (response, mut reply) = futures::channel::oneshot::channel();
    assert_eq!(task.handle(Command::Subscribe { response }), Activity::Subscribed);
    assert_eq!(task.subscriber_count(), 1);
    assert!(reply.try_recv().unwrap().is_some());
}

#[test]
fn subscription_whose_requester_left_is_cleaned_up() {
    let waker = noop_waker();
    let mut cx = Context::from_waker(&waker);
    let (_pubsub, mut task) = EventSubscription::<u32>::new();
    let (response, reply) = futures::channel::oneshot::channel();
    drop(reply);
    assert_eq!(task.handle(Command::Subscribe { response }), Activity::Subscribed);
    assert_eq!(task.subscriber_count(), 1);
    task.emit(1);
    assert_eq!(task.deliver(&mut cx), vec![Offer::Closed]);
    assert_eq!(task.subscriber_count(), 0);
    assert_eq!(task.pending_count(), 1);
}

#[test]
fn offers_decide_retention_and_counting() {
    assert!(Offer::Accepted.keeps_mailbox());
    assert!(Offer::Full.keeps_mailbox());
    assert!(!Offer::Closed.keeps_mailbox());
    assert!(!Offer::Disconnected.keeps_mailbox());
    assert!(Offer::Accepted.is_delivery());
    assert!(!Offer::Full.is_delivery());
    assert!(!Offer::Closed.is_delivery());
    assert!(!Offer::Disconnected.is_delivery());
}

#[test]
fn room_decides_the_answer() {
    assert_eq!(Offer::answering(Room::Free), Offer::Accepted);
    assert_eq!(Offer::answering(Room::Full), Offer::Full);
    assert_eq!(Offer::answering(Room::Disconnected), Offer::Disconnected);
}

#[test]
fn only_the_last_handle_cancels_a_running_task() {
    assert!(cancel_on_drop(1, false));
    assert!(!cancel_on_drop(1, true));
    assert!(!cancel_on_drop(2, false));
    assert!(!cancel_on_drop(2, true));
    assert!(!cancel_on_drop(0, false));
}

#[test]
fn new_actor_is_empty() {
    let (_pubsub, task) = EventSubscription::<u32>::new();
    assert_eq!(task.pending_count(), 0);
    assert_eq!(task.subscriber_count(), 0);
    let (_tx, rx) = futures::channel::mpsc::channel::<Command<u32>>(0);
    let task = EventSubscriptionTask::new(rx);
    assert_eq!(task.pending_count(), 0);
    assert_eq!(task.subscriber_count(), 0);
}

#[test]
fn subscription_wakes_a_waiting_actor() {
    let (wakes, waker) = counting_waker();
    let mut cx = Context::from_waker(&waker);
    let (_pubsub, mut task) = EventSubscription::<String>::new();
    assert!(!task.waiting());
    task.emit(String::from("stuck"));
    assert!(!task.waiting());
    assert_eq!(task.deliver(&mut cx), Vec::<Offer>::new());
    assert!(task.waiting());
    assert_eq!(wakes.0.load(Ordering::SeqCst), 0);

    let (response, _reply) = futures::channel::oneshot::channel();
    assert_eq!(task.handle(Command::Subscribe { response }), Activity::Subscribed);
    assert!(!task.waiting());
    assert_eq!(wakes.0.load(Ordering::SeqCst), 1);

    // An actor that is not waiting is not woken again.
    let (response, _other) = futures::channel::oneshot::channel();
    assert_eq!(task.handle(Command::Subscribe { response }), Activity::Subscribed);
    assert_eq!(wakes.0.load(Ordering::SeqCst), 1);

    assert_eq!(task.deliver(&mut cx), vec![Offer::Accepted, Offer::Accepted]);
    assert!(task.waiting());
    assert_eq!(task.handle(Command::Emit { event: String::from("next") }), Activity::Emitted);
    assert!(task.waiting());
    assert_eq!(wakes.0.load(Ordering::SeqCst), 1);
}

#[test]
fn emptied_mailbox_wakes_the_actor() {
    let (wakes, waker) = counting_waker();
    let mut cx = Context::from_waker(&waker);
    let (_pubsub, mut task) = EventSubscription::<String>::new();
    let mut stream = task.subscribe();
    task.emit(String::from("a"));
    task.emit(String::from("b"));
    assert_eq!(task.deliver(&mut cx), vec![Offer::Accepted]);
    assert_eq!(task.deliver(&mut cx), vec![Offer::Full]);
    assert_eq!(wakes.0.load(Ordering::SeqCst), 0);
    assert_eq!(take(&mut stream).unwrap(), "a");
    assert_eq!(wakes.0.load(Ordering::SeqCst), 1);
    assert_eq!(task.deliver(&mut cx), vec![Offer::Accepted]);
    assert_eq!(take(&mut stream).unwrap(), "b");
}

#[test]
fn arriving_command_wakes_the_actor() {
    let (wakes, waker) = counting_waker();
    let mut cx = Context::from_waker(&waker);
    let (pubsub, mut task) = EventSubscription::<String>::new();
    assert_eq!(task.step(&mut cx).1, Activity::Idle);
    assert!(task.waiting());
    assert_eq!(wakes.0.load(Ordering::SeqCst), 0);
    pubsub.try_emit(String::from("wake up"));
    assert_eq!(wakes.0.load(Ordering::SeqCst), 1);
    assert_eq!(task.step(&mut cx).1, Activity::Emitted);
    assert!(task.waiting());
    let (response, _reply) = futures::channel::oneshot::channel();
    assert!(pubsub.commands().try_send(Command::Subscribe { response }).is_ok());
    let (report, activity) = task.step(&mut cx);
    assert_eq!(report, Vec::<Offer>::new());
    assert_eq!(activity, Activity::Subscribed);
    assert!(!task.waiting());
}
