//! The channels of the `futures` crate that carry the hub's commands and
//! fill its mailboxes.
//!
//! Nothing in this file is proved. What a channel answers depends on what
//! the task at its other end has done, so the functions here promise nothing
//! about their results: the hub is verified for every answer they can give.
//!
//! The channel functions panic on no input. They share a lock with the task
//! at the other end and panic if that task has panicked while holding it,
//! which it does only if a waker it was asked to wake panics.

use vstd::prelude::*;
use futures::channel::mpsc::{Receiver, Sender};
use std::task::{Context, Waker};

verus! {

/// The write end of a bounded channel of `futures::channel::mpsc`.
#[verifier::external_type_specification]
#[verifier::external_body]
#[verifier::reject_recursive_types(T)]
pub struct ExSender<T>(Sender<T>);

/// The read end of a bounded channel of `futures::channel::mpsc`.
#[verifier::external_type_specification]
#[verifier::external_body]
#[verifier::reject_recursive_types(T)]
pub struct ExReceiver<T>(Receiver<T>);

/// The write end of a one-shot channel of `futures::channel::oneshot`.
#[verifier::external_type_specification]
#[verifier::external_body]
#[verifier::reject_recursive_types(T)]
pub struct ExReplySender<T>(futures::channel::oneshot::Sender<T>);

/// The context that a task is polled with; it carries the task's waker.
#[verifier::external_type_specification]
#[verifier::external_body]
pub struct ExContext<'a>(Context<'a>);

/// The handle by which a suspended task is woken.
#[verifier::external_type_specification]
#[verifier::external_body]
pub struct ExWaker(Waker);

/// What the write end of a channel says about sending one message.
#[derive(Clone, Copy, Debug, PartialEq, Eq, Structural)]
pub enum Room {
    /// There is room: the message can be, or was, handed over.
    Free,
    /// The channel is at capacity.
    Full,
    /// The read end is gone.
    Disconnected,
}

/// What the read end of a channel yields when polled.
pub enum Incoming<T> {
    /// The next message.
    Message(T),
    /// Every write end is gone and nothing is left to read.
    Closed,
    /// Nothing to read for now; the polling task will be woken.
    Idle,
}

/// Calls `futures::channel::mpsc::channel`, which makes a channel whose
/// capacity is `buffer` plus one slot for each write end. The call panics
/// for a `buffer` of a quarter of `usize::MAX` or more; the bound asked for
/// here is below that on every platform.
#[verifier::external_body]
pub(crate) fn open_channel<T>(buffer: usize) -> (ends: (Sender<T>, Receiver<T>))
    requires
        buffer < 0x3fff_ffff,
{
    futures::channel::mpsc::channel(buffer)
}

/// Calls `Sender::is_closed`: whether the channel was seen closed at the
/// moment of the call. Nothing is claimed of the answer.
#[verifier::external_body]
pub(crate) fn sender_is_closed<T>(sender: &Sender<T>) -> (closed: bool) {
    sender.is_closed()
}

/// Calls `Sender::poll_ready`, which reports whether the channel has room
/// for one message from this write end and, if it has not, registers the
/// context's waker to be woken when room appears. Nothing is claimed of the
/// answer.
#[verifier::external_body]
pub(crate) fn sender_poll_ready<T>(sender: &mut Sender<T>, cx: &mut Context<'_>) -> (room: Room) {
    match sender.poll_ready(cx) {
        std::task::Poll::Ready(Ok(())) => Room::Free,
        std::task::Poll::Ready(Err(e)) => if e.is_disconnected() {
            Room::Disconnected
        } else {
            Room::Full
        },
        std::task::Poll::Pending => Room::Full,
    }
}

/// Calls `Sender::try_send`, which hands the message to the channel unless
/// the channel is full or its read end is gone; the message is then dropped.
/// Nothing is claimed of the answer.
#[verifier::external_body]
pub(crate) fn sender_try_send<T>(sender: &mut Sender<T>, message: T) -> (room: Room) {
    match sender.try_send(message) {
        Ok(()) => Room::Free,
        Err(e) => if e.is_disconnected() {
            Room::Disconnected
        } else {
            Room::Full
        },
    }
}

/// Calls `Sender::clone`, which makes another write end of the same channel.
/// The call panics only when the channel already has as many write ends as
/// it can count messages, about half of `usize::MAX`, more than fit in
/// memory.
#[verifier::external_body]
pub(crate) fn sender_clone<T>(sender: &Sender<T>) -> (copy: Sender<T>) {
    sender.clone()
}

/// Calls `Stream::poll_next` on a `Receiver`, which takes the next message
/// off the channel or, if there is none, registers the context's waker to be
/// woken when one arrives. Nothing is claimed of the answer.
#[verifier::external_body]
pub(crate) fn receiver_poll_next<T>(
    receiver: &mut Receiver<T>,
    cx: &mut Context<'_>,
) -> (incoming: Incoming<T>) {
    match futures::Stream::poll_next(std::pin::Pin::new(receiver), cx) {
        std::task::Poll::Ready(Some(message)) => Incoming::Message(message),
        std::task::Poll::Ready(None) => Incoming::Closed,
        std::task::Poll::Pending => Incoming::Idle,
    }
}

/// Calls `futures::channel::oneshot::Sender::send`, which places the value
/// in the one-shot channel unless its read end is gone. Returns whether the
/// value was placed; nothing is claimed of the answer.
#[verifier::external_body]
pub(crate) fn reply_send<T>(reply: futures::channel::oneshot::Sender<T>, value: T) -> (placed: bool) {
    reply.send(value).is_ok()
}

/// Calls `Context::waker`, which lends the waker of the task being polled.
#[verifier::external_body]
pub(crate) fn context_waker<'a>(cx: &'a Context<'_>) -> (waker: &'a Waker) {
    cx.waker()
}

/// Calls `Waker::clone`, which makes another handle to the same task.
#[verifier::external_body]
pub(crate) fn waker_clone(waker: &Waker) -> (copy: Waker) {
    waker.clone()
}

/// Calls `Waker::wake`, which asks the executor to poll the task again.
#[verifier::external_body]
pub(crate) fn waker_wake(waker: Waker) {
    waker.wake()
}

} // verus!
