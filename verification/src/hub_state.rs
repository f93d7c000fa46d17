//! The hub as a mathematical value: the pending queue, the registry and the
//! three transitions the actor can make.

use vstd::prelude::*;
use crate::offer::{deliveries, retained, Offer};

verus! {

/// The state of a hub.
///
/// Subscribers are named by the order in which they joined: the first
/// subscriber is 0, the next is 1, and a name is never used again.
#[verifier::ext_equal]
pub struct HubState<T> {
    /// Events not yet delivered, oldest first.
    pub pending: Seq<T>,
    /// The subscribers whose mailboxes are in the registry, in joining order.
    pub subscribers: Seq<nat>,
    /// How many subscriptions were ever made.
    pub issued: nat,
}

impl<T> HubState<T> {
    /// A hub with nothing pending and nobody subscribed.
    pub open spec fn empty() -> Self {
        HubState { pending: Seq::empty(), subscribers: Seq::empty(), issued: 0 }
    }

    /// The registry lists subscribers in joining order, each once, and only
    /// names that were issued.
    pub open spec fn wf(self) -> bool {
        &&& forall|i: int, j: int|
            0 <= i < j < self.subscribers.len() ==> self.subscribers[i] < self.subscribers[j]
        &&& forall|i: int| 0 <= i < self.subscribers.len() ==> self.subscribers[i] < self.issued
    }

    /// The event goes to the back of the pending queue.
    pub open spec fn emit(self, event: T) -> Self {
        HubState { pending: self.pending.push(event), ..self }
    }

    /// A new subscriber joins at the end of the registry.
    pub open spec fn subscribe(self) -> Self {
        HubState {
            subscribers: self.subscribers.push(self.issued),
            issued: self.issued + 1,
            ..self
        }
    }

    /// One delivery round in which the registry's mailboxes answered `report`.
    ///
    /// With nothing pending the round does nothing. Otherwise the mailboxes
    /// that are gone leave the registry, and the front event leaves the queue
    /// if at least one mailbox accepted it.
    pub open spec fn round(self, report: Seq<Offer>) -> Self
        recommends
            self.pending.len() > 0 ==> report.len() == self.subscribers.len(),
    {
        if self.pending.len() == 0 {
            self
        } else {
            HubState {
                pending: if deliveries(report) > 0 {
                    self.pending.drop_first()
                } else {
                    self.pending
                },
                subscribers: retained(self.subscribers, report),
                issued: self.issued,
            }
        }
    }

    /// The round offers an event to the registry and `report` answers for
    /// each mailbox in it.
    pub open spec fn offers(self, report: Seq<Offer>) -> bool {
        self.pending.len() > 0 && report.len() == self.subscribers.len()
    }

    /// The answer that subscriber `id` gave in a round, if the round offered
    /// it the front event.
    pub open spec fn answer_of(self, report: Seq<Offer>, id: nat) -> Option<Offer> {
        if self.offers(report) && self.subscribers.contains(id) {
            Some(report[self.subscribers.index_of(id)])
        } else {
            None
        }
    }
}

} // verus!
