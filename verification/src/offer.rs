//! The answer of one mailbox to the event that a delivery round offers it,
//! and what a whole round's answers mean for the registry.

use vstd::prelude::*;
use crate::channel::Room;

verus! {

/// What one mailbox did with the event offered to it in a delivery round.
#[derive(Clone, Copy, Debug, PartialEq, Eq, Structural)]
pub enum Offer {
    /// The read end was already known to be gone; nothing was sent.
    Closed,
    /// The mailbox had room and took a copy of the event.
    Accepted,
    /// The mailbox reported, when asked for room, that its read end is gone.
    Disconnected,
    /// The mailbox still holds an event its subscriber has not consumed.
    Full,
}

impl Offer {
    /// The mailbox stays in the registry after this answer.
    pub open spec fn stays(self) -> bool {
        self is Accepted || self is Full
    }

    /// The answer counts as a delivery of the offered event.
    pub open spec fn delivers(self) -> bool {
        self is Accepted
    }

    /// The answer of a mailbox that is not known closed and, asked for room,
    /// said `room`: with room it accepts, without it is full or gone.
    pub open spec fn of_room(room: Room) -> Offer {
        match room {
            Room::Free => Offer::Accepted,
            Room::Full => Offer::Full,
            Room::Disconnected => Offer::Disconnected,
        }
    }

    /// The answer of a mailbox that is not known closed and, asked for room,
    /// said `room`.
    pub fn answering(room: Room) -> (answer: Offer)
        ensures
            answer == Offer::of_room(room),
    {
        match room {
            Room::Free => Offer::Accepted,
            Room::Full => Offer::Full,
            Room::Disconnected => Offer::Disconnected,
        }
    }

    /// Whether the mailbox that gave this answer is kept in the registry.
    pub fn keeps_mailbox(&self) -> (kept: bool)
        ensures
            kept == self.stays(),
    {
        match self {
            Offer::Accepted => true,
            Offer::Full => true,
            Offer::Closed => false,
            Offer::Disconnected => false,
        }
    }

    /// Whether this answer adds one to the round's delivery counter.
    pub fn is_delivery(&self) -> (delivered: bool)
        ensures
            delivered == self.delivers(),
    {
        match self {
            Offer::Accepted => true,
            _ => false,
        }
    }
}

/// The members among the first `n` whose mailbox stays, in registry order.
pub open spec fn retained_upto<A>(members: Seq<A>, report: Seq<Offer>, n: nat) -> Seq<A>
    recommends
        n <= members.len(),
        n <= report.len(),
    decreases n,
{
    if n == 0 {
        Seq::empty()
    } else {
        let before = retained_upto(members, report, (n - 1) as nat);
        if report[n - 1].stays() {
            before.push(members[n - 1])
        } else {
            before
        }
    }
}

/// The members whose mailbox stays after a round with the given answers.
pub open spec fn retained<A>(members: Seq<A>, report: Seq<Offer>) -> Seq<A>
    recommends
        members.len() == report.len(),
{
    retained_upto(members, report, members.len())
}

/// The number of deliveries among the first `n` answers.
pub open spec fn deliveries_upto(report: Seq<Offer>, n: nat) -> nat
    recommends
        n <= report.len(),
    decreases n,
{
    if n == 0 {
        0
    } else {
        let before = deliveries_upto(report, (n - 1) as nat);
        if report[n - 1].delivers() {
            before + 1
        } else {
            before
        }
    }
}

/// The delivery counter of a round: how many mailboxes accepted the event.
pub open spec fn deliveries(report: Seq<Offer>) -> nat {
    deliveries_upto(report, report.len())
}

/// Every answer of the round is `Accepted`.
pub open spec fn all_accepted(report: Seq<Offer>) -> bool {
    forall|k: int| 0 <= k < report.len() ==> report[k] is Accepted
}

/// `retained_upto` reads only the first `n` members and answers.
pub proof fn lemma_retained_upto_prefix<A>(
    members: Seq<A>,
    report: Seq<Offer>,
    members2: Seq<A>,
    report2: Seq<Offer>,
    n: nat,
)
    requires
        n <= members.len(),
        n <= report.len(),
        n <= members2.len(),
        n <= report2.len(),
        forall|k: int| 0 <= k < n ==> #[trigger] members[k] == members2[k],
        forall|k: int| 0 <= k < n ==> #[trigger] report[k] == report2[k],
    ensures
        retained_upto(members, report, n) == retained_upto(members2, report2, n),
    decreases n,
{
    if n > 0 {
        lemma_retained_upto_prefix(members, report, members2, report2, (n - 1) as nat);
    }
}

/// `deliveries_upto` reads only the first `n` answers.
pub proof fn lemma_deliveries_upto_prefix(report: Seq<Offer>, report2: Seq<Offer>, n: nat)
    requires
        n <= report.len(),
        n <= report2.len(),
        forall|k: int| 0 <= k < n ==> #[trigger] report[k] == report2[k],
    ensures
        deliveries_upto(report, n) == deliveries_upto(report2, n),
    decreases n,
{
    if n > 0 {
        lemma_deliveries_upto_prefix(report, report2, (n - 1) as nat);
    }
}

/// A round never counts more deliveries than it keeps mailboxes, and keeps
/// no more mailboxes than it examined.
pub proof fn lemma_round_counts<A>(members: Seq<A>, report: Seq<Offer>, n: nat)
    requires
        n <= members.len(),
        n <= report.len(),
    ensures
        deliveries_upto(report, n) <= retained_upto(members, report, n).len() <= n,
    decreases n,
{
    if n > 0 {
        lemma_round_counts(members, report, (n - 1) as nat);
    }
}

/// Each retained member is one of the examined members whose mailbox stays,
/// and each such member is retained.
pub proof fn lemma_retained_members<A>(members: Seq<A>, report: Seq<Offer>, n: nat)
    requires
        n <= members.len(),
        n <= report.len(),
    ensures
        forall|a: A|
            retained_upto(members, report, n).contains(a) <==> exists|k: int|
                0 <= k < n && members[k] == a && #[trigger] report[k].stays(),
    decreases n,
{
    let kept = retained_upto(members, report, n);
    if n > 0 {
        let before = retained_upto(members, report, (n - 1) as nat);
        lemma_retained_members(members, report, (n - 1) as nat);
        assert forall|a: A| kept.contains(a) implies exists|k: int|
            0 <= k < n && members[k] == a && #[trigger] report[k].stays() by {
            let j = choose|j: int| 0 <= j < kept.len() && kept[j] == a;
            if j < before.len() {
                assert(before.contains(a));
                let k = choose|k: int|
                    0 <= k < n - 1 && members[k] == a && #[trigger] report[k].stays();
                assert(0 <= k < n && members[k] == a && report[k].stays());
            } else {
                assert(members[n - 1] == a && report[n - 1].stays());
            }
        }
        assert forall|a: A|
            (exists|k: int| 0 <= k < n && members[k] == a && #[trigger] report[k].stays())
            implies kept.contains(a) by {
            let k = choose|k: int| 0 <= k < n && members[k] == a && #[trigger] report[k].stays();
            if k < n - 1 {
                assert(before.contains(a));
                let j = choose|j: int| 0 <= j < before.len() && before[j] == a;
                assert(kept[j] == a);
            } else {
                assert(kept[kept.len() - 1] == a);
            }
        }
    } else {
        assert forall|a: A| !kept.contains(a) by {}
    }
}

/// When every mailbox accepts, the registry is unchanged and every answer
/// is a delivery.
pub proof fn lemma_all_accepted<A>(members: Seq<A>, report: Seq<Offer>, n: nat)
    requires
        n <= members.len(),
        n <= report.len(),
        all_accepted(report),
    ensures
        retained_upto(members, report, n) == members.take(n as int),
        deliveries_upto(report, n) == n,
    decreases n,
{
    if n > 0 {
        lemma_all_accepted(members, report, (n - 1) as nat);
        assert(members.take(n as int) == members.take(n - 1).push(members[n - 1]));
    } else {
        assert(members.take(0) == Seq::<A>::empty());
    }
}

} // verus!
