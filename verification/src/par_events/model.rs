//! The mathematical model of the event storage.
//!
//! The storage is seen as three things: how many ids have been handed out,
//! and, for each of the two update cycles that are kept, one sequence of
//! events per slot. Everything that the storage and its readers promise is
//! stated over [`ParEventsView`].

use super::record::ParEventInstance;
use vstd::prelude::*;

verus! {

/// The events of one update cycle: one sequence per slot, each in the order
/// in which that slot's events were sent.
pub type Slots<E> = Seq<Seq<ParEventInstance<E>>>;

/// Whether `slots` has an event at place `i` of slot `l`.
pub open spec fn holds_at<E>(slots: Slots<E>, l: int, i: int) -> bool {
    0 <= l < slots.len() && 0 <= i < slots[l].len()
}

/// The number of the event at place `i` of slot `l`.
pub open spec fn number_at<E>(slots: Slots<E>, l: int, i: int) -> int {
    slots[l][i].number()
}

/// Whether some event of `slots` was sent under the number `id`.
pub open spec fn holds<E>(slots: Slots<E>, id: int) -> bool {
    exists|l: int, i: int| holds_at(slots, l, i) && #[trigger] number_at(slots, l, i) == id
}

/// How many events `slots` holds, all slots together.
pub open spec fn total<E>(slots: Slots<E>) -> nat
    decreases slots.len(),
{
    if slots.len() == 0 {
        0
    } else {
        total(slots.drop_last()) + slots.last().len()
    }
}

/// All events of `slots`, slot after slot.
pub open spec fn joined<E>(slots: Slots<E>) -> Seq<ParEventInstance<E>>
    decreases slots.len(),
{
    if slots.len() == 0 {
        Seq::empty()
    } else {
        joined(slots.drop_last()) + slots.last()
    }
}

/// `n` slots without events.
pub open spec fn empty_slots<E>(n: nat) -> Slots<E> {
    Seq::new(n, |l: int| Seq::<ParEventInstance<E>>::empty())
}

/// The events of `slots` are exactly those numbered from `lo` up to, but
/// not including, `hi`: each number is there once, and within a slot the
/// numbers grow.
pub open spec fn spans<E>(slots: Slots<E>, lo: int, hi: int) -> bool {
    &&& lo <= hi
    &&& forall|l: int, i: int|
        holds_at(slots, l, i) ==> lo <= #[trigger] number_at(slots, l, i) < hi
    &&& forall|id: int| lo <= id < hi ==> #[trigger] holds(slots, id)
    &&& forall|l: int, i: int, j: int|
        holds_at(slots, l, i) && holds_at(slots, l, j) && i < j ==> #[trigger] number_at(
            slots,
            l,
            i,
        ) < #[trigger] number_at(slots, l, j)
    &&& forall|l: int, i: int, m: int, j: int|
        holds_at(slots, l, i) && holds_at(slots, m, j) && l != m ==> #[trigger] number_at(
            slots,
            l,
            i,
        ) != #[trigger] number_at(slots, m, j)
}

/// The event of `slots` that was sent under the number `id`.
pub open spec fn pick<E>(slots: Slots<E>, id: int) -> ParEventInstance<E> {
    let (l, i) = choose|l: int, i: int|
        holds_at(slots, l, i) && #[trigger] number_at(slots, l, i) == id;
    slots[l][i]
}

/// The events of `slots` numbered from `lo` up to `hi`, by number.
pub open spec fn ascending<E>(slots: Slots<E>, lo: int, hi: int) -> Seq<ParEventInstance<E>> {
    Seq::new((hi - lo) as nat, |k: int| pick(slots, lo + k))
}

/// The payloads of `events`, in the same order.
pub open spec fn payloads<E>(events: Seq<ParEventInstance<E>>) -> Seq<E> {
    Seq::new(events.len(), |k: int| events[k].event)
}

/// What a [`ParEvents`](super::ParEvents) holds.
pub struct ParEventsView<E> {
    /// How many ids have been handed out; the next event gets this number.
    pub count: nat,
    /// The events of the cycle before the current one, by slot.
    pub older: Slots<E>,
    /// The events of the current cycle, by slot.
    pub newer: Slots<E>,
}

impl<E> ParEventsView<E> {
    /// The number of slots.
    pub open spec fn slots(self) -> nat {
        self.newer.len()
    }

    /// The number of events that are kept.
    pub open spec fn len(self) -> nat {
        total(self.older) + total(self.newer)
    }

    /// The number of the first event of the current cycle.
    pub open spec fn middle(self) -> int {
        self.count - total(self.newer)
    }

    /// The number of the oldest event that is kept; `count` if none is.
    pub open spec fn oldest(self) -> int {
        self.count - total(self.newer) - total(self.older)
    }

    /// What holds of every storage: both cycles have the same slots, and the
    /// events kept are exactly those numbered from `oldest()` to `count`,
    /// the earlier ones in the older cycle.
    pub open spec fn wf(self) -> bool {
        &&& self.older.len() == self.newer.len()
        &&& self.count <= u64::MAX
        &&& 0 <= self.oldest()
        &&& self.len() <= usize::MAX
        &&& spans(self.older, self.oldest(), self.middle())
        &&& spans(self.newer, self.middle(), self.count as int)
    }

    /// Whether `n` more events can be sent: their ids and the number of
    /// events kept must still fit the machine's integers.
    pub open spec fn has_room(self, n: nat) -> bool {
        self.count + n <= u64::MAX && self.len() + n <= usize::MAX
    }

    /// All events that are kept, by number.
    pub open spec fn retained(self) -> Seq<ParEventInstance<E>> {
        ascending(self.older, self.oldest(), self.middle()) + ascending(
            self.newer,
            self.middle(),
            self.count as int,
        )
    }

    /// Where a reader that has seen everything below `last` goes on: at
    /// `last`, but not before the oldest event kept and not beyond `count`.
    pub open spec fn resume(self, last: int) -> int {
        if last < self.oldest() {
            self.oldest()
        } else if last > self.count {
            self.count as int
        } else {
            last
        }
    }

    /// The events that a reader which has seen everything below `last` has
    /// not seen yet, by number.
    pub open spec fn unread(self, last: int) -> Seq<ParEventInstance<E>> {
        self.retained().skip(self.resume(last) - self.oldest())
    }

    /// The storage after `event` was sent to `slot`.
    pub open spec fn send(self, slot: int, event: E) -> Self {
        ParEventsView {
            count: self.count + 1,
            older: self.older,
            newer: self.newer.update(
                slot,
                self.newer[slot].push(ParEventInstance::stamped(self.count as int, event)),
            ),
        }
    }

    /// The storage after `events` were sent to `slot`, one after the other.
    pub open spec fn extend(self, slot: int, events: Seq<E>) -> Self
        decreases events.len(),
    {
        if events.len() == 0 {
            self
        } else {
            self.extend(slot, events.drop_last()).send(slot, events.last())
        }
    }

    /// The storage after an update: the current cycle becomes the older
    /// one, and what was the older one is dropped.
    pub open spec fn rotate(self) -> Self {
        ParEventsView {
            count: self.count,
            older: self.newer,
            newer: empty_slots(self.older.len()),
        }
    }

    /// The storage after all its events were removed.
    pub open spec fn clear(self) -> Self {
        ParEventsView {
            count: self.count,
            older: empty_slots(self.older.len()),
            newer: empty_slots(self.newer.len()),
        }
    }

    /// The storage after one more slot was added.
    pub open spec fn add_slot(self) -> Self {
        ParEventsView {
            count: self.count,
            older: self.older.push(Seq::empty()),
            newer: self.newer.push(Seq::empty()),
        }
    }
}

/// Replacing one slot changes the total by the difference of the lengths.
pub proof fn lemma_total_update<E>(slots: Slots<E>, l: int, slot: Seq<ParEventInstance<E>>)
    requires
        0 <= l < slots.len(),
    ensures
        total(slots.update(l, slot)) == total(slots) - slots[l].len() + slot.len(),
    decreases slots.len(),
{
    let after = slots.update(l, slot);
    if l == slots.len() - 1 {
        assert(after.drop_last() =~= slots.drop_last());
    } else {
        lemma_total_update(slots.drop_last(), l, slot);
        assert(after.drop_last() =~= slots.drop_last().update(l, slot));
    }
}

/// One more slot adds its length to the total.
pub proof fn lemma_total_push<E>(slots: Slots<E>, slot: Seq<ParEventInstance<E>>)
    ensures
        total(slots.push(slot)) == total(slots) + slot.len(),
{
    assert(slots.push(slot).drop_last() =~= slots);
}

/// Slots without events hold no events.
pub proof fn lemma_total_empty<E>(n: nat)
    ensures
        total(empty_slots::<E>(n)) == 0,
    decreases n,
{
    if n > 0 {
        lemma_total_empty::<E>((n - 1) as nat);
        assert(empty_slots::<E>(n).drop_last() =~= empty_slots::<E>((n - 1) as nat));
    }
}

/// The total of the first `k + 1` slots is that of the first `k` and the
/// length of the slot after them.
pub proof fn lemma_total_take<E>(slots: Slots<E>, k: int)
    requires
        0 <= k < slots.len(),
    ensures
        total(slots.take(k + 1)) == total(slots.take(k)) + slots[k].len(),
{
    assert(slots.take(k + 1).drop_last() =~= slots.take(k));
}

/// The first `k` slots hold no more events than all slots together.
pub proof fn lemma_total_take_le<E>(slots: Slots<E>, k: int)
    requires
        0 <= k <= slots.len(),
    ensures
        total(slots.take(k)) <= total(slots),
    decreases slots.len() - k,
{
    if k < slots.len() {
        lemma_total_take(slots, k);
        lemma_total_take_le(slots, k + 1);
    } else {
        assert(slots.take(k) =~= slots);
    }
}

/// The events of the first `k + 1` slots are those of the first `k`
/// followed by those of the slot after them.
pub proof fn lemma_joined_take<E>(slots: Slots<E>, k: int)
    requires
        0 <= k < slots.len(),
    ensures
        joined(slots.take(k + 1)) == joined(slots.take(k)) + slots[k],
{
    assert(slots.take(k + 1).drop_last() =~= slots.take(k));
}

/// Slots without events span the empty range at any number.
pub proof fn lemma_empty_spans<E>(n: nat, at: int)
    ensures
        spans(empty_slots::<E>(n), at, at),
{
}

/// Under `spans`, an event is found again by its number.
pub proof fn lemma_pick<E>(slots: Slots<E>, lo: int, hi: int, l: int, i: int)
    requires
        spans(slots, lo, hi),
        holds_at(slots, l, i),
    ensures
        pick(slots, number_at(slots, l, i)) == slots[l][i],
{
    let id = number_at(slots, l, i);
    let (m, j) = choose|m: int, j: int|
        holds_at(slots, m, j) && #[trigger] number_at(slots, m, j) == id;
    if m != l {
        assert(number_at(slots, l, i) != number_at(slots, m, j));
    } else if j < i {
        assert(number_at(slots, l, j) < number_at(slots, l, i));
    } else if i < j {
        assert(number_at(slots, l, i) < number_at(slots, l, j));
    }
}

/// Under `spans`, the event picked for a number of the range is one of
/// the events and has that number.
pub proof fn lemma_pick_holds<E>(slots: Slots<E>, lo: int, hi: int, id: int) -> (at: (int, int))
    requires
        spans(slots, lo, hi),
        lo <= id < hi,
    ensures
        holds_at(slots, at.0, at.1),
        slots[at.0][at.1] == pick(slots, id),
        pick(slots, id).number() == id,
{
    assert(holds(slots, id));
    let (l, i) = choose|l: int, i: int|
        holds_at(slots, l, i) && #[trigger] number_at(slots, l, i) == id;
    (l, i)
}

} // verus!
