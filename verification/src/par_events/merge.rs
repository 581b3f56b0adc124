//! Bringing the events of all slots into one order.
//!
//! Each slot is in order already, so the event to take next is always the
//! first one not yet taken of some slot: the one with the least number.
//! The two functions here do that, one handing out references and one
//! moving the events out.

use super::events::slots_of;
use super::model::{
    ascending, empty_slots, holds_at, lemma_pick, lemma_pick_holds, number_at, payloads, pick,
    spans, Slots,
};
use super::record::ParEventInstance;
use vstd::prelude::*;

verus! {

/// Of every slot `m` the first `heads[m]` events are taken, and the events
/// taken are exactly those numbered below `at`.
pub open spec fn taken_below<E>(slots: Slots<E>, heads: Seq<int>, at: int) -> bool {
    &&& heads.len() == slots.len()
    &&& forall|m: int| 0 <= m < slots.len() ==> 0 <= #[trigger] heads[m] <= slots[m].len()
    &&& forall|m: int, i: int|
        holds_at(slots, m, i) && i < heads[m] ==> #[trigger] number_at(slots, m, i) < at
    &&& forall|m: int, i: int|
        holds_at(slots, m, i) && i >= heads[m] ==> #[trigger] number_at(slots, m, i) >= at
}

/// Whether the first event not yet taken of slot `best` has the least
/// number among the first events not yet taken of all slots.
pub open spec fn least_head<E>(slots: Slots<E>, heads: Seq<int>, best: int) -> bool {
    &&& 0 <= best < slots.len()
    &&& heads[best] < slots[best].len()
    &&& forall|m: int|
        0 <= m < slots.len() && #[trigger] heads[m] < slots[m].len() ==> number_at(
            slots,
            best,
            heads[best],
        ) <= number_at(slots, m, heads[m])
}

/// Where everything below `at` is taken, the least first event has the
/// number `at`, and taking it leaves everything below `at + 1` taken.
pub proof fn lemma_least_head<E>(
    slots: Slots<E>,
    lo: int,
    hi: int,
    heads: Seq<int>,
    at: int,
    best: int,
)
    requires
        spans(slots, lo, hi),
        lo <= at <= hi,
        taken_below(slots, heads, at),
        least_head(slots, heads, best),
    ensures
        at < hi,
        slots[best][heads[best]] == pick(slots, at),
        taken_below(slots, heads.update(best, heads[best] + 1), at + 1),
{
    let p = heads[best];
    assert(holds_at(slots, best, p));
    let least = number_at(slots, best, p);
    assert(at <= least < hi);
    let found = lemma_pick_holds(slots, lo, hi, at);
    let m = found.0;
    let i = found.1;
    assert(number_at(slots, m, i) == at);
    assert(i >= heads[m]);
    assert(holds_at(slots, m, heads[m]));
    assert(number_at(slots, m, heads[m]) >= at);
    if heads[m] < i {
        assert(number_at(slots, m, heads[m]) < number_at(slots, m, i));
    }
    assert(least == at);
    lemma_pick(slots, lo, hi, best, p);
    let after = heads.update(best, p + 1);
    assert forall|m: int, i: int| holds_at(slots, m, i) && i >= after[m] implies #[trigger] number_at(
        slots,
        m,
        i,
    ) >= at + 1 by {
        if m == best {
            assert(number_at(slots, best, p) < number_at(slots, best, i));
        } else {
            assert(number_at(slots, m, i) != number_at(slots, best, p));
        }
    }
    assert forall|m: int, i: int| holds_at(slots, m, i) && i < after[m] implies #[trigger] number_at(
        slots,
        m,
        i,
    ) < at + 1 by {
        if m == best && i < p {
            assert(number_at(slots, best, i) < number_at(slots, best, p));
        }
    }
}

/// Where everything below `at` is taken and no slot has an event left,
/// all events are taken.
pub proof fn lemma_no_head<E>(slots: Slots<E>, lo: int, hi: int, heads: Seq<int>, at: int)
    requires
        spans(slots, lo, hi),
        lo <= at <= hi,
        taken_below(slots, heads, at),
        forall|m: int| 0 <= m < slots.len() ==> #[trigger] heads[m] == slots[m].len(),
    ensures
        at == hi,
{
    if at < hi {
        let found = lemma_pick_holds(slots, lo, hi, at);
        assert(number_at(slots, found.0, found.1) == at);
        assert(heads[found.0] == slots[found.0].len());
    }
}

/// Appends to `out` the events of `stored`, by number.
pub(crate) fn merge_into<'a, E>(
    stored: &'a Vec<Vec<ParEventInstance<E>>>,
    out: &mut Vec<&'a ParEventInstance<E>>,
    Ghost(lo): Ghost<int>,
    Ghost(hi): Ghost<int>,
)
    requires
        spans(slots_of(*stored), lo, hi),
    ensures
        final(out)@.unref() == old(out)@.unref() + ascending(slots_of(*stored), lo, hi),
{
    let ghost slots = slots_of(*stored);
    let mut heads: Vec<usize> = Vec::new();
    let mut l: usize = 0;
    while l < stored.len()
        invariant
            l <= stored.len(),
            heads@.len() == l,
            forall|m: int| 0 <= m < l ==> heads@[m] == 0,
        decreases stored.len() - l,
    {
        heads.push(0);
        l = l + 1;
    }
    let ghost mut at: int = lo;
    proof {
        assert(out@.unref() =~= old(out)@.unref() + ascending(slots, lo, lo));
    }
    loop
        invariant
            slots == slots_of(*stored),
            spans(slots, lo, hi),
            lo <= at <= hi,
            taken_below(slots, heads@.map_values(|h: usize| h as int), at),
            out@.unref() == old(out)@.unref() + ascending(slots, lo, at),
        ensures
            at == hi,
        decreases hi - at,
    {
        let ghost taken = heads@.map_values(|h: usize| h as int);
        let mut found = false;
        let mut best: usize = 0;
        let mut l: usize = 0;
        while l < stored.len()
            invariant
                l <= stored.len(),
                slots == slots_of(*stored),
                taken == heads@.map_values(|h: usize| h as int),
                taken_below(slots, taken, at),
                found ==> best < l && taken[best as int] < slots[best as int].len(),
                found ==> forall|m: int|
                    0 <= m < l && #[trigger] taken[m] < slots[m].len() ==> number_at(
                        slots,
                        best as int,
                        taken[best as int],
                    ) <= number_at(slots, m, taken[m]),
                !found ==> forall|m: int| 0 <= m < l ==> #[trigger] taken[m] == slots[m].len(),
            decreases stored.len() - l,
        {
            assert(taken[l as int] == heads@[l as int]);
            if heads[l] < stored[l].len() {
                assert(found ==> taken[best as int] == heads@[best as int]);
                if !found || stored[l][heads[l]].event_id.id
                    < stored[best][heads[best]].event_id.id {
                    best = l;
                    found = true;
                }
            }
            l = l + 1;
        }
        if !found {
            proof {
                lemma_no_head(slots, lo, hi, taken, at);
            }
            break ;
        }
        let place = heads[best];
        assert(place < stored[best as int].len()) by {
            assert(taken[best as int] == heads@[best as int]);
            assert(slots[best as int] == stored@[best as int]@);
        }
        let instance = &stored[best][place];
        let ghost merged = out@.unref();
        out.push(instance);
        heads[best] = place + 1;
        proof {
            lemma_least_head(slots, lo, hi, taken, at, best as int);
            assert(heads@.map_values(|h: usize| h as int) =~= taken.update(best as int, place + 1));
            assert(out@.unref() =~= merged.push(*instance));
            assert(ascending(slots, lo, at + 1) =~= ascending(slots, lo, at).push(*instance));
            at = at + 1;
        }
    }
}

/// Empties `slot` and returns its events in the opposite order.
fn turn_round<E>(slot: &mut Vec<ParEventInstance<E>>) -> (turned: Vec<ParEventInstance<E>>)
    ensures
        final(slot)@ == Seq::<ParEventInstance<E>>::empty(),
        turned@ == old(slot)@.reverse(),
{
    let ghost whole = slot@;
    let mut turned: Vec<ParEventInstance<E>> = Vec::new();
    loop
        invariant
            slot@.len() + turned@.len() == whole.len(),
            slot@ == whole.take(slot@.len() as int),
            forall|j: int| 0 <= j < turned@.len() ==> turned@[j] == whole[whole.len() - 1 - j],
        ensures
            slot@.len() == 0,
        decreases slot@.len(),
    {
        match slot.pop() {
            Some(instance) => {
                turned.push(instance);
            },
            None => {
                break ;
            },
        }
    }
    proof {
        assert(slot@ =~= Seq::<ParEventInstance<E>>::empty());
        assert(turned@ =~= whole.reverse());
    }
    turned
}

/// The number of events taken from each slot, where `rest` holds what is
/// left of the slots of `slots`.
pub open spec fn taken_from<E>(slots: Slots<E>, rest: Vec<Vec<ParEventInstance<E>>>) -> Seq<int> {
    Seq::new(slots.len(), |m: int| slots[m].len() - rest@[m]@.len())
}

/// Moves the payloads of the events of `stored` to the end of `out`, by
/// number, and leaves every slot of `stored` empty.
pub(crate) fn drain_into<E>(
    stored: &mut Vec<Vec<ParEventInstance<E>>>,
    out: &mut Vec<E>,
    Ghost(lo): Ghost<int>,
    Ghost(hi): Ghost<int>,
)
    requires
        spans(slots_of(*old(stored)), lo, hi),
    ensures
        final(out)@ == old(out)@ + payloads(ascending(slots_of(*old(stored)), lo, hi)),
        slots_of(*final(stored)) == empty_slots::<E>(old(stored)@.len()),
{
    let ghost slots = slots_of(*stored);
    // each slot turned round, so that its first event can be popped
    let mut rest: Vec<Vec<ParEventInstance<E>>> = Vec::new();
    let mut l: usize = 0;
    while l < stored.len()
        invariant
            l <= stored.len(),
            stored@.len() == slots.len(),
            rest@.len() == l,
            forall|m: int|
                0 <= m < l ==> (#[trigger] stored@[m])@ == Seq::<ParEventInstance<E>>::empty(),
            forall|m: int| 0 <= m < l ==> (#[trigger] rest@[m])@ == slots[m].reverse(),
            forall|m: int| l <= m < slots.len() ==> (#[trigger] stored@[m])@ == slots[m],
        decreases stored.len() - l,
    {
        let turned = turn_round(&mut stored[l]);
        rest.push(turned);
        l = l + 1;
    }
    let ghost mut at: int = lo;
    proof {
        assert(slots_of(*stored) =~= empty_slots::<E>(slots.len()));
        assert(out@ =~= old(out)@ + payloads(ascending(slots, lo, lo)));
        assert(taken_from(slots, rest) =~= Seq::new(slots.len(), |m: int| 0int));
    }
    loop
        invariant
            spans(slots, lo, hi),
            lo <= at <= hi,
            rest@.len() == slots.len(),
            forall|m: int| 0 <= m < slots.len() ==> (#[trigger] rest@[m])@.len() <= slots[m].len(),
            forall|m: int, j: int|
                0 <= m < slots.len() && 0 <= j < rest@[m]@.len() ==> (#[trigger] rest@[m]@[j])
                    == slots[m][slots[m].len() - 1 - j],
            taken_below(slots, taken_from(slots, rest), at),
            out@ == old(out)@ + payloads(ascending(slots, lo, at)),
        ensures
            at == hi,
        decreases hi - at,
    {
        let ghost taken = taken_from(slots, rest);
        let mut found = false;
        let mut best: usize = 0;
        let mut l: usize = 0;
        while l < rest.len()
            invariant
                l <= rest.len(),
                rest@.len() == slots.len(),
                taken == taken_from(slots, rest),
                taken_below(slots, taken, at),
                forall|m: int, j: int|
                    0 <= m < slots.len() && 0 <= j < rest@[m]@.len() ==> (#[trigger] rest@[m]@[j])
                        == slots[m][slots[m].len() - 1 - j],
                found ==> best < l && taken[best as int] < slots[best as int].len(),
                found ==> forall|m: int|
                    0 <= m < l && #[trigger] taken[m] < slots[m].len() ==> number_at(
                        slots,
                        best as int,
                        taken[best as int],
                    ) <= number_at(slots, m, taken[m]),
                !found ==> forall|m: int| 0 <= m < l ==> #[trigger] taken[m] == slots[m].len(),
            decreases rest.len() - l,
        {
            assert(taken[l as int] == slots[l as int].len() - rest@[l as int]@.len());
            let left = rest[l].len();
            if left > 0 {
                assert(rest@[l as int]@[left - 1] == slots[l as int][taken[l as int]]);
                if found {
                    assert(taken[best as int] == slots[best as int].len()
                        - rest@[best as int]@.len());
                    let left_best = rest[best].len();
                    assert(rest@[best as int]@[left_best - 1]
                        == slots[best as int][taken[best as int]]);
                }
                if !found || rest[l][left - 1].event_id.id
                    < rest[best][rest[best].len() - 1].event_id.id {
                    best = l;
                    found = true;
                }
            }
            l = l + 1;
        }
        if !found {
            proof {
                lemma_no_head(slots, lo, hi, taken, at);
            }
            break ;
        }
        assert(taken[best as int] == slots[best as int].len() - rest@[best as int]@.len());
        let ghost place = taken[best as int];
        let ghost head = rest@[best as int]@.last();
        assert(head == slots[best as int][place]);
        let ghost moved = out@;
        match rest[best].pop() {
            Some(instance) => {
                out.push(instance.event);
            },
            None => {},
        }
        proof {
            lemma_least_head(slots, lo, hi, taken, at, best as int);
            assert(taken_from(slots, rest) =~= taken.update(best as int, place + 1));
            assert(out@ =~= moved.push(head.event));
            assert(ascending(slots, lo, at + 1) =~= ascending(slots, lo, at).push(head));
            assert(payloads(ascending(slots, lo, at + 1)) =~= payloads(
                ascending(slots, lo, at),
            ).push(head.event));
            at = at + 1;
        }
    }
}

} // verus!
