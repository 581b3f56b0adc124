//! What each change of the storage does to the events that are kept.
//!
//! One lemma per operation of [`ParEventsView`]: the result is again a
//! well-formed storage, and its kept events are stated in terms of those
//! before the change.

use super::model::{
    ascending, holds, holds_at, lemma_empty_spans, lemma_pick, lemma_pick_holds,
    lemma_total_empty, lemma_total_push, lemma_total_update, number_at, spans, total,
    ParEventsView, Slots,
};
use super::record::ParEventInstance;
use vstd::prelude::*;

verus! {

/// The kept events of a well-formed storage are numbered from `oldest()`
/// upwards without a gap, and there are `len()` of them.
pub proof fn lemma_retained<E>(v: ParEventsView<E>)
    requires
        v.wf(),
    ensures
        v.retained().len() == v.len(),
        v.retained().len() == v.count - v.oldest(),
        forall|k: int|
            0 <= k < v.retained().len() ==> (#[trigger] v.retained()[k]).number() == v.oldest()
                + k,
{
    let first = ascending(v.older, v.oldest(), v.middle());
    let second = ascending(v.newer, v.middle(), v.count as int);
    assert forall|k: int| 0 <= k < v.retained().len() implies (#[trigger] v.retained()[k]).number()
        == v.oldest() + k by {
        if k < first.len() {
            lemma_pick_holds(v.older, v.oldest(), v.middle(), v.oldest() + k);
        } else {
            lemma_pick_holds(v.newer, v.middle(), v.count as int, v.middle() + (k - first.len()));
        }
    }
}

/// Sending an event keeps the storage well-formed and puts the event, with
/// the next number, behind the events kept so far.
pub proof fn lemma_send<E>(v: ParEventsView<E>, slot: int, event: E)
    requires
        v.wf(),
        0 <= slot < v.slots(),
        v.has_room(1),
    ensures
        v.send(slot, event).wf(),
        v.send(slot, event).oldest() == v.oldest(),
        v.send(slot, event).middle() == v.middle(),
        v.send(slot, event).len() == v.len() + 1,
        v.send(slot, event).slots() == v.slots(),
        v.send(slot, event).retained() == v.retained().push(
            ParEventInstance::stamped(v.count as int, event),
        ),
{
    let w = v.send(slot, event);
    let sent = ParEventInstance::stamped(v.count as int, event);
    let mid = v.middle();
    let end = v.count as int;
    let place = v.newer[slot].len() as int;
    lemma_total_update(v.newer, slot, v.newer[slot].push(sent));
    assert(sent.number() == end);
    assert(holds_at(w.newer, slot, place));
    assert(number_at(w.newer, slot, place) == end);
    assert forall|l: int, i: int| holds_at(w.newer, l, i) implies mid <= #[trigger] number_at(
        w.newer,
        l,
        i,
    ) < end + 1 by {
        if !(l == slot && i == place) {
            assert(holds_at(v.newer, l, i));
            assert(number_at(w.newer, l, i) == number_at(v.newer, l, i));
        }
    }
    assert forall|id: int| mid <= id < end + 1 implies #[trigger] holds(w.newer, id) by {
        if id < end {
            let at = lemma_pick_holds(v.newer, mid, end, id);
            assert(holds_at(w.newer, at.0, at.1));
            assert(number_at(w.newer, at.0, at.1) == id);
        }
    }
    assert forall|l: int, i: int, j: int|
        holds_at(w.newer, l, i) && holds_at(w.newer, l, j) && i < j implies #[trigger] number_at(
        w.newer,
        l,
        i,
    ) < #[trigger] number_at(w.newer, l, j) by {
        assert(holds_at(v.newer, l, i));
        assert(number_at(w.newer, l, i) == number_at(v.newer, l, i));
        if !(l == slot && j == place) {
            assert(holds_at(v.newer, l, j));
            assert(number_at(w.newer, l, j) == number_at(v.newer, l, j));
        }
    }
    assert forall|l: int, i: int, m: int, j: int|
        holds_at(w.newer, l, i) && holds_at(w.newer, m, j) && l != m implies #[trigger] number_at(
        w.newer,
        l,
        i,
    ) != #[trigger] number_at(w.newer, m, j) by {
        if !(l == slot && i == place) {
            assert(holds_at(v.newer, l, i));
            assert(number_at(w.newer, l, i) == number_at(v.newer, l, i));
        }
        if !(m == slot && j == place) {
            assert(holds_at(v.newer, m, j));
            assert(number_at(w.newer, m, j) == number_at(v.newer, m, j));
        }
    }
    assert(spans(w.newer, mid, end + 1));
    let before = ascending(v.newer, mid, end);
    let after = ascending(w.newer, mid, end + 1);
    assert forall|k: int| 0 <= k < after.len() implies after[k] == before.push(sent)[k] by {
        if k < before.len() {
            let at = lemma_pick_holds(v.newer, mid, end, mid + k);
            assert(holds_at(w.newer, at.0, at.1));
            assert(number_at(w.newer, at.0, at.1) == mid + k);
            lemma_pick(w.newer, mid, end + 1, at.0, at.1);
        } else {
            lemma_pick(w.newer, mid, end + 1, slot, place);
        }
    }
    assert(after =~= before.push(sent));
    assert(w.retained() =~= v.retained().push(sent));
}

/// Sending several events is sending them one after the other: the storage
/// stays well-formed, and the events come behind those kept so far, with
/// consecutive numbers in the order given.
pub proof fn lemma_extend<E>(v: ParEventsView<E>, slot: int, events: Seq<E>)
    requires
        v.wf(),
        0 <= slot < v.slots(),
        v.has_room(events.len()),
    ensures
        v.extend(slot, events).wf(),
        v.extend(slot, events).count == v.count + events.len(),
        v.extend(slot, events).older == v.older,
        v.extend(slot, events).oldest() == v.oldest(),
        v.extend(slot, events).middle() == v.middle(),
        v.extend(slot, events).len() == v.len() + events.len(),
        v.extend(slot, events).slots() == v.slots(),
        v.extend(slot, events).retained() == v.retained() + Seq::new(
            events.len(),
            |k: int| ParEventInstance::stamped(v.count + k, events[k]),
        ),
    decreases events.len(),
{
    let sent = Seq::new(events.len(), |k: int| ParEventInstance::stamped(v.count + k, events[k]));
    if events.len() == 0 {
        assert(v.retained() + sent =~= v.retained());
    } else {
        let head = events.drop_last();
        let u = v.extend(slot, head);
        lemma_extend(v, slot, head);
        lemma_send(u, slot, events.last());
        let head_sent = Seq::new(
            head.len(),
            |k: int| ParEventInstance::stamped(v.count + k, head[k]),
        );
        assert((v.retained() + head_sent).push(
            ParEventInstance::stamped(u.count as int, events.last()),
        ) =~= v.retained() + sent);
    }
}

/// An update keeps the storage well-formed; the events of the current
/// cycle stay, as the older ones, and those of the older cycle are gone.
pub proof fn lemma_rotate<E>(v: ParEventsView<E>)
    requires
        v.wf(),
    ensures
        v.rotate().wf(),
        v.rotate().oldest() == v.middle(),
        v.rotate().middle() == v.count,
        v.rotate().slots() == v.slots(),
        v.rotate().len() == total(v.newer),
        v.rotate().retained() == ascending(v.newer, v.middle(), v.count as int),
        v.rotate().retained() == v.retained().skip(v.middle() - v.oldest()),
{
    let w = v.rotate();
    lemma_total_empty::<E>(v.older.len());
    lemma_empty_spans::<E>(v.older.len(), v.count as int);
    assert(w.retained() =~= ascending(v.newer, v.middle(), v.count as int));
    assert(w.retained() =~= v.retained().skip(v.middle() - v.oldest()));
}

/// Removing all events keeps the storage well-formed, and nothing is kept.
pub proof fn lemma_clear<E>(v: ParEventsView<E>)
    requires
        v.wf(),
    ensures
        v.clear().wf(),
        v.clear().oldest() == v.count,
        v.clear().middle() == v.count,
        v.clear().slots() == v.slots(),
        v.clear().len() == 0,
        v.clear().retained() == Seq::<ParEventInstance<E>>::empty(),
{
    lemma_total_empty::<E>(v.older.len());
    lemma_total_empty::<E>(v.newer.len());
    lemma_empty_spans::<E>(v.older.len(), v.count as int);
    lemma_empty_spans::<E>(v.newer.len(), v.count as int);
    assert(v.clear().retained() =~= Seq::<ParEventInstance<E>>::empty());
}

/// One more empty slot changes nothing about the events at `lo..hi`.
pub proof fn lemma_push_empty_spans<E>(slots: Slots<E>, lo: int, hi: int)
    requires
        spans(slots, lo, hi),
    ensures
        spans(slots.push(Seq::empty()), lo, hi),
        ascending(slots.push(Seq::empty()), lo, hi) == ascending(slots, lo, hi),
{
    let more = slots.push(Seq::empty());
    assert forall|l: int, i: int| holds_at(more, l, i) implies holds_at(slots, l, i)
        && more[l][i] == slots[l][i] by {}
    assert forall|l: int, i: int| holds_at(more, l, i) implies lo <= #[trigger] number_at(
        more,
        l,
        i,
    ) < hi by {
        assert(number_at(more, l, i) == number_at(slots, l, i));
    }
    assert forall|id: int| lo <= id < hi implies #[trigger] holds(more, id) by {
        let at = lemma_pick_holds(slots, lo, hi, id);
        assert(holds_at(more, at.0, at.1));
        assert(number_at(more, at.0, at.1) == id);
    }
    assert forall|l: int, i: int, j: int|
        holds_at(more, l, i) && holds_at(more, l, j) && i < j implies #[trigger] number_at(
        more,
        l,
        i,
    ) < #[trigger] number_at(more, l, j) by {
        assert(number_at(more, l, i) == number_at(slots, l, i));
        assert(number_at(more, l, j) == number_at(slots, l, j));
    }
    assert forall|l: int, i: int, m: int, j: int|
        holds_at(more, l, i) && holds_at(more, m, j) && l != m implies #[trigger] number_at(
        more,
        l,
        i,
    ) != #[trigger] number_at(more, m, j) by {
        assert(number_at(more, l, i) == number_at(slots, l, i));
        assert(number_at(more, m, j) == number_at(slots, m, j));
    }
    assert(spans(more, lo, hi));
    let before = ascending(slots, lo, hi);
    let after = ascending(more, lo, hi);
    assert forall|k: int| 0 <= k < after.len() implies after[k] == before[k] by {
        let at = lemma_pick_holds(slots, lo, hi, lo + k);
        assert(holds_at(more, at.0, at.1));
        assert(number_at(more, at.0, at.1) == lo + k);
        lemma_pick(more, lo, hi, at.0, at.1);
    }
    assert(after =~= before);
}

/// Adding a slot keeps the storage well-formed and the kept events as
/// they are.
pub proof fn lemma_add_slot<E>(v: ParEventsView<E>)
    requires
        v.wf(),
    ensures
        v.add_slot().wf(),
        v.add_slot().oldest() == v.oldest(),
        v.add_slot().middle() == v.middle(),
        v.add_slot().slots() == v.slots() + 1,
        v.add_slot().len() == v.len(),
        v.add_slot().retained() == v.retained(),
{
    lemma_total_push(v.older, Seq::empty());
    lemma_total_push(v.newer, Seq::empty());
    lemma_push_empty_spans(v.older, v.oldest(), v.middle());
    lemma_push_empty_spans(v.newer, v.middle(), v.count as int);
}

/// The unread events of a reader are exactly the kept events numbered from
/// `resume(last)` to `count`, by number.
pub proof fn lemma_unread<E>(v: ParEventsView<E>, last: int)
    requires
        v.wf(),
    ensures
        v.oldest() <= v.resume(last) <= v.count,
        v.unread(last).len() == v.count - v.resume(last),
        forall|k: int|
            0 <= k < v.unread(last).len() ==> (#[trigger] v.unread(last)[k]).number() == v.resume(
                last,
            ) + k,
        forall|k: int|
            0 <= k < v.unread(last).len() ==> #[trigger] v.unread(last)[k] == v.retained()[v.resume(
                last,
            ) - v.oldest() + k],
{
    lemma_retained(v);
}

} // verus!
