//! What holds of the storage and its readers over any run of sends,
//! updates and reads.

use super::model::{ascending, ParEventsView};
use super::record::ParEventInstance;
use super::steps::{lemma_retained, lemma_rotate, lemma_send, lemma_unread};
use vstd::prelude::*;

verus! {

/// Whether each of `sends`, a list of pairs of a slot and an event, names
/// one of the first `slots` slots.
pub open spec fn all_within<E>(sends: Seq<(int, E)>, slots: nat) -> bool {
    forall|k: int| 0 <= k < sends.len() ==> 0 <= (#[trigger] sends[k]).0 < slots
}

/// The storage `v` after the events of `sends` were sent, each to the
/// slot it is paired with, in the order of the list. The slots may
/// alternate in any way.
pub open spec fn after_sends<E>(v: ParEventsView<E>, sends: Seq<(int, E)>) -> ParEventsView<E>
    decreases sends.len(),
{
    if sends.len() == 0 {
        v
    } else {
        after_sends(v, sends.drop_last()).send(sends.last().0, sends.last().1)
    }
}

/// The events of `sends` with the numbers they get when the first of them
/// is sent as number `first`.
pub open spec fn numbered<E>(sends: Seq<(int, E)>, first: int) -> Seq<ParEventInstance<E>> {
    Seq::new(sends.len(), |k: int| ParEventInstance::stamped(first + k, sends[k].1))
}

/// What a reader has not seen yet comes in strictly growing numbers, so no
/// event comes twice; the numbers are consecutive and end just below
/// `count`, so no event that is kept and not yet seen is left out.
pub proof fn law_unread_is_ordered_and_complete<E>(v: ParEventsView<E>, last: int)
    requires
        v.wf(),
    ensures
        forall|i: int, j: int|
            0 <= i < j < v.unread(last).len() ==> (#[trigger] v.unread(last)[i]).number() < (
            #[trigger] v.unread(last)[j]).number(),
        forall|k: int|
            0 <= k < v.unread(last).len() ==> (#[trigger] v.unread(last)[k]).number() == v.resume(
                last,
            ) + k,
        v.resume(last) + v.unread(last).len() == v.count,
        forall|k: int|
            0 <= k < v.retained().len() && v.retained()[k].number() >= last && last <= v.count
                ==> v.unread(last).contains(#[trigger] v.retained()[k]),
{
    lemma_retained(v);
    lemma_unread(v, last);
    assert forall|k: int|
        0 <= k < v.retained().len() && v.retained()[k].number() >= last && last
            <= v.count implies v.unread(last).contains(#[trigger] v.retained()[k]) by {
        let at = k - (v.resume(last) - v.oldest());
        assert(v.unread(last)[at] == v.retained()[k]);
    }
}

/// Any run of sends keeps the storage well-formed, drops nothing, and
/// gives the events consecutive numbers in the order in which they were
/// sent, whichever slots they went to.
pub proof fn law_sends_keep_order<E>(v: ParEventsView<E>, sends: Seq<(int, E)>)
    requires
        v.wf(),
        all_within(sends, v.slots()),
        v.has_room(sends.len()),
    ensures
        after_sends(v, sends).wf(),
        after_sends(v, sends).count == v.count + sends.len(),
        after_sends(v, sends).slots() == v.slots(),
        after_sends(v, sends).oldest() == v.oldest(),
        after_sends(v, sends).middle() == v.middle(),
        after_sends(v, sends).len() == v.len() + sends.len(),
        after_sends(v, sends).retained() == v.retained() + numbered(sends, v.count as int),
    decreases sends.len(),
{
    if sends.len() == 0 {
        assert(v.retained() + numbered(sends, v.count as int) =~= v.retained());
    } else {
        let head = sends.drop_last();
        let u = after_sends(v, head);
        law_sends_keep_order(v, head);
        lemma_send(u, sends.last().0, sends.last().1);
        assert((v.retained() + numbered(head, v.count as int)).push(
            ParEventInstance::stamped(u.count as int, sends.last().1),
        ) =~= v.retained() + numbered(sends, v.count as int));
    }
}

/// A reader that has not fallen behind sees, after any run of sends, what
/// it had still to see before, followed by the events sent, each once and
/// in the order in which they were sent.
pub proof fn law_reader_sees_each_send_once<E>(
    v: ParEventsView<E>,
    sends: Seq<(int, E)>,
    last: int,
)
    requires
        v.wf(),
        all_within(sends, v.slots()),
        v.has_room(sends.len()),
        v.oldest() <= last <= v.count,
    ensures
        after_sends(v, sends).unread(last) == v.unread(last) + numbered(sends, v.count as int),
        after_sends(v, sends).unread(v.count as int) == numbered(sends, v.count as int),
        after_sends(v, sends).unread(last) == v.unread(last) + after_sends(v, sends).unread(
            v.count as int,
        ),
{
    let w = after_sends(v, sends);
    law_sends_keep_order(v, sends);
    lemma_retained(v);
    lemma_retained(w);
    assert(w.unread(last) =~= v.unread(last) + numbered(sends, v.count as int));
    assert(w.unread(v.count as int) =~= numbered(sends, v.count as int));
}

/// A reader that has read everything, or was cleared, has nothing to
/// read: reading twice in a row gives nothing the second time.
pub proof fn law_nothing_unread_after_reading<E>(v: ParEventsView<E>)
    requires
        v.wf(),
    ensures
        v.unread(v.count as int).len() == 0,
{
    lemma_unread(v, v.count as int);
}

/// A reader that fell behind the oldest event kept goes on with that
/// event: it sees what a reader standing at the oldest event sees.
pub proof fn law_reader_behind_resumes_at_oldest<E>(v: ParEventsView<E>, last: int)
    requires
        v.wf(),
        last <= v.oldest(),
    ensures
        v.unread(last) == v.retained(),
{
    assert(v.unread(last) =~= v.retained());
}

/// One update keeps the events of the current cycle: a reader sees after
/// it what it would have seen before of the current cycle's events.
pub proof fn law_update_keeps_current_cycle<E>(v: ParEventsView<E>, last: int)
    requires
        v.wf(),
    ensures
        v.rotate().wf(),
        v.rotate().retained() == ascending(v.newer, v.middle(), v.count as int),
        v.middle() <= last ==> v.rotate().unread(last) == v.unread(last),
        last <= v.middle() ==> v.rotate().unread(last) == v.unread(v.middle()),
{
    lemma_rotate(v);
    lemma_retained(v);
    lemma_retained(v.rotate());
    if v.middle() <= last {
        assert(v.rotate().unread(last) =~= v.unread(last));
    }
    if last <= v.middle() {
        assert(v.rotate().unread(last) =~= v.unread(v.middle()));
    }
}

/// After two updates nothing that was sent before the first of them is
/// kept, whatever was sent in between: every event kept then has a number
/// that was not yet handed out before the first update.
pub proof fn law_two_updates_drop<E>(v: ParEventsView<E>, sends: Seq<(int, E)>)
    requires
        v.wf(),
        all_within(sends, v.slots()),
        v.has_room(sends.len()),
    ensures
        after_sends(v.rotate(), sends).rotate().wf(),
        after_sends(v.rotate(), sends).rotate().oldest() == v.count,
        after_sends(v.rotate(), sends).rotate().retained() == numbered(sends, v.count as int),
        forall|last: int|
            last <= v.count ==> #[trigger] after_sends(v.rotate(), sends).rotate().unread(last)
                == numbered(sends, v.count as int),
{
    let r = v.rotate();
    lemma_rotate(v);
    law_sends_keep_order(r, sends);
    let s = after_sends(r, sends);
    lemma_rotate(s);
    lemma_retained(r);
    lemma_retained(s);
    let w = s.rotate();
    assert(w.retained() =~= numbered(sends, v.count as int));
    assert forall|last: int| last <= v.count implies #[trigger] w.unread(last) == numbered(
        sends,
        v.count as int,
    ) by {
        assert(w.unread(last) =~= w.retained());
    }
}

} // verus!
