//! Auxiliary index for target timeouts.
//!
//! Keeps, for each target it is told of, since when the target waits and
//! for how long it may, and says which targets have waited too long.
//!
//! Times are counted in nanoseconds: a moment as the time since some start
//! that the caller has chosen, a time limit as its length.

use crate::target::{transform_target, Target};
use core::marker::PhantomData;
use vstd::prelude::*;

verus! {

/// An event used to notify when a timeout has expired.
pub struct ExpiredTimeout<M> {
    pub target: Target,
    pub _phant: PhantomData<M>,
}

impl<M> Clone for ExpiredTimeout<M> {
    fn clone(&self) -> (event: Self)
        ensures
            event == *self,
    {
        Self { target: self.target, _phant: PhantomData }
    }
}

impl<M> Copy for ExpiredTimeout<M> {

}

/// A target that waits, and the moment since which it does.
#[derive(Debug, Clone, Copy, PartialEq, Eq, Structural)]
pub struct PendingTimeout {
    pub target: Target,
    pub since: u128,
}

/// The targets that wait under one time limit, in the order in which they
/// began to wait.
pub struct TimeoutQueue {
    pub limit: u128,
    pub waiting: Vec<PendingTimeout>,
}

/// A [`TimeoutQueue`] as the contracts see it.
pub struct TimeoutQueueView {
    pub limit: u128,
    pub waiting: Seq<PendingTimeout>,
}

impl View for TimeoutQueue {
    type V = TimeoutQueueView;

    open spec fn view(&self) -> TimeoutQueueView {
        TimeoutQueueView { limit: self.limit, waiting: self.waiting@ }
    }
}

/// The queues of a [`TimeoutMap`], in the order in which their time limits
/// were first used.
pub type Queues = Seq<TimeoutQueueView>;

/// Whether an entry is for another target than `target`.
pub open spec fn not_for(target: Target) -> spec_fn(PendingTimeout) -> bool {
    |pending: PendingTimeout| pending.target != target
}

/// Whether `target` waits in one of `queues`.
pub open spec fn waits(queues: Queues, target: Target) -> bool {
    exists|q: int, i: int|
        0 <= q < queues.len() && 0 <= i < queues[q].waiting.len() && (
        #[trigger] queues[q].waiting[i]).target == target
}

/// `queues` without the entries for `target`.
pub open spec fn without(queues: Queues, target: Target) -> Queues {
    Seq::new(
        queues.len(),
        |q: int|
            TimeoutQueueView {
                limit: queues[q].limit,
                waiting: queues[q].waiting.filter(not_for(target)),
            },
    )
}

/// The place of the first queue from `from` on that has the time limit
/// `limit`; the number of queues if there is none.
pub open spec fn queue_from(queues: Queues, limit: u128, from: int) -> int
    decreases queues.len() - from,
{
    if from < 0 || from >= queues.len() {
        queues.len() as int
    } else if queues[from].limit == limit {
        from
    } else {
        queue_from(queues, limit, from + 1)
    }
}

/// `queues` after `target` began to wait at the moment `now` under the
/// time limit `limit`: it is the last of the queue with that limit, which
/// is a new queue behind the others if there was none.
pub open spec fn with(queues: Queues, target: Target, limit: u128, now: u128) -> Queues {
    let q = queue_from(queues, limit, 0);
    let pending = PendingTimeout { target, since: now };
    if q < queues.len() {
        queues.update(q, TimeoutQueueView { limit, waiting: queues[q].waiting.push(pending) })
    } else {
        queues.push(TimeoutQueueView { limit, waiting: seq![pending] })
    }
}

/// Whether at the moment `now` an entry has waited longer than `limit`. An
/// entry that began to wait after `now` has not waited at all.
pub open spec fn expired(pending: PendingTimeout, limit: u128, now: u128) -> bool {
    now > pending.since && now - pending.since > limit
}

/// The place of the first entry from `from` on that has not expired; the
/// number of entries if all have.
pub open spec fn alive_from(waiting: Seq<PendingTimeout>, limit: u128, now: u128, from: int) -> int
    decreases waiting.len() - from,
{
    if from < 0 || from >= waiting.len() {
        waiting.len() as int
    } else if !expired(waiting[from], limit, now) {
        from
    } else {
        alive_from(waiting, limit, now, from + 1)
    }
}

/// `queues` after the timeouts were processed at the moment `now`: each
/// queue has lost the entries before its first one that has not expired.
pub open spec fn after_processing(queues: Queues, now: u128) -> Queues {
    Seq::new(
        queues.len(),
        |q: int|
            TimeoutQueueView {
                limit: queues[q].limit,
                waiting: queues[q].waiting.skip(
                    alive_from(queues[q].waiting, queues[q].limit, now, 0),
                ),
            },
    )
}

/// The targets of `entries`, in the same order.
pub open spec fn targets_of(entries: Seq<PendingTimeout>) -> Seq<Target> {
    entries.map_values(|pending: PendingTimeout| pending.target)
}

/// The targets that are found expired when the timeouts are processed at
/// the moment `now`: queue after queue, and within a queue in the order in
/// which they began to wait.
pub open spec fn expired_targets(queues: Queues, now: u128) -> Seq<Target>
    decreases queues.len(),
{
    if queues.len() == 0 {
        Seq::empty()
    } else {
        expired_targets(queues.drop_last(), now) + targets_of(
            queues.last().waiting.take(
                alive_from(queues.last().waiting, queues.last().limit, now, 0),
            ),
        )
    }
}

/// `queues` after each of `targets` began to wait at the moment `now`
/// under the time limit `limit`, one after the other.
pub open spec fn with_many(queues: Queues, targets: Seq<Target>, limit: u128, now: u128) -> Queues
    decreases targets.len(),
{
    if targets.len() == 0 {
        queues
    } else {
        let before = with_many(queues, targets.drop_last(), limit, now);
        with(without(before, targets.last().general()), targets.last().general(), limit, now)
    }
}

/// `queues` without the entries for any of `targets`.
pub open spec fn without_many(queues: Queues, targets: Seq<Target>) -> Queues
    decreases targets.len(),
{
    if targets.len() == 0 {
        queues
    } else {
        without(without_many(queues, targets.drop_last()), targets.last().general())
    }
}

/// The queues as they are stored, as the contracts see them.
pub open spec fn views_of(stored: Vec<TimeoutQueue>) -> Queues {
    Seq::new(stored@.len(), |q: int| stored@[q]@)
}

/// Auxiliary index for target timeouts.
///
/// Holds, for each time limit, a queue of the targets that wait under it,
/// and hands out those whose wait has exceeded the limit.
///
/// A target is kept as the general target that stands for it.
///
/// # Note
/// Does not register itself anywhere since it is meant to be wrapped.
pub struct TimeoutMap<M> {
    /// One queue for each time limit, so that within a queue the targets
    /// expire in the order in which they began to wait.
    queues: Vec<TimeoutQueue>,
    _phant: PhantomData<M>,
}

impl<M> View for TimeoutMap<M> {
    type V = Queues;

    closed spec fn view(&self) -> Queues {
        views_of(self.queues)
    }
}

impl<M> TimeoutMap<M> {
    /// Creates a new instance of the map.
    pub fn new() -> (map: Self)
        ensures
            map@ == Queues::empty(),
            in_order(map@),
    {
        let map = TimeoutMap { queues: Vec::new(), _phant: PhantomData };
        proof {
            assert(map@ =~= Queues::empty());
        }
        map
    }

    /// Checks if the given target is in the map.
    pub fn contains(&self, target: &Target) -> (found: bool)
        ensures
            found == waits(self@, target.general()),
    {
        let general = transform_target(target);
        let mut q: usize = 0;
        while q < self.queues.len()
            invariant
                q <= self.queues.len(),
                general == target.general(),
                forall|r: int, i: int|
                    0 <= r < q && 0 <= i < self@[r].waiting.len() ==> (
                    #[trigger] self@[r].waiting[i]).target != general,
            decreases self.queues.len() - q,
        {
            let waiting = &self.queues[q].waiting;
            let mut i: usize = 0;
            while i < waiting.len()
                invariant
                    i <= waiting.len(),
                    q < self.queues.len(),
                    general == target.general(),
                    waiting@ == self@[q as int].waiting,
                    forall|j: int| 0 <= j < i ==> (#[trigger] waiting@[j]).target != general,
                decreases waiting.len() - i,
            {
                if waiting[i].target == general {
                    assert(self@[q as int].waiting[i as int].target == general);
                    return true;
                }
                i = i + 1;
            }
            q = q + 1;
        }
        false
    }

    /// Inserts a new target timeout to the map: from the moment `now` on
    /// the target waits under the time limit `duration`. A timeout that
    /// the target had already is replaced.
    pub fn insert(&mut self, target: Target, duration: u128, now: u128)
        ensures
            final(self)@ == with(
                without(old(self)@, target.general()),
                target.general(),
                duration,
                now,
            ),
            in_order(old(self)@) ==> in_order(final(self)@),
    {
        proof {
            if in_order(self@) {
                law_insert_keeps_order(self@, target, duration, now);
            }
        }
        let general = transform_target(&target);
        // If a timeout for this target already exists, remove it before inserting the new one.
        self.remove(&general);
        let ghost cleared = self@;
        assert(cleared == without(old(self)@, target.general()));
        let pending = PendingTimeout { target: general, since: now };
        let mut q: usize = 0;
        while q < self.queues.len()
            invariant
                q <= self.queues.len(),
                self@ == cleared,
                general == target.general(),
                cleared == without(old(self)@, target.general()),
                pending == (PendingTimeout { target: general, since: now }),
                in_order(old(self)@) ==> in_order(with(cleared, general, duration, now)),
                queue_from(cleared, duration, 0) == queue_from(cleared, duration, q as int),
            decreases self.queues.len() - q,
        {
            if self.queues[q].limit == duration {
                assert(queue_from(cleared, duration, 0) == q);
                let ghost waiting = self.queues@[q as int].waiting@;
                self.queues[q].waiting.push(pending);
                proof {
                    assert(self.queues@[q as int]@ == (TimeoutQueueView {
                        limit: duration,
                        waiting: waiting.push(pending),
                    }));
                    assert(self@ =~= with(cleared, general, duration, now));
                }
                return ;
            }
            q = q + 1;
        }
        assert(queue_from(cleared, duration, 0) == cleared.len());
        let mut waiting: Vec<PendingTimeout> = Vec::new();
        waiting.push(pending);
        self.queues.push(TimeoutQueue { limit: duration, waiting });
        proof {
            assert(self@ =~= with(cleared, general, duration, now));
        }
    }

    /// Inserts new target timeouts to the map, one after the other.
    pub fn insert_many(&mut self, targets: Vec<Target>, duration: u128, now: u128)
        ensures
            final(self)@ == with_many(old(self)@, targets@, duration, now),
            in_order(old(self)@) ==> in_order(final(self)@),
    {
        let ghost all = targets@;
        for target in it: targets
            invariant
                it.seq() == all,
                self@ == with_many(old(self)@, all.take(it.index() as int), duration, now),
                in_order(old(self)@) ==> in_order(self@),
        {
            proof {
                assert(all.take(it.index() + 1).drop_last() =~= all.take(it.index() as int));
            }
            self.insert(target, duration, now);
        }
        proof {
            assert(all.take(all.len() as int) =~= all);
        }
    }

    /// Removes a target from the map.
    pub fn remove(&mut self, target: &Target)
        ensures
            final(self)@ == without(old(self)@, target.general()),
            in_order(old(self)@) ==> in_order(final(self)@),
    {
        proof {
            if in_order(self@) {
                law_without_keeps_order(self@, target.general());
            }
        }
        let general = transform_target(target);
        let ghost before = self@;
        let mut q: usize = 0;
        while q < self.queues.len()
            invariant
                q <= self.queues.len(),
                before == old(self)@,
                self.queues@.len() == before.len(),
                forall|r: int|
                    0 <= r < q ==> (#[trigger] self.queues@[r])@ == without(before, general)[r],
                forall|r: int|
                    q <= r < self.queues@.len() ==> (#[trigger] self.queues@[r])@ == before[r],
            decreases self.queues.len() - q,
        {
            let ghost limit = self.queues@[q as int].limit;
            assert(self.queues@[q as int]@ == before[q as int]);
            let kept = retain_others(&self.queues[q].waiting, general);
            self.queues[q].waiting = kept;
            proof {
                assert(self.queues@[q as int].limit == limit);
                assert(self.queues@[q as int]@ == without(before, general)[q as int]);
            }
            q = q + 1;
        }
        proof {
            assert(self@ =~= without(before, general));
        }
    }

    /// Removes targets from the map.
    pub fn remove_many(&mut self, targets: Vec<Target>)
        ensures
            final(self)@ == without_many(old(self)@, targets@),
            in_order(old(self)@) ==> in_order(final(self)@),
    {
        let ghost all = targets@;
        for target in it: targets
            invariant
                it.seq() == all,
                self@ == without_many(old(self)@, all.take(it.index() as int)),
                in_order(old(self)@) ==> in_order(self@),
        {
            proof {
                assert(all.take(it.index() + 1).drop_last() =~= all.take(it.index() as int));
            }
            self.remove(&target);
        }
        proof {
            assert(all.take(all.len() as int) =~= all);
        }
    }

    /// Checks which timeouts are expired at the moment `now`, removes them
    /// and returns an event for each of them.
    ///
    /// Each queue is gone through from its front up to the first target
    /// that has not expired, so a target behind that one stays even if its
    /// own wait is over.
    pub fn process_timeouts(&mut self, now: u128) -> (expired_timeouts: Vec<ExpiredTimeout<M>>)
        ensures
            final(self)@ == after_processing(old(self)@, now),
            expired_timeouts@.map_values(|event: ExpiredTimeout<M>| event.target)
                == expired_targets(old(self)@, now),
            in_order(old(self)@) ==> in_order(final(self)@),
    {
        proof {
            if in_order(self@) {
                law_processing_keeps_order(self@, now);
            }
        }
        let ghost before = self@;
        let mut expired_timeouts: Vec<ExpiredTimeout<M>> = Vec::new();
        let mut q: usize = 0;
        while q < self.queues.len()
            invariant
                q <= self.queues.len(),
                before == old(self)@,
                self.queues@.len() == before.len(),
                forall|r: int|
                    0 <= r < q ==> (#[trigger] self.queues@[r])@ == after_processing(
                        before,
                        now,
                    )[r],
                forall|r: int|
                    q <= r < self.queues@.len() ==> (#[trigger] self.queues@[r])@ == before[r],
                expired_timeouts@.map_values(|event: ExpiredTimeout<M>| event.target)
                    == expired_targets(before.take(q as int), now),
            decreases self.queues.len() - q,
        {
            let limit = self.queues[q].limit;
            let ghost waiting = self.queues@[q as int].waiting@;
            assert(self.queues@[q as int]@ == before[q as int]);
            assert(waiting == before[q as int].waiting);
            // get first non-expired index
            let mut idx: usize = 0;
            while idx < self.queues[q].waiting.len()
                invariant
                    q < self.queues.len(),
                    idx <= waiting.len(),
                    waiting == self.queues@[q as int].waiting@,
                    alive_from(waiting, limit, now, 0) == alive_from(waiting, limit, now, idx as int),
                ensures
                    idx == alive_from(waiting, limit, now, 0),
                decreases waiting.len() - idx,
            {
                let pending = self.queues[q].waiting[idx];
                if !(now > pending.since && now - pending.since > limit) {
                    assert(!expired(waiting[idx as int], limit, now));
                    break ;
                }
                assert(expired(waiting[idx as int], limit, now));
                idx = idx + 1;
            }
            // remove the timeouts and publish the events
            let rest = self.queues[q].waiting.split_off(idx);
            let mut gone: Vec<PendingTimeout> = rest;
            core::mem::swap(&mut gone, &mut self.queues[q].waiting);
            proof {
                assert(gone@ =~= waiting.take(idx as int));
                assert(self.queues@[q as int].waiting@ =~= waiting.skip(idx as int));
                assert(self.queues@[q as int].limit == limit);
                assert(self.queues@[q as int]@ == after_processing(before, now)[q as int]);
                assert(before.take(q + 1).drop_last() =~= before.take(q as int));
                assert(before.take(q + 1).last() == before[q as int]);
            }
            let ghost published = expired_timeouts@;
            let mut i: usize = 0;
            while i < gone.len()
                invariant
                    i <= gone.len(),
                    expired_timeouts@ == published + gone@.take(i as int).map_values(
                        |pending: PendingTimeout|
                            ExpiredTimeout::<M> { target: pending.target, _phant: PhantomData },
                    ),
                decreases gone.len() - i,
            {
                expired_timeouts.push(ExpiredTimeout { target: gone[i].target, _phant: PhantomData });
                i = i + 1;
                proof {
                    assert(expired_timeouts@ =~= published + gone@.take(i as int).map_values(
                        |pending: PendingTimeout|
                            ExpiredTimeout::<M> { target: pending.target, _phant: PhantomData },
                    ));
                }
            }
            proof {
                assert(gone@.take(i as int) =~= gone@);
                assert(expired_timeouts@.map_values(|event: ExpiredTimeout<M>| event.target)
                    =~= expired_targets(before.take(q + 1), now));
            }
            q = q + 1;
        }
        proof {
            assert(before.take(q as int) =~= before);
            assert(self@ =~= after_processing(before, now));
        }
        expired_timeouts
    }
}

/// Whether `queues` has an entry at place `i` of queue `q`.
pub open spec fn has_entry(queues: Queues, q: int, i: int) -> bool {
    0 <= q < queues.len() && 0 <= i < queues[q].waiting.len()
}

/// The target of the entry at place `i` of queue `q`.
pub open spec fn target_at(queues: Queues, q: int, i: int) -> Target {
    queues[q].waiting[i].target
}

/// What holds of the queues of every [`TimeoutMap`]: no target waits
/// twice, every target that waits is a general one, and no two queues have
/// the same time limit.
pub open spec fn in_order(queues: Queues) -> bool {
    &&& forall|q: int, i: int, r: int, j: int|
        has_entry(queues, q, i) && has_entry(queues, r, j) && #[trigger] target_at(queues, q, i)
            == #[trigger] target_at(queues, r, j) ==> q == r && i == j
    &&& forall|q: int, i: int|
        has_entry(queues, q, i) ==> (#[trigger] target_at(queues, q, i)).is_general()
    &&& forall|q: int, r: int|
        0 <= q < queues.len() && 0 <= r < queues.len() && (#[trigger] queues[q]).limit == (
        #[trigger] queues[r]).limit ==> q == r
}

/// What is left of `entries` when those for `target` are taken out is
/// left in its order: each entry left comes from a place of its own in
/// `entries`, a later one from a later place, and none is for `target`.
pub proof fn lemma_left_in_order(entries: Seq<PendingTimeout>, target: Target) -> (from: Seq<int>)
    ensures
        from.len() == entries.filter(not_for(target)).len(),
        forall|k: int|
            0 <= k < from.len() ==> 0 <= #[trigger] from[k] < entries.len() && entries.filter(
                not_for(target),
            )[k] == entries[from[k]] && entries[from[k]].target != target,
        forall|k: int, m: int| 0 <= k < m < from.len() ==> #[trigger] from[k] < #[trigger] from[m],
    decreases entries.len(),
{
    reveal(Seq::filter);
    if entries.len() == 0 {
        Seq::empty()
    } else {
        let before = lemma_left_in_order(entries.drop_last(), target);
        if entries.last().target != target {
            before.push(entries.len() - 1)
        } else {
            before
        }
    }
}

/// A new map is in order.
pub proof fn law_new_is_in_order()
    ensures
        in_order(Queues::empty()),
{
}

/// Taking a target out keeps the queues in order, and the target does
/// not wait any more.
pub proof fn law_without_keeps_order(queues: Queues, target: Target)
    requires
        in_order(queues),
    ensures
        in_order(without(queues, target)),
        !waits(without(queues, target), target),
{
    let after = without(queues, target);
    assert forall|q: int, i: int, r: int, j: int|
        has_entry(after, q, i) && has_entry(after, r, j) && #[trigger] target_at(after, q, i)
            == #[trigger] target_at(after, r, j) implies q == r && i == j by {
        let from_q = lemma_left_in_order(queues[q].waiting, target);
        let from_r = if q == r {
            from_q
        } else {
            lemma_left_in_order(queues[r].waiting, target)
        };
        assert(target_at(queues, q, from_q[i]) == target_at(queues, r, from_r[j]));
        if q == r && i != j {
            if i < j {
                assert(from_q[i] < from_q[j]);
            } else {
                assert(from_q[j] < from_q[i]);
            }
        }
    }
    assert forall|q: int, i: int| has_entry(after, q, i) implies (#[trigger] target_at(
        after,
        q,
        i,
    )).is_general() by {
        let from_q = lemma_left_in_order(queues[q].waiting, target);
        assert(target_at(queues, q, from_q[i]).is_general());
    }
    assert forall|q: int, r: int|
        0 <= q < after.len() && 0 <= r < after.len() && (#[trigger] after[q]).limit == (
        #[trigger] after[r]).limit implies q == r by {
        assert(queues[q].limit == queues[r].limit);
    }
    if waits(after, target) {
        let (q, i) = choose|q: int, i: int|
            0 <= q < after.len() && 0 <= i < after[q].waiting.len() && (
            #[trigger] after[q].waiting[i]).target == target;
        let from_q = lemma_left_in_order(queues[q].waiting, target);
        assert(queues[q].waiting[from_q[i]].target != target);
    }
}

/// Where no queue from `from` on has the time limit `limit`, the place
/// found for the limit is behind all queues.
pub proof fn lemma_queue_from(queues: Queues, limit: u128, from: int)
    requires
        0 <= from <= queues.len(),
    ensures
        from <= queue_from(queues, limit, from) <= queues.len(),
        queue_from(queues, limit, from) < queues.len() ==> queues[queue_from(
            queues,
            limit,
            from,
        )].limit == limit,
        queue_from(queues, limit, from) == queues.len() ==> forall|q: int|
            from <= q < queues.len() ==> (#[trigger] queues[q]).limit != limit,
    decreases queues.len() - from,
{
    if from < queues.len() && queues[from].limit != limit {
        lemma_queue_from(queues, limit, from + 1);
    }
}

/// Letting a general target wait that does not wait yet keeps the queues
/// in order, and the target waits then.
pub proof fn law_with_keeps_order(queues: Queues, target: Target, limit: u128, now: u128)
    requires
        in_order(queues),
        target.is_general(),
        !waits(queues, target),
    ensures
        in_order(with(queues, target, limit, now)),
        waits(with(queues, target, limit, now), target),
{
    let after = with(queues, target, limit, now);
    let place = queue_from(queues, limit, 0);
    lemma_queue_from(queues, limit, 0);
    let last = if place < queues.len() {
        queues[place].waiting.len() as int
    } else {
        0
    };
    assert(has_entry(after, place, last));
    assert(after[place].waiting[last].target == target);
    // every other entry was there before, at the same place
    assert forall|q: int, i: int| has_entry(after, q, i) && !(q == place && i == last) implies has_entry(
        queues,
        q,
        i,
    ) && queues[q].waiting[i] == after[q].waiting[i] by {}
    assert forall|q: int, i: int, r: int, j: int|
        has_entry(after, q, i) && has_entry(after, r, j) && #[trigger] target_at(after, q, i)
            == #[trigger] target_at(after, r, j) implies q == r && i == j by {
        if q == place && i == last {
            if !(r == place && j == last) {
                assert(queues[r].waiting[j].target == target);
            }
        } else if r == place && j == last {
            assert(queues[q].waiting[i].target == target);
        } else {
            assert(target_at(queues, q, i) == target_at(queues, r, j));
        }
    }
    assert forall|q: int, i: int| has_entry(after, q, i) implies (#[trigger] target_at(
        after,
        q,
        i,
    )).is_general() by {
        if !(q == place && i == last) {
            assert(target_at(queues, q, i).is_general());
        }
    }
    assert forall|q: int, r: int|
        0 <= q < after.len() && 0 <= r < after.len() && (#[trigger] after[q]).limit == (
        #[trigger] after[r]).limit implies q == r by {
        if place < queues.len() {
            assert(queues[q].limit == queues[r].limit);
        } else if q < queues.len() && r < queues.len() {
            assert(queues[q].limit == queues[r].limit);
        } else if q < queues.len() {
            assert(queues[q].limit != limit);
        } else if r < queues.len() {
            assert(queues[r].limit != limit);
        }
    }
}

/// Inserting a target keeps the queues in order, and the target waits
/// then, once.
pub proof fn law_insert_keeps_order(queues: Queues, target: Target, limit: u128, now: u128)
    requires
        in_order(queues),
    ensures
        in_order(with(without(queues, target.general()), target.general(), limit, now)),
        waits(with(without(queues, target.general()), target.general(), limit, now), target.general()),
{
    law_without_keeps_order(queues, target.general());
    law_with_keeps_order(without(queues, target.general()), target.general(), limit, now);
}

/// Processing the timeouts keeps the queues in order, and no target that
/// was found expired waits any more.
pub proof fn law_processing_keeps_order(queues: Queues, now: u128)
    requires
        in_order(queues),
    ensures
        in_order(after_processing(queues, now)),
{
    let after = after_processing(queues, now);
    assert forall|q: int| 0 <= q < queues.len() implies 0 <= #[trigger] alive_from(
        queues[q].waiting,
        queues[q].limit,
        now,
        0,
    ) <= queues[q].waiting.len() by {
        lemma_alive_from(queues[q].waiting, queues[q].limit, now, 0);
    }
    assert forall|q: int, i: int, r: int, j: int|
        has_entry(after, q, i) && has_entry(after, r, j) && #[trigger] target_at(after, q, i)
            == #[trigger] target_at(after, r, j) implies q == r && i == j by {
        let gone_q = alive_from(queues[q].waiting, queues[q].limit, now, 0);
        let gone_r = alive_from(queues[r].waiting, queues[r].limit, now, 0);
        assert(target_at(queues, q, i + gone_q) == target_at(queues, r, j + gone_r));
    }
    assert forall|q: int, i: int| has_entry(after, q, i) implies (#[trigger] target_at(
        after,
        q,
        i,
    )).is_general() by {
        let gone_q = alive_from(queues[q].waiting, queues[q].limit, now, 0);
        assert(target_at(queues, q, i + gone_q).is_general());
    }
    assert forall|q: int, r: int|
        0 <= q < after.len() && 0 <= r < after.len() && (#[trigger] after[q]).limit == (
        #[trigger] after[r]).limit implies q == r by {
        assert(queues[q].limit == queues[r].limit);
    }
}

/// The place of the first entry that has not expired is a place of the
/// queue or just behind it, and every entry before it has expired.
pub proof fn lemma_alive_from(waiting: Seq<PendingTimeout>, limit: u128, now: u128, from: int)
    requires
        0 <= from <= waiting.len(),
    ensures
        from <= alive_from(waiting, limit, now, from) <= waiting.len(),
        forall|i: int|
            from <= i < alive_from(waiting, limit, now, from) ==> expired(
                #[trigger] waiting[i],
                limit,
                now,
            ),
        alive_from(waiting, limit, now, from) < waiting.len() ==> !expired(
            waiting[alive_from(waiting, limit, now, from)],
            limit,
            now,
        ),
    decreases waiting.len() - from,
{
    if from < waiting.len() && expired(waiting[from], limit, now) {
        lemma_alive_from(waiting, limit, now, from + 1);
    }
}

/// The entries of `waiting` that are for another target than `target`, in
/// their order.
fn retain_others(waiting: &Vec<PendingTimeout>, target: Target) -> (kept: Vec<PendingTimeout>)
    ensures
        kept@ == waiting@.filter(not_for(target)),
{
    let ghost others = not_for(target);
    let mut kept: Vec<PendingTimeout> = Vec::new();
    let mut i: usize = 0;
    proof {
        reveal(Seq::filter);
        assert(waiting@.take(0).filter(others) =~= Seq::<PendingTimeout>::empty());
    }
    while i < waiting.len()
        invariant
            i <= waiting.len(),
            others == not_for(target),
            kept@ == waiting@.take(i as int).filter(others),
        decreases waiting.len() - i,
    {
        proof {
            reveal(Seq::filter);
            assert(waiting@.take(i + 1).drop_last() =~= waiting@.take(i as int));
        }
        if waiting[i].target != target {
            kept.push(waiting[i]);
        }
        i = i + 1;
    }
    proof {
        assert(waiting@.take(i as int) =~= waiting@);
    }
    kept
}

} // verus!
