//! How healthy drivers are seen to be, and when that changes.
//!
//! The state of a driver belongs to its life; a health tier is what an observer
//! makes of it.
use vstd::prelude::*;

use crate::driver::lifecycle::{DriverLifecycleManager, DriverLifecycleState};
use crate::driver::map::DriverMap;
use crate::model::DriverId;

verus! {

/// How healthy a driver is seen to be.
#[derive(Debug, Clone, Copy, PartialEq, Eq, Structural)]
pub enum HealthTier {
    Healthy,
    Degraded,
    Failing,
    Disabled,
}

impl HealthTier {
    pub open spec fn rank(self) -> u8 {
        match self {
            HealthTier::Healthy => 0,
            HealthTier::Degraded => 1,
            HealthTier::Failing => 2,
            HealthTier::Disabled => 3,
        }
    }

    pub fn as_u8(self) -> (r: u8)
        ensures
            r == self.rank(),
    {
        match self {
            HealthTier::Healthy => 0,
            HealthTier::Degraded => 1,
            HealthTier::Failing => 2,
            HealthTier::Disabled => 3,
        }
    }
}

/// The tier of a state.
pub open spec fn tier_of(state: DriverLifecycleState) -> HealthTier {
    match state {
        DriverLifecycleState::Active => HealthTier::Healthy,
        DriverLifecycleState::Degraded => HealthTier::Degraded,
        DriverLifecycleState::Initializing
        | DriverLifecycleState::Replacing
        | DriverLifecycleState::Recovering
        | DriverLifecycleState::Failed => HealthTier::Failing,
        DriverLifecycleState::Absent | DriverLifecycleState::Stopping => HealthTier::Disabled,
    }
}

/// The tier of a state.
pub fn health_tier_of(state: DriverLifecycleState) -> (r: HealthTier)
    ensures
        r == tier_of(state),
{
    match state {
        DriverLifecycleState::Active => HealthTier::Healthy,
        DriverLifecycleState::Degraded => HealthTier::Degraded,
        DriverLifecycleState::Initializing
        | DriverLifecycleState::Replacing
        | DriverLifecycleState::Recovering
        | DriverLifecycleState::Failed => HealthTier::Failing,
        DriverLifecycleState::Absent | DriverLifecycleState::Stopping => HealthTier::Disabled,
    }
}

/// How many drivers of a list are in a tier.
pub open spec fn in_tier(states: Seq<DriverLifecycleState>, tier: HealthTier) -> nat
    decreases states.len(),
{
    if states.len() == 0 {
        0
    } else {
        in_tier(states.drop_last(), tier) + if tier_of(states.last()) == tier { 1nat } else { 0nat }
    }
}

/// The states of the drivers that a manager knows.
pub open spec fn states_of(book: crate::driver::lifecycle::Book) -> Seq<DriverLifecycleState> {
    Seq::new(book.order.len(), |i: int| book.drivers[book.order[i]].state)
}

/// How many drivers are in each tier, from healthy to disabled.
pub fn tier_counts(manager: &DriverLifecycleManager) -> (r: [u64; 4])
    ensures
        r@[0] == in_tier(states_of(manager.book()), HealthTier::Healthy),
        r@[1] == in_tier(states_of(manager.book()), HealthTier::Degraded),
        r@[2] == in_tier(states_of(manager.book()), HealthTier::Failing),
        r@[3] == in_tier(states_of(manager.book()), HealthTier::Disabled),
{
    let all = manager.snapshot();
    let ghost states = states_of(manager.book());
    let mut healthy: u64 = 0;
    let mut degraded: u64 = 0;
    let mut failing: u64 = 0;
    let mut disabled: u64 = 0;
    let mut i: usize = 0;
    assert(states.take(0) =~= Seq::<DriverLifecycleState>::empty());
    while i < all.len()
        invariant
            i <= all@.len(),
            all@.len() == states.len(),
            forall|k: int| 0 <= k < states.len() ==> (#[trigger] all@[k]).1 == states[k],
            healthy == in_tier(states.take(i as int), HealthTier::Healthy),
            degraded == in_tier(states.take(i as int), HealthTier::Degraded),
            failing == in_tier(states.take(i as int), HealthTier::Failing),
            disabled == in_tier(states.take(i as int), HealthTier::Disabled),
            healthy <= i,
            degraded <= i,
            failing <= i,
            disabled <= i,
        decreases all.len() - i,
    {
        assert(states.take(i as int + 1).drop_last() =~= states.take(i as int));
        assert(all@[i as int].1 == states[i as int]);
        match health_tier_of(all[i].1) {
            HealthTier::Healthy => {
                healthy += 1;
            },
            HealthTier::Degraded => {
                degraded += 1;
            },
            HealthTier::Failing => {
                failing += 1;
            },
            HealthTier::Disabled => {
                disabled += 1;
            },
        }
        i += 1;
    }
    assert(states.take(i as int) =~= states);
    [healthy, degraded, failing, disabled]
}

/// The tiers of the drivers that a manager knows.
pub open spec fn tiers_of(book: crate::driver::lifecycle::Book) -> Map<DriverId, HealthTier> {
    Map::new(|id: DriverId| book.drivers.contains_key(id), |id: DriverId| tier_of(book.drivers[id].state))
}

/// The drivers of a list whose tier is not the one that was last seen.
pub open spec fn moved(
    ids: Seq<DriverId>,
    last: Map<DriverId, HealthTier>,
    tiers: Map<DriverId, HealthTier>,
) -> Seq<(DriverId, HealthTier)>
    decreases ids.len(),
{
    if ids.len() == 0 {
        Seq::empty()
    } else {
        let id = ids.last();
        let front = moved(ids.drop_last(), last, tiers);
        if last.contains_pair(id, tiers[id]) { front } else { front.push((id, tiers[id])) }
    }
}

/// The drivers of a list that are gone and were not seen as disabled.
pub open spec fn gone(
    ids: Seq<DriverId>,
    last: Map<DriverId, HealthTier>,
    tiers: Map<DriverId, HealthTier>,
) -> Seq<(DriverId, HealthTier)>
    decreases ids.len(),
{
    if ids.len() == 0 {
        Seq::empty()
    } else {
        let id = ids.last();
        let front = gone(ids.drop_last(), last, tiers);
        if tiers.contains_key(id) || last[id] == HealthTier::Disabled {
            front
        } else {
            front.push((id, HealthTier::Disabled))
        }
    }
}

/// Tells of changes of tiers, each once.
pub struct TierTracker {
    last: DriverMap<HealthTier>,
}

impl TierTracker {
    /// The tiers that were last seen.
    pub closed spec fn seen(&self) -> Map<DriverId, HealthTier> {
        self.last@
    }

    pub closed spec fn order(&self) -> Seq<DriverId> {
        self.last.keys()
    }

    /// The drivers whose tier changed since it was last seen; a driver that is
    /// gone is disabled, once.
    pub fn reconcile(&mut self, manager: &DriverLifecycleManager) -> (r: Vec<(DriverId, HealthTier)>)
        ensures
            r@ == moved(manager.book().order, old(self).seen(), tiers_of(manager.book())) + gone(
                old(self).order(),
                old(self).seen(),
                tiers_of(manager.book()),
            ),
            final(self).seen() == tiers_of(manager.book()),
            forall|id: DriverId| final(self).order().contains(id) <==> #[trigger] final(self).seen().contains_key(id),
            final(self).order().no_duplicates(),
            manager.book().order.no_duplicates(),
    {
        let all = manager.snapshot();
        let ghost book = manager.book();
        let ghost tiers = tiers_of(book);
        let ghost last = self.seen();
        let mut changed: Vec<(DriverId, HealthTier)> = Vec::new();
        let mut fresh: DriverMap<HealthTier> = DriverMap::new();
        let mut i: usize = 0;
        assert(book.order.take(0) =~= Seq::<DriverId>::empty());
        while i < all.len()
            invariant
                i <= all@.len(),
                all@.len() == book.order.len(),
                tiers == tiers_of(book),
                last == self.seen(),
                forall|k: int| 0 <= k < all@.len() ==> (#[trigger] all@[k]).0 == book.order[k] && all@[k].1
                    == book.drivers[book.order[k]].state,
                forall|id: DriverId| book.order.contains(id) <==> #[trigger] book.drivers.contains_key(id),
                changed@ == moved(book.order.take(i as int), last, tiers),
                forall|id: DriverId| #[trigger] fresh@.contains_key(id) <==> book.order.take(i as int).contains(id),
                forall|id: DriverId| #[trigger] fresh@.contains_key(id) ==> fresh@[id] == tiers[id],
            decreases all.len() - i,
        {
            let id = all[i].0;
            let tier = health_tier_of(all[i].1);
            let ghost ids = book.order.take(i as int);
            proof {
                assert(all@[i as int].0 == book.order[i as int]);
                assert(book.order.contains(id));
                assert(book.drivers.contains_key(id));
                assert(tiers[id] == tier);
                assert(book.order.take(i as int + 1) =~= ids.push(id));
                assert(ids.push(id).drop_last() =~= ids);
                assert forall|k: DriverId| #[trigger] ids.push(id).contains(k) <==> ids.contains(k) || k == id by {
                    crate::seqs::contains_after_push(ids, id, k);
                }
            }
            fresh.insert(id, tier);
            let same = match self.last.get(id) {
                Some(t) => *t == tier,
                None => false,
            };
            if !same {
                changed.push((id, tier));
            }
            i += 1;
        }
        proof {
            assert(book.order.take(i as int) =~= book.order);
            assert(fresh@ =~= tiers);
        }
        let ghost first = changed@;
        let n = self.last.len();
        let ghost olds = self.last.keys();
        let mut j: usize = 0;
        assert(olds.take(0) =~= Seq::<DriverId>::empty());
        assert(changed@ =~= first + gone(olds.take(0), last, tiers));
        while j < n
            invariant
                j <= n,
                n == olds.len(),
                olds == self.last.keys(),
                last == self.last@,
                fresh@ == tiers,
                changed@ == first + gone(olds.take(j as int), last, tiers),
            decreases n - j,
        {
            let (id, tier) = self.last.entry(j);
            let ghost ids = olds.take(j as int);
            assert(olds.take(j as int + 1) =~= ids.push(id));
            assert(ids.push(id).drop_last() =~= ids);
            if !fresh.contains_key(id) && *tier != HealthTier::Disabled {
                changed.push((id, HealthTier::Disabled));
            }
            assert(changed@ =~= first + gone(olds.take(j as int + 1), last, tiers));
            j += 1;
        }
        assert(olds.take(j as int) =~= olds);
        // Counting the keys is what shows that they are those of the map.
        let _: usize = fresh.len();
        self.last = fresh;
        changed
    }
}

impl Default for TierTracker {
    fn default() -> (r: TierTracker)
        ensures
            r.seen() == Map::<DriverId, HealthTier>::empty(),
            r.order() == Seq::<DriverId>::empty(),
    {
        TierTracker { last: DriverMap::new() }
    }
}

proof fn nothing_moved(ids: Seq<DriverId>, tiers: Map<DriverId, HealthTier>)
    requires
        forall|i: int| 0 <= i < ids.len() ==> tiers.contains_key(#[trigger] ids[i]),
    ensures
        moved(ids, tiers, tiers).len() == 0,
        gone(ids, tiers, tiers).len() == 0,
    decreases ids.len(),
{
    if ids.len() > 0 {
        let front = ids.drop_last();
        assert forall|i: int| 0 <= i < front.len() implies tiers.contains_key(#[trigger] front[i]) by {
            assert(front[i] == ids[i]);
        }
        nothing_moved(front, tiers);
        assert(tiers.contains_key(ids[ids.len() - 1]));
    }
}

/// A change is told once: where nothing happened since, there is nothing to
/// tell.
pub proof fn changes_are_told_once(book: crate::driver::lifecycle::Book, order: Seq<DriverId>)
    requires
        book.sound(),
        forall|id: DriverId| order.contains(id) <==> #[trigger] tiers_of(book).contains_key(id),
    ensures
        (moved(book.order, tiers_of(book), tiers_of(book)) + gone(order, tiers_of(book), tiers_of(book))).len() == 0,
{
    let tiers = tiers_of(book);
    assert forall|i: int| 0 <= i < book.order.len() implies tiers.contains_key(#[trigger] book.order[i]) by {
        assert(book.order.contains(book.order[i]));
        assert(book.drivers.contains_key(book.order[i]));
    }
    assert forall|i: int| 0 <= i < order.len() implies tiers.contains_key(#[trigger] order[i]) by {
        assert(order.contains(order[i]));
    }
    nothing_moved(book.order, tiers);
    nothing_moved(order, tiers);
}

/// An active driver is healthy and a degraded one degraded. One that failed or
/// is on its way is failing, and one that is gone or going is disabled.
pub proof fn states_have_tiers(state: DriverLifecycleState)
    ensures
        tier_of(state) == HealthTier::Healthy <==> state == DriverLifecycleState::Active,
        tier_of(state) == HealthTier::Degraded <==> state == DriverLifecycleState::Degraded,
        tier_of(state) == HealthTier::Disabled <==> state == DriverLifecycleState::Absent || state
            == DriverLifecycleState::Stopping,
        tier_of(state).rank() <= 3,
{
}

/// A worse tier has a higher rank.
pub proof fn ranks_order_the_tiers()
    ensures
        HealthTier::Healthy.rank() == 0,
        HealthTier::Degraded.rank() == 1,
        HealthTier::Failing.rank() == 2,
        HealthTier::Disabled.rank() == 3,
{
}

/// Each driver counts once, for its own tier.
pub proof fn drivers_are_counted_by_tier(
    first: Seq<DriverLifecycleState>,
    second: Seq<DriverLifecycleState>,
    tier: HealthTier,
)
    ensures
        in_tier(first + second, tier) == in_tier(first, tier) + in_tier(second, tier),
        second.len() == 1 ==> in_tier(second, tier) == if tier_of(second[0]) == tier { 1nat } else { 0nat },
        in_tier(second, HealthTier::Healthy) + in_tier(second, HealthTier::Degraded) + in_tier(
            second,
            HealthTier::Failing,
        ) + in_tier(second, HealthTier::Disabled) == second.len(),
    decreases second.len(),
{
    if second.len() == 0 {
        assert(first + second =~= first);
    } else {
        let front = second.drop_last();
        drivers_are_counted_by_tier(first, front, tier);
        assert((first + second).drop_last() =~= first + front);
        assert((first + second).last() == second.last());
        if second.len() == 1 {
            assert(in_tier(front, tier) == 0);
        }
    }
}

/// A driver is told of exactly where its tier is not the one that was last seen
/// of it.
pub proof fn drivers_that_moved_are_told(
    ids: Seq<DriverId>,
    last: Map<DriverId, HealthTier>,
    tiers: Map<DriverId, HealthTier>,
    id: DriverId,
    tier: HealthTier,
)
    ensures
        moved(ids, last, tiers).contains((id, tier)) <==> ids.contains(id) && tier == tiers[id] && !(last.contains_key(
            id,
        ) && last[id] == tier),
    decreases ids.len(),
{
    if ids.len() > 0 {
        let front = ids.drop_last();
        drivers_that_moved_are_told(front, last, tiers, id, tier);
        crate::seqs::contains_after_push(front, ids.last(), id);
        assert(front.push(ids.last()) =~= ids);
        crate::seqs::contains_after_push(
            moved(front, last, tiers),
            (ids.last(), tiers[ids.last()]),
            (id, tier),
        );
    }
}

/// A driver that is gone is told of as disabled, unless that was last seen of
/// it.
pub proof fn drivers_that_are_gone_are_told(
    ids: Seq<DriverId>,
    last: Map<DriverId, HealthTier>,
    tiers: Map<DriverId, HealthTier>,
    id: DriverId,
    tier: HealthTier,
)
    ensures
        gone(ids, last, tiers).contains((id, tier)) <==> ids.contains(id) && tier == HealthTier::Disabled
            && !tiers.contains_key(id) && last[id] != HealthTier::Disabled,
    decreases ids.len(),
{
    if ids.len() > 0 {
        let front = ids.drop_last();
        drivers_that_are_gone_are_told(front, last, tiers, id, tier);
        crate::seqs::contains_after_push(front, ids.last(), id);
        assert(front.push(ids.last()) =~= ids);
        crate::seqs::contains_after_push(
            gone(front, last, tiers),
            (ids.last(), HealthTier::Disabled),
            (id, tier),
        );
    }
}

/// The tiers are those of the drivers that are known, each by its own state.
pub proof fn tiers_are_those_of_the_drivers(book: crate::driver::lifecycle::Book, id: DriverId)
    ensures
        tiers_of(book).contains_key(id) <==> book.drivers.contains_key(id),
        book.drivers.contains_key(id) ==> tiers_of(book)[id] == tier_of(book.drivers[id].state),
{
}

} // verus!
