//! From decisions to changes of the size of packets, and back to agreement with
//! what is in force.
//!
//! What the controller intends is the authority: whatever else is in force is
//! drift, and is put right.
use vstd::prelude::*;

use crate::b4_engine::observe::B4Observation;
use crate::b4_engine::policy::{B4Policy, B4Profile};
use crate::b4_engine::state::{B4Decision, B4Engine, B4EngineConfig, B4Event, B4State};
use crate::text_map::TextMap;

verus! {

/// The size of packets on a path.
#[derive(Debug)]
pub struct PathMtu {
    pub path: String,
    pub mtu: u16,
}

/// The sizes that a list gives, by path. The last entry for a path counts.
pub open spec fn mtus(list: Seq<PathMtu>) -> Map<Seq<char>, u16>
    decreases list.len(),
{
    if list.len() == 0 {
        Map::empty()
    } else {
        mtus(list.drop_last()).insert(list.last().path@, list.last().mtu)
    }
}

/// The paths of a list.
pub open spec fn paths(list: Seq<PathMtu>) -> Seq<Seq<char>> {
    Seq::new(list.len(), |i: int| list[i].path@)
}

/// What the controller asks for after a decision.
#[derive(Debug, Clone, Copy, PartialEq, Eq, Structural)]
pub enum ControlStep {
    /// Nothing.
    Nothing,
    /// Set the size of packets of the flow.
    SetMtu { mtu: u16 },
    /// Restore the size of packets of the flow.
    RestoreMtu,
}

/// What a decision for a flow asks for.
pub open spec fn asked_for(
    decision: B4Decision,
    mtu_enabled: bool,
    intended: bool,
) -> ControlStep {
    match decision {
        B4Decision::AdaptMtu { mtu } if mtu_enabled => ControlStep::SetMtu { mtu },
        B4Decision::Recovered if intended => ControlStep::RestoreMtu,
        _ => ControlStep::Nothing,
    }
}

/// Runs the engine and carries its decisions out.
pub struct B4Controller {
    engine: B4Engine,
    intended_mtu: TextMap<u16>,
    mtu_enabled: bool,
}

impl B4Controller {
    /// The engine.
    pub closed spec fn brain(&self) -> B4Engine {
        self.engine
    }

    /// The sizes of packets that are intended, by path.
    pub closed spec fn intended(&self) -> Map<Seq<char>, u16> {
        self.intended_mtu@
    }

    /// Whether the size of packets may be changed at all.
    pub closed spec fn may_change(&self) -> bool {
        self.mtu_enabled
    }

    /// Set whether the size of packets may be changed at all.
    pub fn set_mtu_enabled(&mut self, enabled: bool)
        ensures
            final(self).may_change() == enabled,
            final(self).intended() == old(self).intended(),
            final(self).brain() == old(self).brain(),
    {
        self.mtu_enabled = enabled;
    }

    /// A controller that knows no flow yet and may change the size of packets.
    pub fn new(policy: B4Policy, config: B4EngineConfig) -> (r: Self)
        ensures
            r.may_change(),
            r.intended() == Map::<Seq<char>, u16>::empty(),
            r.brain().rules() == policy,
            r.brain().settings() == config,
            r.brain().contexts() == Map::<Seq<char>, crate::b4_engine::state::FlowContext>::empty(),
            r.brain().decisions() == Map::<Seq<char>, B4Decision>::empty(),
            r.brain().observations() == Map::<Seq<char>, B4Observation>::empty(),
            r.brain().order() == Seq::<Seq<char>>::empty(),
            r.brain().bounded(),
    {
        B4Controller { engine: B4Engine::with_config(policy, config), intended_mtu: TextMap::new(), mtu_enabled: true }
    }

    /// What a decision asks for.
    pub fn execute(&self, flow: &str, decision: &B4Decision) -> (r: ControlStep)
        ensures
            r == asked_for(*decision, self.may_change(), self.intended().contains_key(flow@)),
    {
        match decision {
            B4Decision::AdaptMtu { mtu } => {
                if self.mtu_enabled {
                    ControlStep::SetMtu { mtu: *mtu }
                } else {
                    ControlStep::Nothing
                }
            },
            B4Decision::Recovered => {
                if self.intended_mtu.contains_key(flow) {
                    ControlStep::RestoreMtu
                } else {
                    ControlStep::Nothing
                }
            },
            _ => ControlStep::Nothing,
        }
    }

    /// Run one cycle for a flow with what was observed of it: what is asked
    /// for, and what happened.
    pub fn run_for(&mut self, flow: &str, obs: &B4Observation) -> (r: (ControlStep, Vec<B4Event>))
        ensures
            final(self).may_change() == old(self).may_change(),
            final(self).intended() == old(self).intended(),
            final(self).brain().rules() == old(self).brain().rules(),
            final(self).brain().settings() == old(self).brain().settings(),
            old(self).brain().bounded() ==> final(self).brain().bounded() && (r.0 matches ControlStep::SetMtu {
                mtu,
            } ==> 1280 <= mtu <= 1480 && old(self).brain().profile(flow@).capabilities.contains(
                crate::b4_engine::policy::B4Capability::Mtu,
            )),
            !old(self).brain().settings().enabled ==> r.0 == ControlStep::Nothing && final(self).brain() == old(self).brain(),
            old(self).brain().settings().enabled ==> {
                let out = old(self).brain().outcome(flow@, *obs);
                &&& r.0 == asked_for(out.decision, old(self).may_change(), old(self).intended().contains_key(flow@))
                &&& crate::b4_engine::state::events_say(
                    r.1@,
                    flow@,
                    seq![
                        crate::b4_engine::state::Note::Classified(crate::b4_engine::classify::class_of(*obs)),
                    ] + out.notes,
                )
                &&& final(self).brain().contexts() == old(self).brain().contexts().insert(flow@, out.ctx)
                &&& final(self).brain().decisions() == old(self).brain().decisions().insert(flow@, out.decision)
                &&& final(self).brain().observations() == old(self).brain().observations().insert(flow@, *obs)
                &&& final(self).brain().order() == old(self).brain().order_with(flow@)
            },
            !old(self).brain().settings().enabled ==> crate::b4_engine::state::events_say(
                r.1@,
                flow@,
                seq![crate::b4_engine::state::Note::Classified(crate::b4_engine::classify::class_of(*obs))],
            ),
    {
        let (decision, events) = self.engine.evaluate(flow, obs);
        let step = self.execute(flow, &decision);
        (step, events)
    }

    /// A size was asked for: it is intended from now on where it was set.
    pub fn set_done(&mut self, flow: &str, mtu: u16, ok: bool)
        ensures
            final(self).intended() == if ok { old(self).intended().insert(flow@, mtu) } else { old(self).intended() },
            final(self).brain() == old(self).brain(),
            final(self).may_change() == old(self).may_change(),
    {
        if ok {
            self.intended_mtu.insert(flow, mtu);
        }
    }

    /// A restore was asked for: nothing is intended any more where it was done.
    pub fn restore_done(&mut self, flow: &str, ok: bool)
        ensures
            final(self).intended() == if ok { old(self).intended().remove(flow@) } else { old(self).intended() },
            final(self).brain() == old(self).brain(),
            final(self).may_change() == old(self).may_change(),
    {
        if ok {
            self.intended_mtu.remove(flow);
        }
    }

    /// The sizes of packets that are intended, one entry for each path.
    pub fn intended_path_mtu(&self) -> (r: Vec<PathMtu>)
        ensures
            mtus(r@) == self.intended(),
            paths(r@).no_duplicates(),
    {
        list_of(&self.intended_mtu)
    }

    /// The state of a flow.
    pub fn flow_state(&self, flow: &str) -> (r: B4State)
        ensures
            r == self.brain().context(flow@).state,
    {
        self.engine.state_of(flow)
    }

    /// The last decision for a flow.
    pub fn flow_decision(&self, flow: &str) -> (r: Option<B4Decision>)
        ensures
            r == if self.brain().decisions().contains_key(flow@) { Some(self.brain().decisions()[flow@]) } else { None },
    {
        match self.engine.last_decision(flow) {
            Some(d) => Some(*d),
            None => None,
        }
    }

    /// The last observation of a flow.
    pub fn flow_observation(&self, flow: &str) -> (r: Option<B4Observation>)
        ensures
            r == if self.brain().observations().contains_key(flow@) {
                Some(self.brain().observations()[flow@])
            } else {
                None
            },
    {
        match self.engine.last_observation(flow) {
            Some(o) => Some(*o),
            None => None,
        }
    }

    /// The profile that policy gives a flow.
    pub fn flow_profile(&self, flow: &str) -> (r: B4Profile)
        ensures
            r@ == self.brain().profile(flow@),
    {
        self.engine.profile_of(flow)
    }

    /// Whether the size of packets may be changed.
    pub fn mtu_enabled(&self) -> (r: bool)
        ensures
            r == self.may_change(),
    {
        self.mtu_enabled
    }

    /// The flows that the engine knows.
    pub fn flow_keys(&self) -> (r: Vec<String>)
        ensures
            crate::text::strings(r@) == self.brain().order(),
    {
        self.engine.flow_keys()
    }

    /// The domains that policy knows.
    pub fn policy_domains(&self) -> (r: Vec<String>)
        ensures
            crate::text::strings(r@) == crate::b4_engine::policy::domains_in(self.brain().rules().flows@),
    {
        self.engine.policy_domains()
    }
}

/// The part of a map whose keys are in a list.
spec fn part(m: Map<Seq<char>, u16>, keys: Seq<Seq<char>>) -> Map<Seq<char>, u16> {
    Map::new(|k: Seq<char>| keys.contains(k), |k: Seq<char>| m[k])
}

/// One map, with the values of another for the keys in a list.
spec fn overlaid(base: Map<Seq<char>, u16>, top: Map<Seq<char>, u16>, keys: Seq<Seq<char>>) -> Map<Seq<char>, u16> {
    Map::new(
        |k: Seq<char>| base.contains_key(k) || keys.contains(k),
        |k: Seq<char>| if keys.contains(k) { top[k] } else { base[k] },
    )
}

/// A map without the keys in a list that another map lacks.
spec fn pruned(base: Map<Seq<char>, u16>, wanted: Map<Seq<char>, u16>, keys: Seq<Seq<char>>) -> Map<Seq<char>, u16> {
    Map::new(|k: Seq<char>| base.contains_key(k) && (wanted.contains_key(k) || !keys.contains(k)), |k: Seq<char>| base[k])
}

proof fn part_grows(m: Map<Seq<char>, u16>, keys: Seq<Seq<char>>, x: Seq<char>)
    ensures
        part(m, keys.push(x)) == part(m, keys).insert(x, m[x]),
{
    assert forall|k: Seq<char>| #[trigger] keys.push(x).contains(k) <==> keys.contains(k) || k == x by {
        crate::seqs::contains_after_push(keys, x, k);
    }
    assert(part(m, keys.push(x)) =~= part(m, keys).insert(x, m[x]));
}

proof fn overlay_grows(base: Map<Seq<char>, u16>, top: Map<Seq<char>, u16>, keys: Seq<Seq<char>>, x: Seq<char>)
    ensures
        overlaid(base, top, keys.push(x)) == overlaid(base, top, keys).insert(x, top[x]),
        base.contains_pair(x, top[x]) ==> overlaid(base, top, keys.push(x)) == overlaid(base, top, keys),
{
    assert forall|k: Seq<char>| #[trigger] keys.push(x).contains(k) <==> keys.contains(k) || k == x by {
        crate::seqs::contains_after_push(keys, x, k);
    }
    assert(overlaid(base, top, keys.push(x)) =~= overlaid(base, top, keys).insert(x, top[x]));
    if base.contains_pair(x, top[x]) {
        assert(overlaid(base, top, keys.push(x)) =~= overlaid(base, top, keys));
    }
}

proof fn prune_grows(base: Map<Seq<char>, u16>, wanted: Map<Seq<char>, u16>, keys: Seq<Seq<char>>, x: Seq<char>)
    ensures
        pruned(base, wanted, keys.push(x)) == if wanted.contains_key(x) {
            pruned(base, wanted, keys)
        } else {
            pruned(base, wanted, keys).remove(x)
        },
{
    assert forall|k: Seq<char>| #[trigger] keys.push(x).contains(k) <==> keys.contains(k) || k == x by {
        crate::seqs::contains_after_push(keys, x, k);
    }
    if wanted.contains_key(x) {
        assert(pruned(base, wanted, keys.push(x)) =~= pruned(base, wanted, keys));
    } else {
        assert(pruned(base, wanted, keys.push(x)) =~= pruned(base, wanted, keys).remove(x));
    }
}

/// The entries of a map as a list.
fn list_of(map: &TextMap<u16>) -> (r: Vec<PathMtu>)
    ensures
        mtus(r@) == map@,
        paths(r@) == map.keys(),
        map.keys().no_duplicates(),
        forall|k: Seq<char>| map.keys().contains(k) <==> #[trigger] map@.contains_key(k),
{
    let mut out: Vec<PathMtu> = Vec::new();
    let n = map.len();
    let mut i: usize = 0;
    assert(paths(out@) =~= map.keys().take(0));
    assert(mtus(out@) =~= part(map@, map.keys().take(0)));
    while i < n
        invariant
            i <= n,
            n == map.keys().len(),
            paths(out@) == map.keys().take(i as int),
            mtus(out@) == part(map@, map.keys().take(i as int)),
        decreases n - i,
    {
        let ghost before = out@;
        let (key, value) = map.entry(i);
        out.push(PathMtu { path: key.clone(), mtu: *value });
        proof {
            assert(out@.drop_last() =~= before);
            part_grows(map@, map.keys().take(i as int), key@);
            assert(map.keys().take(i as int + 1) =~= map.keys().take(i as int).push(key@));
            assert(paths(out@) =~= paths(before).push(key@));
        }
        i += 1;
    }
    proof {
        assert(map.keys().take(i as int) =~= map.keys());
        assert(part(map@, map.keys()) =~= map@);
    }
    out
}

/// A change that brings what is in force closer to what is intended.
#[derive(Debug)]
pub enum MtuChange {
    Apply { path: String, mtu: u16 },
    Restore { path: String },
}

/// What is in force after a change.
pub open spec fn changed(state: Map<Seq<char>, u16>, c: MtuChange) -> Map<Seq<char>, u16> {
    match c {
        MtuChange::Apply { path, mtu } => state.insert(path@, mtu),
        MtuChange::Restore { path } => state.remove(path@),
    }
}

/// What is in force after changes, in order.
pub open spec fn all_changed(state: Map<Seq<char>, u16>, changes: Seq<MtuChange>) -> Map<Seq<char>, u16>
    decreases changes.len(),
{
    if changes.len() == 0 {
        state
    } else {
        changed(all_changed(state, changes.drop_last()), changes.last())
    }
}

/// The path that a change is about.
pub open spec fn change_path(c: MtuChange) -> Seq<char> {
    match c {
        MtuChange::Apply { path, .. } => path@,
        MtuChange::Restore { path } => path@,
    }
}

/// The paths that changes are about, in order.
pub open spec fn change_paths(changes: Seq<MtuChange>) -> Seq<Seq<char>> {
    Seq::new(changes.len(), |i: int| change_path(changes[i]))
}

proof fn another_path(changes: Seq<MtuChange>, c: MtuChange)
    requires
        change_paths(changes).no_duplicates(),
        !change_paths(changes).contains(change_path(c)),
    ensures
        change_paths(changes.push(c)).no_duplicates(),
        change_paths(changes.push(c)) == change_paths(changes).push(change_path(c)),
{
    let before = change_paths(changes);
    assert(change_paths(changes.push(c)) =~= before.push(change_path(c)));
    assert forall|i: int| 0 <= i < before.len() implies before[i] != change_path(c) by {
        assert(before.contains(before[i]));
    }
}

/// Whether a change is called for: a path is set where what is in force is not
/// what is intended, and restored where nothing is intended.
pub open spec fn called_for(c: MtuChange, intended: Map<Seq<char>, u16>, reported: Map<Seq<char>, u16>) -> bool {
    match c {
        MtuChange::Apply { path, mtu } => intended.contains_pair(path@, mtu) && !reported.contains_pair(path@, mtu),
        MtuChange::Restore { path } => reported.contains_key(path@) && !intended.contains_key(path@),
    }
}

fn map_of(list: &Vec<PathMtu>) -> (r: TextMap<u16>)
    ensures
        r@ == mtus(list@),
{
    let mut map: TextMap<u16> = TextMap::new();
    let mut i: usize = 0;
    assert(list@.take(0) =~= Seq::<PathMtu>::empty());
    while i < list.len()
        invariant
            i <= list@.len(),
            map@ == mtus(list@.take(i as int)),
        decreases list.len() - i,
    {
        map.insert(list[i].path.as_str(), list[i].mtu);
        assert(list@.take(i as int + 1).drop_last() =~= list@.take(i as int));
        i += 1;
    }
    assert(list@.take(i as int) =~= list@);
    map
}

proof fn not_among_the_first(keys: Seq<Seq<char>>, n: int)
    requires
        keys.no_duplicates(),
        0 <= n < keys.len(),
    ensures
        !keys.take(n).contains(keys[n]),
{
    if keys.take(n).contains(keys[n]) {
        let i = choose|i: int| 0 <= i < n && keys.take(n)[i] == keys[n];
        assert(keys[i] == keys[n]);
    }
}

/// Brings the sizes of packets that are in force to those that are intended.
pub struct PathMtuReconciler;

impl PathMtuReconciler {
    /// The changes that bring what is reported to what is intended, and what is
    /// intended with one entry for each path.
    pub fn reconcile(intended: &Vec<PathMtu>, reported: &Vec<PathMtu>) -> (r: (Vec<MtuChange>, Vec<PathMtu>))
        ensures
            all_changed(mtus(reported@), r.0@) == mtus(intended@),
            forall|i: int| 0 <= i < r.0@.len() ==> called_for(#[trigger] r.0@[i], mtus(intended@), mtus(reported@)),
            change_paths(r.0@).no_duplicates(),
            mtus(r.1@) == mtus(intended@),
            paths(r.1@).no_duplicates(),
    {
        let want = map_of(intended);
        let have = map_of(reported);
        let ghost im = mtus(intended@);
        let ghost rm = mtus(reported@);
        let after = list_of(&want);
        let mut changes: Vec<MtuChange> = Vec::new();
        let mut i: usize = 0;
        assert(overlaid(rm, im, want.keys().take(0)) =~= rm);
        while i < after.len()
            invariant
                i <= after@.len(),
                want@ == im,
                have@ == rm,
                paths(after@) == want.keys(),
                forall|k: Seq<char>| want.keys().contains(k) <==> #[trigger] im.contains_key(k),
                forall|j: int| 0 <= j < changes@.len() ==> called_for(#[trigger] changes@[j], im, rm),
                all_changed(rm, changes@) == overlaid(rm, im, want.keys().take(i as int)),
                want.keys().no_duplicates(),
                change_paths(changes@).no_duplicates(),
                forall|k: Seq<char>| #[trigger]
                    change_paths(changes@).contains(k) ==> want.keys().take(i as int).contains(k),
            decreases after.len() - i,
        {
            let ghost before = changes@;
            let path = &after[i].path;
            proof {
                assert(paths(after@)[i as int] == path@);
                assert(want.keys().contains(path@));
                overlay_grows(rm, im, want.keys().take(i as int), path@);
                assert(want.keys().take(i as int + 1) =~= want.keys().take(i as int).push(path@));
                assert(im.contains_key(path@));
            }
            if let Some(mtu) = want.get(path.as_str()) {
                let same = match have.get(path.as_str()) {
                    Some(c) => *c == *mtu,
                    None => false,
                };
                if !same {
                    let change = MtuChange::Apply { path: path.clone(), mtu: *mtu };
                    proof {
                        not_among_the_first(want.keys(), i as int);
                        another_path(before, change);
                    }
                    changes.push(change);
                    assert(changes@.drop_last() =~= before);
                }
            }
            proof {
                assert forall|k: Seq<char>| #[trigger] change_paths(changes@).contains(k) implies want.keys().take(
                    i as int + 1,
                ).contains(k) by {
                    crate::seqs::contains_after_push(change_paths(before), path@, k);
                    crate::seqs::contains_after_push(want.keys().take(i as int), path@, k);
                }
            }
            i += 1;
        }
        let ghost joined = overlaid(rm, im, want.keys());
        let seen = list_of(&have);
        let mut j: usize = 0;
        proof {
            assert(want.keys().take(i as int) =~= want.keys());
            assert(pruned(joined, im, have.keys().take(0)) =~= joined);
        }
        while j < seen.len()
            invariant
                j <= seen@.len(),
                want@ == im,
                have@ == rm,
                paths(seen@) == have.keys(),
                forall|k: Seq<char>| have.keys().contains(k) <==> #[trigger] rm.contains_key(k),
                forall|n: int| 0 <= n < changes@.len() ==> called_for(#[trigger] changes@[n], im, rm),
                all_changed(rm, changes@) == pruned(joined, im, have.keys().take(j as int)),
                have.keys().no_duplicates(),
                change_paths(changes@).no_duplicates(),
                forall|k: Seq<char>| #[trigger]
                    change_paths(changes@).contains(k) ==> im.contains_key(k) || have.keys().take(j as int).contains(k),
            decreases seen.len() - j,
        {
            let ghost before = changes@;
            let path = &seen[j].path;
            proof {
                assert(paths(seen@)[j as int] == path@);
                assert(have.keys().contains(path@));
                assert(rm.contains_key(path@));
                prune_grows(joined, im, have.keys().take(j as int), path@);
                assert(have.keys().take(j as int + 1) =~= have.keys().take(j as int).push(path@));
            }
            if !want.contains_key(path.as_str()) {
                let change = MtuChange::Restore { path: path.clone() };
                proof {
                    not_among_the_first(have.keys(), j as int);
                    another_path(before, change);
                }
                changes.push(change);
                assert(changes@.drop_last() =~= before);
            }
            proof {
                assert forall|k: Seq<char>| #[trigger] change_paths(changes@).contains(k) implies im.contains_key(k)
                    || have.keys().take(j as int + 1).contains(k) by {
                    crate::seqs::contains_after_push(change_paths(before), path@, k);
                    crate::seqs::contains_after_push(have.keys().take(j as int), path@, k);
                }
            }
            j += 1;
        }
        proof {
            assert(have.keys().take(j as int) =~= have.keys());
            assert(pruned(joined, im, have.keys()) =~= im);
        }
        (changes, after)
    }
}

/// Where what is in force is what is intended, no change is called for.
pub proof fn agreement_calls_for_nothing(c: MtuChange, state: Map<Seq<char>, u16>)
    ensures
        !called_for(c, state, state),
{
}

/// A change that was carried out is no longer called for.
pub proof fn a_change_settles_its_path(c: MtuChange, intended: Map<Seq<char>, u16>, reported: Map<Seq<char>, u16>)
    requires
        called_for(c, intended, reported),
    ensures
        !called_for(c, intended, changed(reported, c)),
{
}

/// The executor is asked to change the size of packets where that was decided
/// and is allowed, and to restore it where the path recovered and a size was
/// intended for it; it is asked for nothing else.
pub proof fn what_the_executor_is_asked_for(decision: B4Decision, mtu_enabled: bool, intended: bool)
    ensures
        decision matches B4Decision::AdaptMtu { mtu } ==> asked_for(decision, mtu_enabled, intended) == if mtu_enabled {
            ControlStep::SetMtu { mtu }
        } else {
            ControlStep::Nothing
        },
        decision == B4Decision::Recovered ==> asked_for(decision, mtu_enabled, intended) == if intended {
            ControlStep::RestoreMtu
        } else {
            ControlStep::Nothing
        },
        !(decision is AdaptMtu) && decision != B4Decision::Recovered ==> asked_for(decision, mtu_enabled, intended)
            == ControlStep::Nothing,
{
}

/// A change is called for exactly where a path that is intended has another
/// size or none, or where one that is not intended has a size.
pub proof fn which_changes_are_called_for(
    c: MtuChange,
    intended: Map<Seq<char>, u16>,
    reported: Map<Seq<char>, u16>,
)
    ensures
        c matches MtuChange::Apply { path, mtu } ==> (called_for(c, intended, reported) <==> intended.contains_key(
            path@,
        ) && intended[path@] == mtu && !(reported.contains_key(path@) && reported[path@] == mtu)),
        c matches MtuChange::Restore { path } ==> (called_for(c, intended, reported) <==> reported.contains_key(path@)
            && !intended.contains_key(path@)),
{
}

/// A change touches its own path only: it gets the size, or has none any more.
pub proof fn changes_touch_their_own_path(state: Map<Seq<char>, u16>, c: MtuChange, other: Seq<char>)
    ensures
        c matches MtuChange::Apply { path, mtu } ==> changed(state, c).contains_key(path@) && changed(state, c)[path@]
            == mtu,
        c matches MtuChange::Restore { path } ==> !changed(state, c).contains_key(path@),
        other != change_path(c) ==> (changed(state, c).contains_key(other) <==> state.contains_key(other)) && changed(
            state,
            c,
        )[other] == state[other],
{
}

/// Changes are made one after another.
pub proof fn changes_follow_one_another(state: Map<Seq<char>, u16>, changes: Seq<MtuChange>, c: MtuChange)
    ensures
        changes.len() == 0 ==> all_changed(state, changes) == state,
        all_changed(state, changes.push(c)) == changed(all_changed(state, changes), c),
{
    assert(changes.push(c).drop_last() =~= changes);
}

/// A list of paths says of each path what its last entry says.
pub proof fn the_last_entry_of_a_path_counts(list: Seq<PathMtu>, i: int)
    requires
        0 <= i < list.len(),
        forall|k: int| i < k < list.len() ==> (#[trigger] list[k]).path@ != list[i].path@,
    ensures
        mtus(list).contains_key(list[i].path@),
        mtus(list)[list[i].path@] == list[i].mtu,
    decreases list.len(),
{
    let front = list.drop_last();
    if i < front.len() {
        assert(front[i] == list[i]);
        assert forall|k: int| i < k < front.len() implies (#[trigger] front[k]).path@ != front[i].path@ by {
            assert(front[k] == list[k]);
        }
        the_last_entry_of_a_path_counts(front, i);
        assert(list[list.len() - 1].path@ != list[i].path@);
    }
}

/// A list of paths says nothing of a path that it does not name.
pub proof fn unnamed_paths_have_no_size(list: Seq<PathMtu>, path: Seq<char>)
    requires
        forall|k: int| 0 <= k < list.len() ==> (#[trigger] list[k]).path@ != path,
    ensures
        !mtus(list).contains_key(path),
    decreases list.len(),
{
    if list.len() > 0 {
        let front = list.drop_last();
        assert forall|k: int| 0 <= k < front.len() implies (#[trigger] front[k]).path@ != path by {
            assert(front[k] == list[k]);
        }
        unnamed_paths_have_no_size(front, path);
        assert(list[list.len() - 1].path@ != path);
    }
}

} // verus!
