//! The health of a path, with hysteresis.
//!
//! A path is fed samples, each of which says whether it was reachable. Some bad
//! samples in a row degrade it and some good ones in a row recover it, so that
//! a short blip does not make its state flap.
use vstd::prelude::*;
use vstd::string::*;

use crate::text::{decimal_of, owned};

verus! {

/// The state of a path.
#[derive(Debug, Clone, Copy, PartialEq, Eq, Structural)]
pub enum PathState {
    /// The last samples were all good.
    Healthy,
    /// Bad samples came, but not enough of them yet.
    Degrading,
    /// Enough bad samples came in a row.
    Degraded,
    /// Good samples came after bad ones, but not enough of them yet.
    Recovering,
    /// There is no data.
    Unknown,
}

impl PathState {
    pub open spec fn text(self) -> Seq<char> {
        match self {
            PathState::Healthy => "healthy"@,
            PathState::Degrading => "degrading"@,
            PathState::Degraded => "degraded"@,
            PathState::Recovering => "recovering"@,
            PathState::Unknown => "unknown"@,
        }
    }

    pub fn as_str(&self) -> (r: &'static str)
        ensures
            r@ == self.text(),
    {
        match *self {
            PathState::Healthy => "healthy",
            PathState::Degrading => "degrading",
            PathState::Degraded => "degraded",
            PathState::Recovering => "recovering",
            PathState::Unknown => "unknown",
        }
    }
}

/// What is shown of a path.
#[derive(Debug)]
pub struct PathHealth {
    pub path: String,
    pub state: PathState,
    /// Why the path is in this state.
    pub reason: String,
    /// Recent samples, the oldest first.
    pub samples: Vec<bool>,
    /// How many samples are kept.
    pub window: usize,
    pub last_change_ts: u64,
}

/// How a path stands: its state, how many bad or good samples came last, and
/// whether it was degraded since it was last healthy.
pub struct Standing {
    pub state: PathState,
    pub bad: nat,
    pub good: nat,
    pub was_degraded: bool,
}

/// How many samples in a row degrade or recover a path.
pub struct Thresholds {
    pub degrade_after: nat,
    pub recover_after: nat,
}

/// How a path stands after one more sample.
pub open spec fn after_sample(s: Standing, t: Thresholds, ok: bool) -> Standing {
    let bad = if ok { 0 } else { s.bad + 1 };
    let good = if ok { s.good + 1 } else { 0 };
    let state = if ok {
        if good >= t.recover_after {
            PathState::Healthy
        } else if s.state == PathState::Unknown {
            PathState::Unknown
        } else {
            PathState::Recovering
        }
    } else if bad >= t.degrade_after || s.was_degraded {
        PathState::Degraded
    } else {
        PathState::Degrading
    };
    Standing {
        state,
        bad,
        good,
        was_degraded: state == PathState::Degraded || (s.was_degraded && state != PathState::Healthy),
    }
}

/// How a path stands after a run of samples.
pub open spec fn after_samples(s: Standing, t: Thresholds, samples: Seq<bool>) -> Standing
    decreases samples.len(),
{
    if samples.len() == 0 {
        s
    } else {
        after_sample(after_samples(s, t, samples.drop_last()), t, samples.last())
    }
}

/// What every standing keeps that samples lead to.
pub open spec fn consistent(s: Standing, t: Thresholds) -> bool {
    &&& t.degrade_after >= 1
    &&& t.recover_after >= 1
    &&& s.bad == 0 || s.good == 0
    &&& match s.state {
        PathState::Unknown => s.bad == 0 && s.good < t.recover_after && !s.was_degraded,
        PathState::Healthy => s.bad == 0 && s.good >= t.recover_after && !s.was_degraded,
        PathState::Degrading => s.good == 0 && 1 <= s.bad < t.degrade_after && !s.was_degraded,
        PathState::Degraded => s.good == 0 && 1 <= s.bad && s.was_degraded,
        PathState::Recovering => s.bad == 0 && 1 <= s.good < t.recover_after,
    }
}

/// The standing of a path that no sample came for.
pub open spec fn fresh_standing() -> Standing {
    Standing { state: PathState::Unknown, bad: 0, good: 0, was_degraded: false }
}

/// Every sample keeps a standing consistent.
pub proof fn samples_keep_consistency(s: Standing, t: Thresholds, ok: bool)
    requires
        consistent(s, t),
    ensures
        consistent(after_sample(s, t, ok), t),
{
}

/// The last samples of a sequence, as many as the window holds.
pub open spec fn kept(samples: Seq<bool>, window: usize) -> Seq<bool> {
    if samples.len() <= window { samples } else { samples.skip(samples.len() - window) }
}

/// Tracks the health of one path.
pub struct PathHealthTracker {
    path: String,
    degrade_after: usize,
    recover_after: usize,
    window: usize,
    samples: Vec<bool>,
    state: PathState,
    consecutive_bad: usize,
    consecutive_good: usize,
    /// Whether the path was degraded since it was last healthy.
    was_degraded: bool,
    last_change_ts: u64,
}

impl PathHealthTracker {
    pub closed spec fn standing(&self) -> Standing {
        Standing {
            state: self.state,
            bad: self.consecutive_bad as nat,
            good: self.consecutive_good as nat,
            was_degraded: self.was_degraded,
        }
    }

    pub closed spec fn thresholds(&self) -> Thresholds {
        Thresholds { degrade_after: self.degrade_after as nat, recover_after: self.recover_after as nat }
    }

    pub closed spec fn recent(&self) -> Seq<bool> {
        self.samples@
    }

    pub closed spec fn size(&self) -> usize {
        self.window
    }

    pub closed spec fn changed_at(&self) -> u64 {
        self.last_change_ts
    }

    pub closed spec fn subject(&self) -> Seq<char> {
        self.path@
    }

    /// Whether the tracker is in a state that samples lead to.
    pub open spec fn wf(&self) -> bool {
        &&& consistent(self.standing(), self.thresholds())
        &&& self.recent().len() <= self.size()
        &&& self.size() >= 1
    }

    /// A tracker without samples. It keeps at least one sample, and each
    /// threshold is at least one.
    pub fn new(path: &str, window: usize, degrade_after: usize, recover_after: usize, now: u64) -> (r: Self)
        ensures
            r.wf(),
            r.subject() == path@,
            r.standing() == fresh_standing(),
            r.thresholds() == (Thresholds {
                degrade_after: if degrade_after < 1 { 1 } else { degrade_after as nat },
                recover_after: if recover_after < 1 { 1 } else { recover_after as nat },
            }),
            r.size() == if window < 1 { 1 } else { window },
            r.recent() == Seq::<bool>::empty(),
            r.changed_at() == now,
    {
        PathHealthTracker {
            path: owned(path),
            degrade_after: if degrade_after < 1 { 1 } else { degrade_after },
            recover_after: if recover_after < 1 { 1 } else { recover_after },
            window: if window < 1 { 1 } else { window },
            samples: Vec::new(),
            state: PathState::Unknown,
            consecutive_bad: 0,
            consecutive_good: 0,
            was_degraded: false,
            last_change_ts: now,
        }
    }

    fn remember(&mut self, ok: bool)
        requires
            old(self).recent().len() <= old(self).size(),
            old(self).size() >= 1,
        ensures
            final(self).recent() == kept(old(self).recent().push(ok), old(self).size()),
            final(self).recent().len() <= final(self).size(),
            final(self).standing() == old(self).standing(),
            final(self).thresholds() == old(self).thresholds(),
            final(self).size() == old(self).size(),
            final(self).changed_at() == old(self).changed_at(),
            final(self).subject() == old(self).subject(),
    {
        if self.samples.len() == self.window {
            self.samples.remove(0);
        }
        self.samples.push(ok);
        assert(self.samples@ =~= kept(old(self).samples@.push(ok), self.window));
    }

    fn transition(&mut self, next: PathState, now: u64)
        ensures
            final(self).standing() == (Standing {
                state: next,
                was_degraded: next == PathState::Degraded || (old(self).standing().was_degraded && next
                    != PathState::Healthy),
                ..old(self).standing()
            }),
            final(self).changed_at() == if next == old(self).standing().state { old(self).changed_at() } else { now },
            final(self).thresholds() == old(self).thresholds(),
            final(self).recent() == old(self).recent(),
            final(self).size() == old(self).size(),
            final(self).subject() == old(self).subject(),
    {
        if self.state != next {
            self.state = next;
            self.last_change_ts = now;
        }
        self.was_degraded = next == PathState::Degraded || (self.was_degraded && next != PathState::Healthy);
    }

    /// Record one sample and advance the state. Returns the new state.
    ///
    /// The counts of samples in a row have to stay below the largest number
    /// there is.
    pub fn observe(&mut self, ok: bool, now: u64) -> (r: PathState)
        requires
            old(self).wf(),
            old(self).standing().bad < usize::MAX,
            old(self).standing().good < usize::MAX,
        ensures
            final(self).wf(),
            final(self).standing() == after_sample(old(self).standing(), old(self).thresholds(), ok),
            r == final(self).standing().state,
            final(self).recent() == kept(old(self).recent().push(ok), old(self).size()),
            final(self).changed_at() == if r == old(self).standing().state { old(self).changed_at() } else { now },
            final(self).thresholds() == old(self).thresholds(),
            final(self).size() == old(self).size(),
            final(self).subject() == old(self).subject(),
    {
        self.remember(ok);
        if ok {
            self.consecutive_good += 1;
            self.consecutive_bad = 0;
        } else {
            self.consecutive_good = 0;
            self.consecutive_bad += 1;
        }
        let next = if ok {
            if self.consecutive_good >= self.recover_after {
                PathState::Healthy
            } else if self.state == PathState::Unknown {
                PathState::Unknown
            } else {
                PathState::Recovering
            }
        } else if self.consecutive_bad >= self.degrade_after || self.was_degraded {
            PathState::Degraded
        } else {
            PathState::Degrading
        };
        self.transition(next, now);
        proof {
            samples_keep_consistency(old(self).standing(), old(self).thresholds(), ok);
        }
        self.state
    }

    /// The present state.
    pub fn state(&self) -> (r: PathState)
        ensures
            r == self.standing().state,
    {
        self.state
    }

    /// Why a path stands as it does, given how many samples are kept of it.
    pub open spec fn reason_text(s: Standing, recent: nat) -> Seq<char> {
        match s.state {
            PathState::Healthy => "probes passing"@,
            PathState::Degrading | PathState::Degraded => crate::text::decimal(s.bad) + "/"@ + crate::text::decimal(
                recent,
            ) + " recent probes failed"@,
            PathState::Recovering => "recovering after "@ + crate::text::decimal(s.bad) + " bad probe(s)"@,
            PathState::Unknown => "no data yet"@,
        }
    }

    /// What is shown of the path.
    pub fn report(&self) -> (r: PathHealth)
        ensures
            r.path@ == self.subject(),
            r.state == self.standing().state,
            r.reason@ == PathHealthTracker::reason_text(self.standing(), self.recent().len()),
            r.samples@ == self.recent(),
            r.window == self.size(),
            r.last_change_ts == self.changed_at(),
    {
        let reason = match self.state {
            PathState::Healthy => owned("probes passing"),
            PathState::Degrading | PathState::Degraded => {
                let mut s = decimal_of(self.consecutive_bad as u64);
                s.append("/");
                s.append(decimal_of(self.samples.len() as u64).as_str());
                s.append(" recent probes failed");
                s
            },
            PathState::Recovering => {
                let mut s = owned("recovering after ");
                s.append(decimal_of(self.consecutive_bad as u64).as_str());
                s.append(" bad probe(s)");
                s
            },
            PathState::Unknown => owned("no data yet"),
        };
        let mut samples: Vec<bool> = Vec::new();
        let mut i: usize = 0;
        while i < self.samples.len()
            invariant
                i <= self.samples@.len(),
                samples@ == self.samples@.take(i as int),
            decreases self.samples.len() - i,
        {
            samples.push(self.samples[i]);
            i += 1;
            assert(samples@ =~= self.samples@.take(i as int));
        }
        assert(samples@ =~= self.samples@);
        PathHealth {
            path: self.path.clone(),
            state: self.state,
            reason,
            samples,
            window: self.window,
            last_change_ts: self.last_change_ts,
        }
    }
}

/// `n` samples that all say the same.
pub open spec fn in_a_row(ok: bool, n: nat) -> Seq<bool> {
    Seq::new(n, |i: int| ok)
}

proof fn bad_run(s: Standing, t: Thresholds, n: nat)
    requires
        consistent(s, t),
        n >= 1,
    ensures
        consistent(after_samples(s, t, in_a_row(false, n)), t),
        after_samples(s, t, in_a_row(false, n)).bad == s.bad + n,
        after_samples(s, t, in_a_row(false, n)).state == PathState::Degraded || after_samples(
            s,
            t,
            in_a_row(false, n),
        ).state == PathState::Degrading,
    decreases n,
{
    let run = in_a_row(false, n);
    assert(run.drop_last() =~= in_a_row(false, (n - 1) as nat));
    if n == 1 {
        assert(after_samples(s, t, in_a_row(false, 0)) == s);
    } else {
        bad_run(s, t, (n - 1) as nat);
    }
}

/// As many bad samples in a row as the threshold says, or more, degrade a path,
/// however it stood.
pub proof fn bad_samples_degrade(s: Standing, t: Thresholds, n: nat)
    requires
        consistent(s, t),
        n >= t.degrade_after,
    ensures
        after_samples(s, t, in_a_row(false, n)).state == PathState::Degraded,
{
    bad_run(s, t, n);
}

/// A path that is not degraded, and was not since it was last healthy, does not
/// become so by fewer bad samples in a row than the threshold says.
pub proof fn short_blips_do_not_degrade(s: Standing, t: Thresholds, ok: bool)
    requires
        consistent(s, t),
        !s.was_degraded,
        after_sample(s, t, ok).state == PathState::Degraded,
    ensures
        !ok,
        after_sample(s, t, ok).bad >= t.degrade_after,
{
}

proof fn good_run(s: Standing, t: Thresholds, n: nat)
    requires
        consistent(s, t),
        n >= 1,
    ensures
        consistent(after_samples(s, t, in_a_row(true, n)), t),
        after_samples(s, t, in_a_row(true, n)).good == s.good + n,
        s.good + n >= t.recover_after ==> after_samples(s, t, in_a_row(true, n)).state == PathState::Healthy,
        after_samples(s, t, in_a_row(true, n)).state != PathState::Degraded,
        after_samples(s, t, in_a_row(true, n)).state != PathState::Degrading,
    decreases n,
{
    let run = in_a_row(true, n);
    assert(run.drop_last() =~= in_a_row(true, (n - 1) as nat));
    if n == 1 {
        assert(after_samples(s, t, in_a_row(true, 0)) == s);
    } else {
        good_run(s, t, (n - 1) as nat);
    }
}

/// As many good samples in a row as the threshold says, or more, recover a
/// path, however it stood.
pub proof fn good_samples_recover(s: Standing, t: Thresholds, n: nat)
    requires
        consistent(s, t),
        n >= t.recover_after,
    ensures
        after_samples(s, t, in_a_row(true, n)).state == PathState::Healthy,
{
    good_run(s, t, n);
}

/// A bad sample while a path recovers from being degraded degrades it again at
/// once.
pub proof fn recovery_snaps_back(s: Standing, t: Thresholds)
    requires
        s.state == PathState::Recovering,
        s.was_degraded,
    ensures
        after_sample(s, t, false).state == PathState::Degraded,
{
}

/// How the samples that came bear out how a path stands.
pub open spec fn borne_out(s: Standing, samples: Seq<bool>) -> bool {
    &&& s.good + s.bad <= samples.len()
    &&& forall|i: int| samples.len() - s.good <= i < samples.len() ==> #[trigger] samples[i]
    &&& forall|i: int| samples.len() - s.bad <= i < samples.len() ==> !#[trigger] samples[i]
    &&& s.state == PathState::Unknown ==> s.good == samples.len()
}

proof fn samples_bear_out(t: Thresholds, samples: Seq<bool>)
    requires
        t.degrade_after >= 1,
        t.recover_after >= 1,
    ensures
        consistent(after_samples(fresh_standing(), t, samples), t),
        borne_out(after_samples(fresh_standing(), t, samples), samples),
    decreases samples.len(),
{
    if samples.len() > 0 {
        let front = samples.drop_last();
        samples_bear_out(t, front);
        let s = after_samples(fresh_standing(), t, front);
        let r = after_samples(fresh_standing(), t, samples);
        samples_keep_consistency(s, t, samples.last());
        assert forall|i: int| samples.len() - r.good <= i < samples.len() implies #[trigger] samples[i] by {
            if i < front.len() {
                assert(front[i] == samples[i]);
            }
        }
        assert forall|i: int| samples.len() - r.bad <= i < samples.len() implies !#[trigger] samples[i] by {
            if i < front.len() {
                assert(front[i] == samples[i]);
            }
        }
    }
}

/// What a state says of the samples that led to it, from the first one on. After
/// a good sample a path is unknown, healthy or recovering, and after a bad one it
/// is none of these. A healthy path had as many good samples last as the
/// threshold says, and one that is unknown had no bad sample at all.
pub proof fn states_tell_of_the_samples(t: Thresholds, samples: Seq<bool>)
    requires
        t.degrade_after >= 1,
        t.recover_after >= 1,
        samples.len() > 0,
    ensures
        ({
            let state = after_samples(fresh_standing(), t, samples).state;
            &&& samples.last() <==> state == PathState::Unknown || state == PathState::Healthy || state
                == PathState::Recovering
            &&& state == PathState::Healthy ==> samples.len() >= t.recover_after && forall|i: int|
                samples.len() - t.recover_after <= i < samples.len() ==> #[trigger] samples[i]
            &&& state == PathState::Unknown ==> forall|i: int| 0 <= i < samples.len() ==> #[trigger] samples[i]
        }),
{
    samples_bear_out(t, samples);
}

/// The state of a path is what its latest sample led to, and unknown before the
/// first: looking at it is no sample.
pub proof fn the_state_is_the_latest_result(t: Thresholds, samples: Seq<bool>, ok: bool)
    ensures
        after_samples(fresh_standing(), t, Seq::empty()).state == PathState::Unknown,
        after_samples(fresh_standing(), t, samples.push(ok)) == after_sample(
            after_samples(fresh_standing(), t, samples),
            t,
            ok,
        ),
{
    assert(samples.push(ok).drop_last() =~= samples);
}

/// A sample that succeeds ends a row of failures and lengthens the row of
/// successes, and the other way round; the length of the row decides the state.
pub proof fn each_sample_moves_the_state(s: Standing, t: Thresholds)
    ensures
        ({
            let up = after_sample(s, t, true);
            &&& up.bad == 0
            &&& up.good == s.good + 1
            &&& up.good >= t.recover_after ==> up.state == PathState::Healthy && !up.was_degraded
            &&& up.good < t.recover_after && s.state == PathState::Unknown ==> up.state == PathState::Unknown
            &&& up.good < t.recover_after && s.state != PathState::Unknown ==> up.state == PathState::Recovering
            &&& up.good < t.recover_after ==> up.was_degraded == s.was_degraded
        }),
        ({
            let down = after_sample(s, t, false);
            &&& down.good == 0
            &&& down.bad == s.bad + 1
            &&& down.bad >= t.degrade_after ==> down.state == PathState::Degraded
            &&& s.was_degraded ==> down.state == PathState::Degraded
            &&& down.bad < t.degrade_after && !s.was_degraded ==> down.state == PathState::Degrading
            &&& down.was_degraded <==> down.state == PathState::Degraded
        }),
{
}

/// The latest samples are kept, as many as the window holds, in their order.
pub proof fn the_latest_samples_are_kept(samples: Seq<bool>, ok: bool, window: usize)
    requires
        window >= 1,
        samples.len() <= window,
    ensures
        kept(samples.push(ok), window).len() == if samples.len() < window { samples.len() + 1 } else { window as nat },
        kept(samples.push(ok), window).last() == ok,
        samples.len() < window ==> kept(samples.push(ok), window) == samples.push(ok),
        samples.len() == window ==> kept(samples.push(ok), window) == samples.skip(1).push(ok),
{
    if samples.len() == window {
        assert(samples.push(ok).skip(1) =~= samples.skip(1).push(ok));
    }
}

/// Samples are taken one after another.
pub proof fn samples_follow_one_another(s: Standing, t: Thresholds, samples: Seq<bool>, ok: bool)
    ensures
        samples.len() == 0 ==> after_samples(s, t, samples) == s,
        after_samples(s, t, samples.push(ok)) == after_sample(after_samples(s, t, samples), t, ok),
{
    assert(samples.push(ok).drop_last() =~= samples);
}

/// What is reported says how many probes failed in a row, of how many.
pub proof fn reasons_count_failures(s: Standing, recent: nat)
    ensures
        s.state == PathState::Healthy ==> PathHealthTracker::reason_text(s, recent) == "probes passing"@,
        s.state == PathState::Unknown ==> PathHealthTracker::reason_text(s, recent) == "no data yet"@,
        s.state == PathState::Degraded || s.state == PathState::Degrading ==> PathHealthTracker::reason_text(s, recent)
            == crate::text::decimal(s.bad) + "/"@ + crate::text::decimal(recent) + " recent probes failed"@,
        s.state == PathState::Recovering ==> PathHealthTracker::reason_text(s, recent) == "recovering after "@
            + crate::text::decimal(s.bad) + " bad probe(s)"@,
{
}

} // verus!
