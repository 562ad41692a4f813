//! The life of runtime drivers: a state machine for each driver, and a round
//! that brings all of them to what is desired.
//!
//! A round has two phases. First every candidate is built and started, and what
//! runs is left alone. Then the candidates that started take the place of what
//! ran before, and what is no longer desired is stopped, but only where no
//! candidate failed.
use vstd::prelude::*;

use crate::driver::map::DriverMap;
use crate::model::{DriverId, HealthStatus};
use crate::text::owned;

verus! {

/// The state of a driver.
#[derive(Debug, Clone, Copy, PartialEq, Eq, Structural)]
pub enum DriverLifecycleState {
    Absent,
    Initializing,
    Active,
    Replacing,
    Stopping,
    Degraded,
    Failed,
    Recovering,
}

/// Whether a driver may pass from one state to another.
pub open spec fn legal(from: DriverLifecycleState, to: DriverLifecycleState) -> bool {
    match from {
        DriverLifecycleState::Absent => to == DriverLifecycleState::Absent || to == DriverLifecycleState::Initializing
            || to == DriverLifecycleState::Failed || to == DriverLifecycleState::Active,
        DriverLifecycleState::Initializing => to == DriverLifecycleState::Active || to
            == DriverLifecycleState::Failed,
        DriverLifecycleState::Active => to != DriverLifecycleState::Initializing && to
            != DriverLifecycleState::Recovering,
        DriverLifecycleState::Replacing => to == DriverLifecycleState::Active || to == DriverLifecycleState::Failed,
        DriverLifecycleState::Stopping => to == DriverLifecycleState::Absent,
        DriverLifecycleState::Degraded => to == DriverLifecycleState::Degraded || to == DriverLifecycleState::Stopping
            || to == DriverLifecycleState::Absent || to == DriverLifecycleState::Recovering,
        DriverLifecycleState::Failed => to == DriverLifecycleState::Failed || to == DriverLifecycleState::Active || to
            == DriverLifecycleState::Stopping || to == DriverLifecycleState::Absent || to
            == DriverLifecycleState::Recovering,
        DriverLifecycleState::Recovering => to == DriverLifecycleState::Active || to == DriverLifecycleState::Failed,
    }
}

impl DriverLifecycleState {
    /// Whether there is a live mechanism in this state.
    pub fn has_handle(self) -> (r: bool)
        ensures
            r == (self == DriverLifecycleState::Initializing || self == DriverLifecycleState::Active || self
                == DriverLifecycleState::Replacing),
    {
        matches!(
            self,
            DriverLifecycleState::Initializing | DriverLifecycleState::Active | DriverLifecycleState::Replacing
        )
    }

    /// Whether a driver may pass from this state to another.
    pub fn transition(self, to: DriverLifecycleState) -> (r: bool)
        ensures
            r == legal(self, to),
    {
        match (self, to) {
            (DriverLifecycleState::Absent, DriverLifecycleState::Absent)
            | (DriverLifecycleState::Active, DriverLifecycleState::Active)
            | (DriverLifecycleState::Failed, DriverLifecycleState::Failed)
            | (DriverLifecycleState::Degraded, DriverLifecycleState::Degraded) => true,
            (DriverLifecycleState::Absent, DriverLifecycleState::Initializing)
            | (DriverLifecycleState::Absent, DriverLifecycleState::Failed)
            | (DriverLifecycleState::Initializing, DriverLifecycleState::Active)
            | (DriverLifecycleState::Initializing, DriverLifecycleState::Failed) => true,
            (DriverLifecycleState::Absent, DriverLifecycleState::Active)
            | (DriverLifecycleState::Failed, DriverLifecycleState::Active) => true,
            (DriverLifecycleState::Active, DriverLifecycleState::Replacing)
            | (DriverLifecycleState::Replacing, DriverLifecycleState::Active)
            | (DriverLifecycleState::Replacing, DriverLifecycleState::Failed) => true,
            (DriverLifecycleState::Active, DriverLifecycleState::Stopping)
            | (DriverLifecycleState::Degraded, DriverLifecycleState::Stopping)
            | (DriverLifecycleState::Failed, DriverLifecycleState::Stopping)
            | (DriverLifecycleState::Stopping, DriverLifecycleState::Absent) => true,
            (DriverLifecycleState::Active, DriverLifecycleState::Absent)
            | (DriverLifecycleState::Degraded, DriverLifecycleState::Absent)
            | (DriverLifecycleState::Failed, DriverLifecycleState::Absent) => true,
            (DriverLifecycleState::Active, DriverLifecycleState::Degraded)
            | (DriverLifecycleState::Active, DriverLifecycleState::Failed) => true,
            (DriverLifecycleState::Degraded, DriverLifecycleState::Recovering)
            | (DriverLifecycleState::Failed, DriverLifecycleState::Recovering) => true,
            (DriverLifecycleState::Recovering, DriverLifecycleState::Active)
            | (DriverLifecycleState::Recovering, DriverLifecycleState::Failed) => true,
            _ => false,
        }
    }
}

/// What became of a driver in a round.
#[derive(Debug)]
pub enum DriverOutcome {
    Added,
    Changed,
    Unchanged,
    Removed,
    Retrying,
    Failed { reason: String },
}

/// What became of a driver in a round.
pub enum Outcome {
    Added,
    Changed,
    Unchanged,
    Removed,
    Retrying,
    Failed(Seq<char>),
}

impl View for DriverOutcome {
    type V = Outcome;

    open spec fn view(&self) -> Outcome {
        match *self {
            DriverOutcome::Added => Outcome::Added,
            DriverOutcome::Changed => Outcome::Changed,
            DriverOutcome::Unchanged => Outcome::Unchanged,
            DriverOutcome::Removed => Outcome::Removed,
            DriverOutcome::Retrying => Outcome::Retrying,
            DriverOutcome::Failed { reason } => Outcome::Failed(reason@),
        }
    }
}

/// A step in the life of a driver.
#[derive(Debug)]
pub struct DriverLifecycleEvent {
    pub driver: DriverId,
    pub from: DriverLifecycleState,
    pub to: DriverLifecycleState,
    pub outcome: DriverOutcome,
}

/// A step in the life of a driver.
pub struct Notice {
    pub driver: DriverId,
    pub from: DriverLifecycleState,
    pub to: DriverLifecycleState,
    pub outcome: Outcome,
}

impl View for DriverLifecycleEvent {
    type V = Notice;

    open spec fn view(&self) -> Notice {
        Notice { driver: self.driver, from: self.from, to: self.to, outcome: self.outcome@ }
    }
}

pub open spec fn notices(v: Seq<DriverLifecycleEvent>) -> Seq<Notice> {
    Seq::new(v.len(), |i: int| v[i]@)
}

/// What is wanted of a driver.
#[derive(Debug, Clone, Copy, PartialEq, Eq, Structural)]
pub enum DriverAction {
    Start,
    Stop,
    Restart,
    Status,
}

/// What is wanted of one driver in a round.
#[derive(Debug, Clone, Copy, PartialEq, Eq, Structural)]
pub struct DriverIntent {
    pub id: DriverId,
    pub action: DriverAction,
    /// A fingerprint of the configuration. A start with another fingerprint is
    /// a replacement.
    pub fingerprint: u64,
}

impl DriverIntent {
    pub fn start(id: DriverId, fingerprint: u64) -> (r: Self)
        ensures
            r == (DriverIntent { id, action: DriverAction::Start, fingerprint }),
    {
        DriverIntent { id, action: DriverAction::Start, fingerprint }
    }

    pub fn stop(id: DriverId) -> (r: Self)
        ensures
            r == (DriverIntent { id, action: DriverAction::Stop, fingerprint: 0 }),
    {
        DriverIntent { id, action: DriverAction::Stop, fingerprint: 0 }
    }
}

/// What is known of one driver. A driver that failed stays known, without a
/// live mechanism, so that it can be tried again.
#[derive(Debug, Clone, Copy, PartialEq, Eq, Structural)]
pub struct DriverRuntime {
    pub state: DriverLifecycleState,
    /// Whether a mechanism was started and not stopped since.
    pub live: bool,
    pub fingerprint: u64,
}

pub open spec fn live_runtime(fingerprint: u64) -> DriverRuntime {
    DriverRuntime { state: DriverLifecycleState::Active, live: true, fingerprint }
}

pub open spec fn failed_runtime(fingerprint: u64) -> DriverRuntime {
    DriverRuntime { state: DriverLifecycleState::Failed, live: false, fingerprint }
}

/// The drivers that are known, in the order in which they first came.
#[verifier::ext_equal]
pub struct Book {
    pub order: Seq<DriverId>,
    pub drivers: Map<DriverId, DriverRuntime>,
}

impl Book {
    pub open spec fn state(self, id: DriverId) -> DriverLifecycleState {
        if self.drivers.contains_key(id) { self.drivers[id].state } else { DriverLifecycleState::Absent }
    }

    pub open spec fn put(self, id: DriverId, runtime: DriverRuntime) -> Book {
        Book {
            order: if self.drivers.contains_key(id) { self.order } else { self.order.push(id) },
            drivers: self.drivers.insert(id, runtime),
        }
    }

    /// Whether the order lists each known driver once, and every driver is in a
    /// state that is kept between rounds.
    pub open spec fn sound(self) -> bool {
        &&& self.order.no_duplicates()
        &&& forall|id: DriverId| self.order.contains(id) <==> #[trigger] self.drivers.contains_key(id)
        &&& forall|id: DriverId| #[trigger] self.drivers.contains_key(id) ==> self.state(id)
            == DriverLifecycleState::Active || self.state(id) == DriverLifecycleState::Degraded || self.state(id)
            == DriverLifecycleState::Failed
    }
}

/// A candidate that was built and started.
#[derive(Debug, Clone, Copy, PartialEq, Eq, Structural)]
pub struct Staged {
    pub fingerprint: u64,
    /// Whether an active driver is replaced.
    pub replacing: bool,
}

/// How far a round has come.
#[verifier::ext_equal]
pub struct Progress {
    pub book: Book,
    pub events: Seq<Notice>,
    pub staged: Seq<DriverId>,
    pub plans: Map<DriverId, Staged>,
    pub failed: bool,
}

/// Whether an intent leaves everything as it is: the driver is active with the
/// same configuration and is not to be restarted.
pub open spec fn leaves_alone(book: Book, intent: DriverIntent) -> bool {
    &&& intent.action != DriverAction::Restart
    &&& book.state(intent.id) == DriverLifecycleState::Active
    &&& book.drivers[intent.id].fingerprint == intent.fingerprint
}

/// Whether an intent asks for a candidate to be built and started.
pub open spec fn asks_for_start(book: Book, intent: DriverIntent) -> bool {
    &&& intent.action != DriverAction::Stop
    &&& intent.action != DriverAction::Status
    &&& !leaves_alone(book, intent)
}

pub open spec fn failure_text() -> Seq<char> {
    "candidate failed to start"@
}

/// A round after one more intent, given whether its candidate started.
pub open spec fn stage_one(p: Progress, intent: DriverIntent, started: bool) -> Progress {
    let id = intent.id;
    let current = p.book.state(id);
    let replacing = current == DriverLifecycleState::Active;
    if intent.action == DriverAction::Stop {
        p
    } else if !asks_for_start(p.book, intent) {
        Progress {
            events: p.events.push(Notice { driver: id, from: current, to: current, outcome: Outcome::Unchanged }),
            ..p
        }
    } else if started {
        Progress {
            staged: if p.plans.contains_key(id) { p.staged } else { p.staged.push(id) },
            plans: p.plans.insert(id, Staged { fingerprint: intent.fingerprint, replacing }),
            ..p
        }
    } else if replacing {
        Progress {
            events: p.events.push(
                Notice { driver: id, from: current, to: current, outcome: Outcome::Failed(failure_text()) },
            ),
            failed: true,
            ..p
        }
    } else if !p.book.drivers.contains_key(id) {
        Progress {
            book: p.book.put(id, failed_runtime(intent.fingerprint)),
            events: p.events.push(
                Notice {
                    driver: id,
                    from: DriverLifecycleState::Initializing,
                    to: DriverLifecycleState::Failed,
                    outcome: Outcome::Failed(failure_text()),
                },
            ),
            failed: true,
            ..p
        }
    } else {
        Progress { failed: true, ..p }
    }
}

/// A round in which nothing was done yet.
pub open spec fn opened(book: Book) -> Progress {
    Progress { book, events: Seq::empty(), staged: Seq::empty(), plans: Map::empty(), failed: false }
}

/// A round after some intents, in order.
pub open spec fn stage_all(book: Book, intents: Seq<DriverIntent>, started: Seq<bool>) -> Progress
    decreases intents.len(),
{
    if intents.len() == 0 {
        opened(book)
    } else {
        stage_one(
            stage_all(book, intents.drop_last(), started),
            intents.last(),
            started[intents.len() - 1],
        )
    }
}

/// The drivers that intents want to be there.
pub open spec fn wanted_by(intents: Seq<DriverIntent>) -> Seq<DriverId>
    decreases intents.len(),
{
    if intents.len() == 0 {
        Seq::empty()
    } else if intents.last().action == DriverAction::Stop {
        wanted_by(intents.drop_last())
    } else {
        wanted_by(intents.drop_last()).push(intents.last().id)
    }
}

/// What is known after candidates took their places.
pub open spec fn swapped_in(book: Book, ids: Seq<DriverId>, plans: Map<DriverId, Staged>) -> Book
    decreases ids.len(),
{
    if ids.len() == 0 {
        book
    } else {
        swapped_in(book, ids.drop_last(), plans).put(ids.last(), live_runtime(plans[ids.last()].fingerprint))
    }
}

/// The state from which a driver becomes active: one that was degraded recovers
/// first.
pub open spec fn taken_from(state: DriverLifecycleState) -> DriverLifecycleState {
    if state == DriverLifecycleState::Degraded { DriverLifecycleState::Recovering } else { state }
}

/// What is said of candidates that took their places.
pub open spec fn swap_notices(book: Book, ids: Seq<DriverId>, plans: Map<DriverId, Staged>) -> Seq<Notice>
    decreases ids.len(),
{
    if ids.len() == 0 {
        Seq::empty()
    } else {
        let id = ids.last();
        swap_notices(book, ids.drop_last(), plans).push(
            Notice {
                driver: id,
                from: taken_from(swapped_in(book, ids.drop_last(), plans).state(id)),
                to: DriverLifecycleState::Active,
                outcome: if plans[id].replacing { Outcome::Changed } else { Outcome::Added },
            },
        )
    }
}

/// The drivers of a list that are wanted.
pub open spec fn kept_of(ids: Seq<DriverId>, wanted: Seq<DriverId>) -> Seq<DriverId>
    decreases ids.len(),
{
    if ids.len() == 0 {
        ids
    } else if wanted.contains(ids.last()) {
        kept_of(ids.drop_last(), wanted).push(ids.last())
    } else {
        kept_of(ids.drop_last(), wanted)
    }
}

/// What is said of the drivers of a list that are not wanted.
pub open spec fn removal_notices(book: Book, ids: Seq<DriverId>, wanted: Seq<DriverId>) -> Seq<Notice>
    decreases ids.len(),
{
    if ids.len() == 0 {
        Seq::empty()
    } else if wanted.contains(ids.last()) {
        removal_notices(book, ids.drop_last(), wanted)
    } else {
        removal_notices(book, ids.drop_last(), wanted).push(
            Notice {
                driver: ids.last(),
                from: book.state(ids.last()),
                to: DriverLifecycleState::Absent,
                outcome: Outcome::Removed,
            },
        )
    }
}

/// The drivers of a list that are not wanted and have a live mechanism.
pub open spec fn to_stop_of(book: Book, ids: Seq<DriverId>, wanted: Seq<DriverId>) -> Seq<DriverId>
    decreases ids.len(),
{
    if ids.len() == 0 {
        ids
    } else if !wanted.contains(ids.last()) && book.drivers[ids.last()].live {
        to_stop_of(book, ids.drop_last(), wanted).push(ids.last())
    } else {
        to_stop_of(book, ids.drop_last(), wanted)
    }
}

/// What is known of the drivers that are wanted.
pub open spec fn cleared(book: Book, wanted: Seq<DriverId>) -> Book {
    Book {
        order: kept_of(book.order, wanted),
        drivers: Map::new(
            |id: DriverId| book.drivers.contains_key(id) && wanted.contains(id),
            |id: DriverId| book.drivers[id],
        ),
    }
}

/// What a round leaves behind.
#[verifier::ext_equal]
pub struct Settled {
    pub book: Book,
    pub events: Seq<Notice>,
    /// The drivers whose mechanisms have to be stopped.
    pub stop: Seq<DriverId>,
}

/// The end of a round: candidates take their places, and where none failed what
/// is not wanted goes.
pub open spec fn settled(p: Progress, wanted: Seq<DriverId>) -> Settled {
    let book = swapped_in(p.book, p.staged, p.plans);
    let events = p.events + swap_notices(p.book, p.staged, p.plans);
    if p.failed {
        Settled { book, events, stop: Seq::empty() }
    } else {
        Settled {
            book: cleared(book, wanted),
            events: events + removal_notices(book, book.order, wanted),
            stop: to_stop_of(book, book.order, wanted),
        }
    }
}

/// A whole round, given which candidates started.
pub open spec fn reconciled(book: Book, intents: Seq<DriverIntent>, started: Seq<bool>) -> Settled {
    settled(stage_all(book, intents, started), wanted_by(intents))
}

/// A round that is under way.
pub struct Round {
    pub events: Vec<DriverLifecycleEvent>,
    pub staged: DriverMap<Staged>,
    pub failed: bool,
    pub wanted: Vec<DriverId>,
}

/// What is known of drivers, and how it follows what is desired.
pub struct DriverLifecycleManager {
    registry: DriverMap<DriverRuntime>,
}

fn has_driver(v: &Vec<DriverId>, id: DriverId) -> (r: bool)
    ensures
        r == v@.contains(id),
{
    let mut i: usize = 0;
    while i < v.len()
        invariant
            i <= v@.len(),
            forall|k: int| 0 <= k < i ==> v@[k] != id,
        decreases v.len() - i,
    {
        if v[i] == id {
            return true;
        }
        i += 1;
    }
    false
}

fn push_event(
    events: &mut Vec<DriverLifecycleEvent>,
    driver: DriverId,
    from: DriverLifecycleState,
    to: DriverLifecycleState,
    outcome: DriverOutcome,
)
    ensures
        notices(final(events)@) == notices(old(events)@).push(Notice { driver, from, to, outcome: outcome@ }),
{
    events.push(DriverLifecycleEvent { driver, from, to, outcome });
    assert(notices(events@) =~= notices(old(events)@).push(Notice { driver, from, to, outcome: outcome@ }));
}

impl DriverLifecycleManager {
    /// What is known of drivers.
    pub closed spec fn book(&self) -> Book {
        Book { order: self.registry.keys(), drivers: self.registry@ }
    }

    /// How far a round with this manager has come.
    pub open spec fn progress(&self, round: Round) -> Progress {
        Progress {
            book: self.book(),
            events: notices(round.events@),
            staged: round.staged.keys(),
            plans: round.staged@,
            failed: round.failed,
        }
    }

    /// A manager that knows no driver.
    pub fn new() -> (r: Self)
        ensures
            r.book() == (Book { order: Seq::empty(), drivers: Map::empty() }),
            r.book().sound(),
    {
        DriverLifecycleManager { registry: DriverMap::new() }
    }

    /// The state of a driver; absent where it is not known.
    pub fn state(&self, id: DriverId) -> (r: DriverLifecycleState)
        ensures
            r == self.book().state(id),
    {
        match self.registry.get(id) {
            Some(runtime) => runtime.state,
            None => DriverLifecycleState::Absent,
        }
    }

    /// Every known driver with its state and fingerprint.
    pub fn snapshot(&self) -> (r: Vec<(DriverId, DriverLifecycleState, u64)>)
        ensures
            r@.len() == self.book().order.len(),
            forall|i: int| 0 <= i < r@.len() ==> {
                let id = self.book().order[i];
                #[trigger] r@[i] == (id, self.book().drivers[id].state, self.book().drivers[id].fingerprint)
            },
            self.book().order.no_duplicates(),
            forall|id: DriverId| self.book().order.contains(id) <==> #[trigger] self.book().drivers.contains_key(id),
    {
        let mut out: Vec<(DriverId, DriverLifecycleState, u64)> = Vec::new();
        let n = self.registry.len();
        let mut i: usize = 0;
        while i < n
            invariant
                i <= n,
                n == self.book().order.len(),
                out@.len() == i,
                forall|k: int| 0 <= k < i ==> {
                    let id = self.book().order[k];
                    #[trigger] out@[k] == (id, self.book().drivers[id].state, self.book().drivers[id].fingerprint)
                },
            decreases n - i,
        {
            let (id, runtime) = self.registry.entry(i);
            out.push((id, runtime.state, runtime.fingerprint));
            i += 1;
        }
        out
    }

    /// Open a round.
    pub fn begin(&self, intents: &Vec<DriverIntent>) -> (r: Round)
        ensures
            self.progress(r) == opened(self.book()),
            r.wanted@ == wanted_by(intents@),
    {
        let mut wanted: Vec<DriverId> = Vec::new();
        let mut i: usize = 0;
        assert(intents@.take(0) =~= Seq::<DriverIntent>::empty());
        while i < intents.len()
            invariant
                i <= intents@.len(),
                wanted@ == wanted_by(intents@.take(i as int)),
            decreases intents.len() - i,
        {
            assert(intents@.take(i as int + 1).drop_last() =~= intents@.take(i as int));
            if intents[i].action != DriverAction::Stop {
                wanted.push(intents[i].id);
            }
            i += 1;
        }
        assert(intents@.take(i as int) =~= intents@);
        let round = Round { events: Vec::new(), staged: DriverMap::new(), failed: false, wanted };
        assert(notices(round.events@) =~= Seq::<Notice>::empty());
        round
    }

    /// Whether an intent asks for a candidate to be built and started.
    pub fn needs_start(&self, intent: &DriverIntent) -> (r: bool)
        ensures
            r == asks_for_start(self.book(), *intent),
            intent.action == DriverAction::Restart ==> r,
    {
        if intent.action == DriverAction::Stop || intent.action == DriverAction::Status {
            return false;
        }
        let unchanged = match self.registry.get(intent.id) {
            Some(runtime) => intent.action != DriverAction::Restart && runtime.state == DriverLifecycleState::Active
                && runtime.fingerprint == intent.fingerprint,
            None => false,
        };
        !unchanged
    }

    /// Take one more intent into a round, given whether its candidate started.
    pub fn stage(&mut self, round: &mut Round, intent: &DriverIntent, started: bool)
        ensures
            final(self).progress(*final(round)) == stage_one(old(self).progress(*old(round)), *intent, started),
            final(round).wanted == old(round).wanted,
    {
        if intent.action == DriverAction::Stop {
            return;
        }
        let id = intent.id;
        let current = self.state(id);
        if !self.needs_start(intent) {
            push_event(&mut round.events, id, current, current, DriverOutcome::Unchanged);
            return;
        }
        let replacing = current == DriverLifecycleState::Active;
        if started {
            round.staged.insert(id, Staged { fingerprint: intent.fingerprint, replacing });
            return;
        }
        round.failed = true;
        self.fail_stage(&mut round.events, id, current, replacing, intent.fingerprint);
    }

    /// A candidate failed. What ran before stays; a driver that was not known
    /// becomes known as failed.
    fn fail_stage(
        &mut self,
        events: &mut Vec<DriverLifecycleEvent>,
        id: DriverId,
        current: DriverLifecycleState,
        replacing: bool,
        fingerprint: u64,
    )
        ensures
            replacing ==> final(self).book() == old(self).book() && notices(final(events)@) == notices(
                old(events)@,
            ).push(Notice { driver: id, from: current, to: current, outcome: Outcome::Failed(failure_text()) }),
            !replacing && !old(self).book().drivers.contains_key(id) ==> final(self).book() == old(self).book().put(
                id,
                failed_runtime(fingerprint),
            ) && notices(final(events)@) == notices(old(events)@).push(
                Notice {
                    driver: id,
                    from: DriverLifecycleState::Initializing,
                    to: DriverLifecycleState::Failed,
                    outcome: Outcome::Failed(failure_text()),
                },
            ),
            !replacing && old(self).book().drivers.contains_key(id) ==> final(self).book() == old(self).book()
                && final(events)@ == old(events)@,
    {
        if replacing {
            let reason = owned("candidate failed to start");
            push_event(events, id, current, current, DriverOutcome::Failed { reason });
            return;
        }
        if !self.registry.contains_key(id) {
            self.registry.insert(id, DriverRuntime { state: DriverLifecycleState::Failed, live: false, fingerprint });
            let reason = owned("candidate failed to start");
            push_event(
                events,
                id,
                DriverLifecycleState::Initializing,
                DriverLifecycleState::Failed,
                DriverOutcome::Failed { reason },
            );
        }
    }

    /// End a round: candidates take their places, and where none failed what is
    /// not wanted goes. The drivers in the second result have to be stopped.
    pub fn commit(&mut self, round: Round) -> (r: (Vec<DriverLifecycleEvent>, Vec<DriverId>))
        ensures
            (Settled { book: final(self).book(), events: notices(r.0@), stop: r.1@ }) == settled(
                old(self).progress(round),
                round.wanted@,
            ),
    {
        let ghost p = self.progress(round);
        let mut events = round.events;
        let n = round.staged.len();
        let mut i: usize = 0;
        assert(p.staged.take(0) =~= Seq::<DriverId>::empty());
        assert(notices(events@) =~= p.events + swap_notices(p.book, p.staged.take(0), p.plans));
        while i < n
            invariant
                i <= n,
                n == p.staged.len(),
                p.staged == round.staged.keys(),
                p.plans == round.staged@,
                self.book() == swapped_in(p.book, p.staged.take(i as int), p.plans),
                notices(events@) == p.events + swap_notices(p.book, p.staged.take(i as int), p.plans),
            decreases n - i,
        {
            let (id, plan) = round.staged.entry(i);
            let ghost ids = p.staged.take(i as int + 1);
            assert(ids.drop_last() =~= p.staged.take(i as int));
            let from = match self.state(id) {
                DriverLifecycleState::Degraded => DriverLifecycleState::Recovering,
                state => state,
            };
            self.registry.insert(
                id,
                DriverRuntime { state: DriverLifecycleState::Active, live: true, fingerprint: plan.fingerprint },
            );
            let outcome = if plan.replacing {
                DriverOutcome::Changed
            } else {
                DriverOutcome::Added
            };
            push_event(&mut events, id, from, DriverLifecycleState::Active, outcome);
            assert(notices(events@) =~= p.events + swap_notices(p.book, ids, p.plans));
            i += 1;
        }
        assert(p.staged.take(i as int) =~= p.staged);
        if round.failed {
            return (events, Vec::new());
        }
        let ghost book = self.book();
        let stop = self.remove_unwanted(&mut events, &round.wanted);
        assert(notices(events@) =~= p.events + swap_notices(p.book, p.staged, p.plans) + removal_notices(
            book,
            book.order,
            round.wanted@,
        ));
        (events, stop)
    }

    fn remove_unwanted(&mut self, events: &mut Vec<DriverLifecycleEvent>, wanted: &Vec<DriverId>) -> (r: Vec<DriverId>)
        ensures
            final(self).book() == cleared(old(self).book(), wanted@),
            notices(final(events)@) == notices(old(events)@) + removal_notices(
                old(self).book(),
                old(self).book().order,
                wanted@,
            ),
            r@ == to_stop_of(old(self).book(), old(self).book().order, wanted@),
    {
        let ghost book = self.book();
        let ghost before = notices(events@);
        let mut kept: DriverMap<DriverRuntime> = DriverMap::new();
        let mut stop: Vec<DriverId> = Vec::new();
        let n = self.registry.len();
        let mut i: usize = 0;
        assert(book.order.take(0) =~= Seq::<DriverId>::empty());
        assert(notices(events@) =~= before + removal_notices(book, book.order.take(0), wanted@));
        while i < n
            invariant
                i <= n,
                n == book.order.len(),
                self.book() == book,
                book.order.no_duplicates(),
                kept.keys() == kept_of(book.order.take(i as int), wanted@),
                forall|id: DriverId| #[trigger] kept@.contains_key(id) <==> book.order.take(i as int).contains(id)
                    && wanted@.contains(id),
                forall|id: DriverId| #[trigger] kept@.contains_key(id) ==> kept@[id] == book.drivers[id],
                notices(events@) == before + removal_notices(book, book.order.take(i as int), wanted@),
                stop@ == to_stop_of(book, book.order.take(i as int), wanted@),
            decreases n - i,
        {
            let (id, runtime) = self.registry.entry(i);
            let ghost ids = book.order.take(i as int);
            proof {
                assert(book.order.take(i as int + 1) =~= ids.push(id));
                assert(ids.push(id).drop_last() =~= ids);
                assert forall|k: DriverId| #[trigger] ids.push(id).contains(k) <==> ids.contains(k) || k == id by {
                    crate::seqs::contains_after_push(ids, id, k);
                }
                if ids.contains(id) {
                    assert(book.order[ids.index_of(id)] == book.order[i as int]);
                }
            }
            if has_driver(wanted, id) {
                kept.insert(id, *runtime);
            } else {
                if runtime.live {
                    stop.push(id);
                }
                push_event(
                    events,
                    id,
                    runtime.state,
                    DriverLifecycleState::Absent,
                    DriverOutcome::Removed,
                );
                assert(notices(events@) =~= before + removal_notices(book, ids.push(id), wanted@));
            }
            i += 1;
        }
        proof {
            assert(book.order.take(i as int) =~= book.order);
            assert(kept@ =~= cleared(book, wanted@).drivers);
        }
        self.registry = kept;
        stop
    }

    /// A whole round, given which candidates started.
    pub fn reconcile(&mut self, intents: &Vec<DriverIntent>, started: &Vec<bool>) -> (r: (
        Vec<DriverLifecycleEvent>,
        Vec<DriverId>,
    ))
        requires
            started@.len() == intents@.len(),
        ensures
            (Settled { book: final(self).book(), events: notices(r.0@), stop: r.1@ }) == reconciled(
                old(self).book(),
                intents@,
                started@,
            ),
            old(self).book().sound() ==> final(self).book().sound() && forall|i: int|
                0 <= i < r.0@.len() ==> legal((#[trigger] r.0@[i]).from, r.0@[i].to),
    {
        let ghost book = self.book();
        let mut round = self.begin(intents);
        let mut i: usize = 0;
        assert(intents@.take(0) =~= Seq::<DriverIntent>::empty());
        while i < intents.len()
            invariant
                i <= intents@.len(),
                started@.len() == intents@.len(),
                round.wanted@ == wanted_by(intents@),
                self.progress(round) == stage_all(book, intents@.take(i as int), started@),
            decreases intents.len() - i,
        {
            assert(intents@.take(i as int + 1).drop_last() =~= intents@.take(i as int));
            self.stage(&mut round, &intents[i], started[i]);
            i += 1;
        }
        assert(intents@.take(i as int) =~= intents@);
        let r = self.commit(round);
        proof {
            if book.sound() {
                rounds_keep_soundness(book, intents@, started@);
                rounds_take_lawful_steps(book, intents@, started@);
                assert forall|k: int| 0 <= k < r.0@.len() implies legal((#[trigger] r.0@[k]).from, r.0@[k].to) by {
                    assert(lawful(reconciled(book, intents@, started@).events[k]));
                    assert(notices(r.0@)[k] == r.0@[k]@);
                }
            }
        }
        r
    }

    /// Take a health report into account. A driver that is degraded or
    /// unhealthy stays known.
    pub fn report_health(&mut self, id: DriverId, health: HealthStatus)
        ensures
            final(self).book() == after_report(old(self).book(), id, health),
            old(self).book().sound() ==> final(self).book().sound(),
    {
        proof {
            if self.book().sound() {
                reports_and_recovery_keep_soundness(self.book(), id, health, id);
            }
        }
        let found: Option<DriverRuntime> = match self.registry.get(id) {
            Some(runtime) => Some(*runtime),
            None => None,
        };
        if let Some(runtime) = found {
            if runtime.state == DriverLifecycleState::Active {
                let next = match health {
                    HealthStatus::Degraded { .. } => DriverLifecycleState::Degraded,
                    HealthStatus::Unhealthy { .. } => DriverLifecycleState::Failed,
                    _ => DriverLifecycleState::Active,
                };
                self.registry.insert(
                    id,
                    DriverRuntime { state: next, live: runtime.live, fingerprint: runtime.fingerprint },
                );
                assert(self.registry@ =~= after_report(old(self).book(), id, health).drivers);
            }
        }
    }

    /// The fingerprint to build a driver from that is to recover, where it is
    /// one that can.
    pub fn recovery(&self, id: DriverId) -> (r: Option<u64>)
        ensures
            r == recovery_of(self.book(), id),
    {
        match self.registry.get(id) {
            Some(runtime) => match runtime.state {
                DriverLifecycleState::Degraded | DriverLifecycleState::Failed => Some(runtime.fingerprint),
                _ => None,
            },
            None => None,
        }
    }

    /// Try to bring a driver back, given whether its candidate started. Without
    /// a candidate that started everything stays as it is.
    pub fn recover(&mut self, id: DriverId, started: bool) -> (r: bool)
        ensures
            r == (started && recovery_of(old(self).book(), id) is Some),
            final(self).book() == if r {
                old(self).book().put(id, live_runtime(old(self).book().drivers[id].fingerprint))
            } else {
                old(self).book()
            },
            old(self).book().sound() ==> final(self).book().sound(),
    {
        proof {
            if self.book().sound() {
                reports_and_recovery_keep_soundness(self.book(), id, HealthStatus::Unknown, id);
            }
        }
        match self.recovery(id) {
            Some(fingerprint) => {
                if started {
                    self.registry.insert(
                        id,
                        DriverRuntime { state: DriverLifecycleState::Active, live: true, fingerprint },
                    );
                }
                started
            },
            None => false,
        }
    }
}

/// What is known after a health report.
pub open spec fn after_report(book: Book, id: DriverId, health: HealthStatus) -> Book {
    if book.state(id) != DriverLifecycleState::Active {
        book
    } else {
        match health {
            HealthStatus::Degraded { .. } => book.put(
                id,
                DriverRuntime { state: DriverLifecycleState::Degraded, ..book.drivers[id] },
            ),
            HealthStatus::Unhealthy { .. } => book.put(
                id,
                DriverRuntime { state: DriverLifecycleState::Failed, ..book.drivers[id] },
            ),
            _ => book,
        }
    }
}

/// The fingerprint to build a driver from that is to recover.
pub open spec fn recovery_of(book: Book, id: DriverId) -> Option<u64> {
    if book.state(id) == DriverLifecycleState::Degraded || book.state(id) == DriverLifecycleState::Failed {
        Some(book.drivers[id].fingerprint)
    } else {
        None
    }
}

proof fn staging_keeps(book: Book, intents: Seq<DriverIntent>, started: Seq<bool>, id: DriverId)
    requires
        book.drivers.contains_key(id),
    ensures
        stage_all(book, intents, started).book.drivers.contains_key(id),
        stage_all(book, intents, started).book.drivers[id] == book.drivers[id],
    decreases intents.len(),
{
    if intents.len() > 0 {
        staging_keeps(book, intents.drop_last(), started, id);
    }
}

proof fn staging_keeps_soundness(book: Book, intents: Seq<DriverIntent>, started: Seq<bool>)
    requires
        book.sound(),
    ensures
        stage_all(book, intents, started).book.sound(),
    decreases intents.len(),
{
    if intents.len() > 0 {
        staging_keeps_soundness(book, intents.drop_last(), started);
        let b = stage_all(book, intents.drop_last(), started).book;
        putting_keeps_soundness(b, intents.last().id, failed_runtime(intents.last().fingerprint));
    }
}

proof fn putting_keeps_soundness(book: Book, id: DriverId, runtime: DriverRuntime)
    requires
        book.sound(),
        runtime.state == DriverLifecycleState::Active || runtime.state == DriverLifecycleState::Degraded
            || runtime.state == DriverLifecycleState::Failed,
    ensures
        book.put(id, runtime).sound(),
{
    let after = book.put(id, runtime);
    assert forall|k: DriverId| after.order.contains(k) <==> #[trigger] after.drivers.contains_key(k) by {
        crate::seqs::contains_after_push(book.order, id, k);
        assert(book.order.contains(k) <==> book.drivers.contains_key(k));
    }
    assert forall|k: DriverId| #[trigger] after.drivers.contains_key(k) implies after.state(k)
        == DriverLifecycleState::Active || after.state(k) == DriverLifecycleState::Degraded || after.state(k)
        == DriverLifecycleState::Failed by {
        if k != id {
            assert(book.drivers.contains_key(k));
        }
    }
}

proof fn swapping_keeps(book: Book, ids: Seq<DriverId>, plans: Map<DriverId, Staged>, id: DriverId)
    ensures
        book.drivers.contains_key(id) ==> swapped_in(book, ids, plans).drivers.contains_key(id),
        book.drivers.contains_key(id) && !ids.contains(id) ==> swapped_in(book, ids, plans).drivers[id]
            == book.drivers[id],
        ids.contains(id) ==> swapped_in(book, ids, plans).drivers.contains_key(id) && swapped_in(
            book,
            ids,
            plans,
        ).drivers[id] == live_runtime(plans[id].fingerprint),
    decreases ids.len(),
{
    if ids.len() > 0 {
        swapping_keeps(book, ids.drop_last(), plans, id);
        crate::seqs::contains_after_push(ids.drop_last(), ids.last(), id);
        assert(ids.drop_last().push(ids.last()) =~= ids);
    }
}

proof fn swapping_keeps_soundness(book: Book, ids: Seq<DriverId>, plans: Map<DriverId, Staged>)
    requires
        book.sound(),
    ensures
        swapped_in(book, ids, plans).sound(),
    decreases ids.len(),
{
    if ids.len() > 0 {
        swapping_keeps_soundness(book, ids.drop_last(), plans);
        putting_keeps_soundness(
            swapped_in(book, ids.drop_last(), plans),
            ids.last(),
            live_runtime(plans[ids.last()].fingerprint),
        );
    }
}

proof fn kept_are_wanted(ids: Seq<DriverId>, wanted: Seq<DriverId>, id: DriverId)
    ensures
        kept_of(ids, wanted).contains(id) <==> ids.contains(id) && wanted.contains(id),
    decreases ids.len(),
{
    if ids.len() > 0 {
        kept_are_wanted(ids.drop_last(), wanted, id);
        crate::seqs::contains_after_push(ids.drop_last(), ids.last(), id);
        crate::seqs::contains_after_push(kept_of(ids.drop_last(), wanted), ids.last(), id);
        assert(ids.drop_last().push(ids.last()) =~= ids);
    }
}

proof fn staged_were_started(book: Book, intents: Seq<DriverIntent>, started: Seq<bool>, id: DriverId)
    requires
        forall|i: int| 0 <= i < intents.len() && (#[trigger] intents[i]).id == id ==> !started[i],
    ensures
        !stage_all(book, intents, started).staged.contains(id),
    decreases intents.len(),
{
    if intents.len() > 0 {
        let front = intents.drop_last();
        assert forall|i: int| 0 <= i < front.len() && (#[trigger] front[i]).id == id implies !started[i] by {
            assert(intents[i] == front[i]);
        }
        staged_were_started(book, front, started, id);
        let p = stage_all(book, front, started);
        crate::seqs::contains_after_push(p.staged, intents.last().id, id);
        assert(intents[intents.len() - 1] == intents.last());
    }
}

/// Where a candidate failed, every driver that was known stays known: failure
/// removes nothing.
pub proof fn failure_removes_nothing(book: Book, intents: Seq<DriverIntent>, started: Seq<bool>, id: DriverId)
    requires
        stage_all(book, intents, started).failed,
        book.drivers.contains_key(id),
    ensures
        reconciled(book, intents, started).book.drivers.contains_key(id),
        reconciled(book, intents, started).stop.len() == 0,
{
    staging_keeps(book, intents, started, id);
    let p = stage_all(book, intents, started);
    swapping_keeps(p.book, p.staged, p.plans, id);
}

/// Where a candidate failed, a driver for which no candidate started is what it
/// was before.
pub proof fn failed_replacement_keeps_the_old(
    book: Book,
    intents: Seq<DriverIntent>,
    started: Seq<bool>,
    id: DriverId,
)
    requires
        stage_all(book, intents, started).failed,
        book.drivers.contains_key(id),
        forall|i: int| 0 <= i < intents.len() && (#[trigger] intents[i]).id == id ==> !started[i],
    ensures
        reconciled(book, intents, started).book.drivers[id] == book.drivers[id],
{
    staging_keeps(book, intents, started, id);
    staged_were_started(book, intents, started, id);
    let p = stage_all(book, intents, started);
    swapping_keeps(p.book, p.staged, p.plans, id);
}

/// Where no candidate failed, only drivers that are wanted stay.
pub proof fn success_leaves_what_is_wanted(
    book: Book,
    intents: Seq<DriverIntent>,
    started: Seq<bool>,
    id: DriverId,
)
    requires
        !stage_all(book, intents, started).failed,
        reconciled(book, intents, started).book.drivers.contains_key(id),
    ensures
        wanted_by(intents).contains(id),
{
}

proof fn leaving_alone_changes_nothing(book: Book, intents: Seq<DriverIntent>, started: Seq<bool>)
    requires
        forall|i: int| 0 <= i < intents.len() ==> (#[trigger] intents[i]).action == DriverAction::Start
            && leaves_alone(book, intents[i]),
    ensures
        ({
            let p = stage_all(book, intents, started);
            &&& p.book == book
            &&& p.staged.len() == 0
            &&& !p.failed
            &&& p.events.len() == intents.len()
            &&& forall|i: int| 0 <= i < p.events.len() ==> #[trigger] p.events[i] == untouched(book, intents[i].id)
        }),
    decreases intents.len(),
{
    if intents.len() > 0 {
        let front = intents.drop_last();
        assert forall|i: int| 0 <= i < front.len() implies (#[trigger] front[i]).action == DriverAction::Start
            && leaves_alone(book, front[i]) by {
            assert(intents[i] == front[i]);
        }
        leaving_alone_changes_nothing(book, front, started);
        assert(intents[intents.len() - 1] == intents.last());
        let p = stage_all(book, intents, started);
        let before = stage_all(book, front, started).events;
        assert(p.events =~= before.push(untouched(book, intents.last().id)));
        assert forall|i: int| 0 <= i < p.events.len() implies #[trigger] p.events[i] == untouched(
            book,
            intents[i].id,
        ) by {
            if i < front.len() {
                assert(before[i] == untouched(book, front[i].id));
            }
        }
    }
}

proof fn wanting_all_removes_none(book: Book, ids: Seq<DriverId>, wanted: Seq<DriverId>)
    requires
        forall|i: int| 0 <= i < ids.len() ==> wanted.contains(#[trigger] ids[i]),
    ensures
        kept_of(ids, wanted) == ids,
        removal_notices(book, ids, wanted).len() == 0,
        to_stop_of(book, ids, wanted).len() == 0,
    decreases ids.len(),
{
    if ids.len() > 0 {
        let front = ids.drop_last();
        assert forall|i: int| 0 <= i < front.len() implies wanted.contains(#[trigger] front[i]) by {
            assert(ids[i] == front[i]);
        }
        wanting_all_removes_none(book, front, wanted);
        assert(wanted.contains(ids[ids.len() - 1]));
        assert(front.push(ids.last()) =~= ids);
    }
}

/// What is said of a driver that is left as it is.
pub open spec fn untouched(book: Book, id: DriverId) -> Notice {
    Notice { driver: id, from: book.state(id), to: book.state(id), outcome: Outcome::Unchanged }
}

/// A round that wants exactly what is active, with the same configurations,
/// starts nothing, stops nothing and changes nothing.
pub proof fn repeated_round_changes_nothing(book: Book, intents: Seq<DriverIntent>, started: Seq<bool>)
    requires
        book.sound(),
        forall|i: int| 0 <= i < intents.len() ==> (#[trigger] intents[i]).action == DriverAction::Start
            && leaves_alone(book, intents[i]),
        forall|id: DriverId| #[trigger] book.drivers.contains_key(id) ==> wanted_by(intents).contains(id),
    ensures
        reconciled(book, intents, started).book == book,
        reconciled(book, intents, started).stop.len() == 0,
        reconciled(book, intents, started).events.len() == intents.len(),
        forall|i: int|
            0 <= i < intents.len() ==> #[trigger] reconciled(book, intents, started).events[i] == untouched(
                book,
                intents[i].id,
            ),
        forall|i: int| 0 <= i < intents.len() ==> !asks_for_start(book, #[trigger] intents[i]),
{
    leaving_alone_changes_nothing(book, intents, started);
    let p = stage_all(book, intents, started);
    let wanted = wanted_by(intents);
    assert forall|i: int| 0 <= i < book.order.len() implies wanted.contains(#[trigger] book.order[i]) by {
        assert(book.order.contains(book.order[i]));
        assert(book.drivers.contains_key(book.order[i]));
    }
    wanting_all_removes_none(book, book.order, wanted);
    assert(p.staged =~= Seq::<DriverId>::empty());
    assert(cleared(book, wanted).drivers =~= book.drivers);
    assert(reconciled(book, intents, started).events =~= p.events);
}

proof fn kept_once(ids: Seq<DriverId>, wanted: Seq<DriverId>)
    requires
        ids.no_duplicates(),
    ensures
        kept_of(ids, wanted).no_duplicates(),
    decreases ids.len(),
{
    if ids.len() > 0 {
        let front = ids.drop_last();
        let last = ids.last();
        kept_once(front, wanted);
        kept_are_wanted(front, wanted, last);
        let kept = kept_of(front, wanted);
        if front.contains(last) {
            let i = choose|i: int| 0 <= i < front.len() && front[i] == last;
            assert(ids[i] == ids[ids.len() - 1]);
        }
        assert forall|i: int| 0 <= i < kept.len() implies kept[i] != last by {
            assert(kept.contains(kept[i]));
        }
    }
}

/// Every state that is kept between rounds is kept by a round, and so is the
/// order in which drivers are listed.
pub proof fn rounds_keep_soundness(book: Book, intents: Seq<DriverIntent>, started: Seq<bool>)
    requires
        book.sound(),
    ensures
        reconciled(book, intents, started).book.sound(),
{
    staging_keeps_soundness(book, intents, started);
    let p = stage_all(book, intents, started);
    swapping_keeps_soundness(p.book, p.staged, p.plans);
    let b = swapped_in(p.book, p.staged, p.plans);
    let wanted = wanted_by(intents);
    let c = cleared(b, wanted);
    kept_once(b.order, wanted);
    assert forall|id: DriverId| c.order.contains(id) <==> #[trigger] c.drivers.contains_key(id) by {
        kept_are_wanted(b.order, wanted, id);
        assert(b.order.contains(id) <==> b.drivers.contains_key(id));
    }
    assert forall|id: DriverId| #[trigger] c.drivers.contains_key(id) implies c.state(id)
        == DriverLifecycleState::Active || c.state(id) == DriverLifecycleState::Degraded || c.state(id)
        == DriverLifecycleState::Failed by {
        assert(b.drivers.contains_key(id));
    }
}

/// Health reports and recovery keep it too, and neither removes a driver.
pub proof fn reports_and_recovery_keep_soundness(book: Book, id: DriverId, health: HealthStatus, other: DriverId)
    requires
        book.sound(),
    ensures
        after_report(book, id, health).sound(),
        recovery_of(book, id) is Some ==> book.put(id, live_runtime(book.drivers[id].fingerprint)).sound(),
        after_report(book, id, health).drivers.contains_key(other) <==> book.drivers.contains_key(other),
        legal(book.state(other), after_report(book, id, health).state(other)),
{
    if book.state(id) == DriverLifecycleState::Active {
        putting_keeps_soundness(
            book,
            id,
            DriverRuntime { state: DriverLifecycleState::Degraded, ..book.drivers[id] },
        );
        putting_keeps_soundness(book, id, DriverRuntime { state: DriverLifecycleState::Failed, ..book.drivers[id] });
    }
    putting_keeps_soundness(book, id, live_runtime(book.drivers[id].fingerprint));
    assert(book.drivers.contains_key(other) ==> book.sound());
}

/// Whether a notice is about a step that a driver may take.
pub open spec fn lawful(n: Notice) -> bool {
    legal(n.from, n.to)
}

proof fn staging_is_lawful(book: Book, intents: Seq<DriverIntent>, started: Seq<bool>)
    requires
        book.sound(),
    ensures
        forall|i: int| 0 <= i < stage_all(book, intents, started).events.len() ==> lawful(
            #[trigger] stage_all(book, intents, started).events[i],
        ),
    decreases intents.len(),
{
    if intents.len() > 0 {
        staging_is_lawful(book, intents.drop_last(), started);
        staging_keeps_soundness(book, intents.drop_last(), started);
        let b = stage_all(book, intents.drop_last(), started).book;
        assert(b.drivers.contains_key(intents.last().id) ==> b.sound());
    }
}

proof fn swapping_is_lawful(book: Book, ids: Seq<DriverId>, plans: Map<DriverId, Staged>)
    requires
        book.sound(),
    ensures
        forall|i: int| 0 <= i < swap_notices(book, ids, plans).len() ==> lawful(
            #[trigger] swap_notices(book, ids, plans)[i],
        ),
    decreases ids.len(),
{
    if ids.len() > 0 {
        swapping_is_lawful(book, ids.drop_last(), plans);
        swapping_keeps_soundness(book, ids.drop_last(), plans);
        let b = swapped_in(book, ids.drop_last(), plans);
        let front = swap_notices(book, ids.drop_last(), plans);
        let all = swap_notices(book, ids, plans);
        assert forall|i: int| 0 <= i < all.len() implies lawful(#[trigger] all[i]) by {
            if i < front.len() {
                assert(all[i] == front[i]);
            } else {
                assert(b.drivers.contains_key(ids.last()) ==> b.sound());
            }
        }
    }
}

proof fn removing_is_lawful(book: Book, ids: Seq<DriverId>, wanted: Seq<DriverId>)
    requires
        book.sound(),
    ensures
        forall|i: int| 0 <= i < removal_notices(book, ids, wanted).len() ==> lawful(
            #[trigger] removal_notices(book, ids, wanted)[i],
        ),
    decreases ids.len(),
{
    if ids.len() > 0 {
        removing_is_lawful(book, ids.drop_last(), wanted);
        let front = removal_notices(book, ids.drop_last(), wanted);
        let all = removal_notices(book, ids, wanted);
        assert forall|i: int| 0 <= i < all.len() implies lawful(#[trigger] all[i]) by {
            if i < front.len() {
                assert(all[i] == front[i]);
            } else {
                assert(book.drivers.contains_key(ids.last()) ==> book.sound());
            }
        }
    }
}

/// Every step that a round reports is one that a driver may take.
pub proof fn rounds_take_lawful_steps(book: Book, intents: Seq<DriverIntent>, started: Seq<bool>)
    requires
        book.sound(),
    ensures
        forall|i: int| 0 <= i < reconciled(book, intents, started).events.len() ==> lawful(
            #[trigger] reconciled(book, intents, started).events[i],
        ),
{
    staging_is_lawful(book, intents, started);
    staging_keeps_soundness(book, intents, started);
    let p = stage_all(book, intents, started);
    swapping_is_lawful(p.book, p.staged, p.plans);
    swapping_keeps_soundness(p.book, p.staged, p.plans);
    let b = swapped_in(p.book, p.staged, p.plans);
    removing_is_lawful(b, b.order, wanted_by(intents));
}

/// A restart asks for a candidate whatever is known of the driver. A start does
/// unless the driver is active with the same configuration. Nothing else does.
pub proof fn who_asks_for_a_candidate(book: Book, intent: DriverIntent)
    ensures
        intent.action == DriverAction::Restart ==> asks_for_start(book, intent),
        intent.action == DriverAction::Start ==> (asks_for_start(book, intent) <==> !(book.drivers.contains_key(
            intent.id,
        ) && book.drivers[intent.id].state == DriverLifecycleState::Active && book.drivers[intent.id].fingerprint
            == intent.fingerprint)),
        intent.action == DriverAction::Stop || intent.action == DriverAction::Status ==> !asks_for_start(book, intent),
{
}

/// Whether no driver is named twice.
pub open spec fn named_once(intents: Seq<DriverIntent>) -> bool {
    forall|i: int, k: int| 0 <= i < k < intents.len() ==> (#[trigger] intents[i]).id != (#[trigger] intents[k]).id
}

proof fn staging_leaves_others(book: Book, intents: Seq<DriverIntent>, started: Seq<bool>, id: DriverId)
    requires
        forall|i: int|
            0 <= i < intents.len() && (#[trigger] intents[i]).id == id ==> intents[i].action == DriverAction::Stop,
    ensures
        ({
            let p = stage_all(book, intents, started);
            &&& p.book.drivers.contains_key(id) == book.drivers.contains_key(id)
            &&& p.book.drivers[id] == book.drivers[id]
            &&& !p.plans.contains_key(id)
            &&& !p.staged.contains(id)
        }),
    decreases intents.len(),
{
    if intents.len() > 0 {
        let front = intents.drop_last();
        assert forall|i: int| 0 <= i < front.len() && (#[trigger] front[i]).id == id implies front[i].action
            == DriverAction::Stop by {
            assert(intents[i] == front[i]);
        }
        staging_leaves_others(book, front, started, id);
        assert(intents[intents.len() - 1] == intents.last());
        crate::seqs::contains_after_push(stage_all(book, front, started).staged, intents.last().id, id);
    }
}

proof fn staged_are_planned(book: Book, intents: Seq<DriverIntent>, started: Seq<bool>)
    ensures
        ({
            let p = stage_all(book, intents, started);
            &&& p.staged.no_duplicates()
            &&& forall|id: DriverId| #[trigger] p.staged.contains(id) <==> p.plans.contains_key(id)
        }),
    decreases intents.len(),
{
    if intents.len() > 0 {
        let front = intents.drop_last();
        staged_are_planned(book, front, started);
        let p = stage_all(book, front, started);
        let q = stage_all(book, intents, started);
        assert forall|id: DriverId| #[trigger] q.staged.contains(id) <==> q.plans.contains_key(id) by {
            crate::seqs::contains_after_push(p.staged, intents.last().id, id);
            assert(p.staged.contains(id) <==> p.plans.contains_key(id));
        }
        assert(p.staged.contains(intents.last().id) <==> p.plans.contains_key(intents.last().id));
        assert forall|i: int, k: int| 0 <= i < q.staged.len() && 0 <= k < q.staged.len() && i != k implies q.staged[i]
            != q.staged[k] by {
            if q.staged.len() > p.staged.len() {
                if i < p.staged.len() {
                    assert(p.staged.contains(p.staged[i]));
                }
                if k < p.staged.len() {
                    assert(p.staged.contains(p.staged[k]));
                }
            }
        }
    }
}

proof fn fronts_name_once(intents: Seq<DriverIntent>)
    requires
        named_once(intents),
        intents.len() > 0,
    ensures
        named_once(intents.drop_last()),
        forall|i: int|
            0 <= i < intents.drop_last().len() ==> (#[trigger] intents.drop_last()[i]).id != intents.last().id,
{
    let front = intents.drop_last();
    assert(intents[intents.len() - 1] == intents.last());
    assert forall|i: int, k: int| 0 <= i < k < front.len() implies (#[trigger] front[i]).id != (
    #[trigger] front[k]).id by {
        assert(intents[i] == front[i] && intents[k] == front[k]);
    }
    assert forall|i: int| 0 <= i < front.len() implies (#[trigger] front[i]).id != intents.last().id by {
        assert(intents[i] == front[i]);
    }
}

proof fn staging_of_one(book: Book, intents: Seq<DriverIntent>, started: Seq<bool>, i: int)
    requires
        named_once(intents),
        0 <= i < intents.len(),
        asks_for_start(book, intents[i]),
    ensures
        ({
            let p = stage_all(book, intents, started);
            let id = intents[i].id;
            &&& started[i] ==> p.book.drivers.contains_key(id) == book.drivers.contains_key(id) && p.book.drivers[id]
                == book.drivers[id] && p.plans.contains_key(id) && p.plans[id] == (Staged {
                fingerprint: intents[i].fingerprint,
                replacing: book.state(id) == DriverLifecycleState::Active,
            })
            &&& !started[i] ==> p.failed && !p.plans.contains_key(id)
            &&& !started[i] && book.drivers.contains_key(id) ==> p.book.drivers.contains_key(id)
                && p.book.drivers[id] == book.drivers[id]
            &&& !started[i] && !book.drivers.contains_key(id) ==> p.book.drivers.contains_key(id)
                && p.book.drivers[id] == failed_runtime(intents[i].fingerprint)
            &&& !started[i] && book.state(id) == DriverLifecycleState::Active ==> p.events.contains(
                Notice {
                    driver: id,
                    from: DriverLifecycleState::Active,
                    to: DriverLifecycleState::Active,
                    outcome: Outcome::Failed(failure_text()),
                },
            )
            &&& !started[i] && !book.drivers.contains_key(id) ==> p.events.contains(
                Notice {
                    driver: id,
                    from: DriverLifecycleState::Initializing,
                    to: DriverLifecycleState::Failed,
                    outcome: Outcome::Failed(failure_text()),
                },
            )
        }),
    decreases intents.len(),
{
    let front = intents.drop_last();
    let id = intents[i].id;
    fronts_name_once(intents);
    let p = stage_all(book, front, started);
    let q = stage_all(book, intents, started);
    if i == intents.len() - 1 {
        assert(forall|k: int| 0 <= k < front.len() ==> (#[trigger] front[k]).id != id);
        staging_leaves_others(book, front, started, id);
        if q.events.len() > p.events.len() {
            assert(q.events[p.events.len() as int] == q.events.last());
            assert(q.events.contains(q.events.last()));
        }
    } else {
        assert(front[i] == intents[i]);
        staging_of_one(book, front, started, i);
        assert(intents.last().id != id);
        assert forall|n: Notice| p.events.contains(n) implies #[trigger] q.events.contains(n) by {
            let k = p.events.index_of(n);
            assert(q.events[k] == n);
        }
    }
}

proof fn swapping_leaves_others(book: Book, ids: Seq<DriverId>, plans: Map<DriverId, Staged>, id: DriverId)
    requires
        !ids.contains(id),
    ensures
        swapped_in(book, ids, plans).drivers.contains_key(id) == book.drivers.contains_key(id),
        swapped_in(book, ids, plans).drivers[id] == book.drivers[id],
    decreases ids.len(),
{
    if ids.len() > 0 {
        crate::seqs::contains_after_push(ids.drop_last(), ids.last(), id);
        assert(ids.drop_last().push(ids.last()) =~= ids);
        swapping_leaves_others(book, ids.drop_last(), plans, id);
    }
}

proof fn swapping_is_told(book: Book, ids: Seq<DriverId>, plans: Map<DriverId, Staged>, id: DriverId)
    requires
        ids.no_duplicates(),
        ids.contains(id),
    ensures
        swap_notices(book, ids, plans).contains(
            Notice {
                driver: id,
                from: taken_from(book.state(id)),
                to: DriverLifecycleState::Active,
                outcome: if plans[id].replacing { Outcome::Changed } else { Outcome::Added },
            },
        ),
    decreases ids.len(),
{
    let front = ids.drop_last();
    let all = swap_notices(book, ids, plans);
    crate::seqs::contains_after_push(front, ids.last(), id);
    assert(front.push(ids.last()) =~= ids);
    if ids.last() == id {
        assert forall|k: int| 0 <= k < front.len() implies front[k] != id by {
            assert(ids[k] == front[k] && ids[ids.len() - 1] == id);
        }
        swapping_leaves_others(book, front, plans, id);
        assert(all[all.len() - 1] == all.last());
        assert(all.contains(all.last()));
    } else {
        swapping_is_told(book, front, plans, id);
        let before = swap_notices(book, front, plans);
        let n = Notice {
            driver: id,
            from: taken_from(book.state(id)),
            to: DriverLifecycleState::Active,
            outcome: if plans[id].replacing { Outcome::Changed } else { Outcome::Added },
        };
        let k = before.index_of(n);
        assert(all[k] == n);
    }
}

proof fn wanted_are_named(intents: Seq<DriverIntent>, id: DriverId)
    ensures
        wanted_by(intents).contains(id) <==> exists|i: int|
            0 <= i < intents.len() && (#[trigger] intents[i]).id == id && intents[i].action != DriverAction::Stop,
    decreases intents.len(),
{
    if intents.len() > 0 {
        let front = intents.drop_last();
        wanted_are_named(front, id);
        crate::seqs::contains_after_push(wanted_by(front), intents.last().id, id);
        assert(intents[intents.len() - 1] == intents.last());
        if wanted_by(front).contains(id) {
            let i = choose|i: int|
                0 <= i < front.len() && (#[trigger] front[i]).id == id && front[i].action != DriverAction::Stop;
            assert(intents[i] == front[i]);
        }
        if exists|i: int|
            0 <= i < intents.len() && (#[trigger] intents[i]).id == id && intents[i].action != DriverAction::Stop {
            let i = choose|i: int|
                0 <= i < intents.len() && (#[trigger] intents[i]).id == id && intents[i].action != DriverAction::Stop;
            if i < front.len() {
                assert(front[i] == intents[i]);
            }
        }
    }
}

/// A candidate that was asked for and started takes its place: the driver is
/// active and live with the configuration that was wanted. It is reported as a
/// change where the driver was active before, from active to active, and as an
/// addition otherwise; one that was degraded recovers first.
pub proof fn started_candidates_take_their_places(
    book: Book,
    intents: Seq<DriverIntent>,
    started: Seq<bool>,
    i: int,
)
    requires
        named_once(intents),
        0 <= i < intents.len(),
        started[i],
        intents[i].action == DriverAction::Restart || intents[i].action == DriverAction::Start && !(
        book.drivers.contains_key(intents[i].id) && book.drivers[intents[i].id].state == DriverLifecycleState::Active
            && book.drivers[intents[i].id].fingerprint == intents[i].fingerprint),
    ensures
        ({
            let id = intents[i].id;
            let after = reconciled(book, intents, started);
            let known = book.drivers.contains_key(id);
            &&& after.book.drivers.contains_key(id)
            &&& after.book.drivers[id].state == DriverLifecycleState::Active
            &&& after.book.drivers[id].live
            &&& after.book.drivers[id].fingerprint == intents[i].fingerprint
            &&& known && book.drivers[id].state == DriverLifecycleState::Active ==> after.events.contains(
                Notice {
                    driver: id,
                    from: DriverLifecycleState::Active,
                    to: DriverLifecycleState::Active,
                    outcome: Outcome::Changed,
                },
            )
            &&& known && book.drivers[id].state == DriverLifecycleState::Degraded ==> after.events.contains(
                Notice {
                    driver: id,
                    from: DriverLifecycleState::Recovering,
                    to: DriverLifecycleState::Active,
                    outcome: Outcome::Added,
                },
            )
            &&& known && book.drivers[id].state == DriverLifecycleState::Failed ==> after.events.contains(
                Notice {
                    driver: id,
                    from: DriverLifecycleState::Failed,
                    to: DriverLifecycleState::Active,
                    outcome: Outcome::Added,
                },
            )
            &&& !known ==> after.events.contains(
                Notice {
                    driver: id,
                    from: DriverLifecycleState::Absent,
                    to: DriverLifecycleState::Active,
                    outcome: Outcome::Added,
                },
            )
        }),
{
    let id = intents[i].id;
    let p = stage_all(book, intents, started);
    staging_of_one(book, intents, started, i);
    staged_are_planned(book, intents, started);
    assert(p.staged.contains(id));
    swapping_keeps(p.book, p.staged, p.plans, id);
    swapping_is_told(p.book, p.staged, p.plans, id);
    wanted_are_named(intents, id);
    let told = swap_notices(p.book, p.staged, p.plans);
    let after = reconciled(book, intents, started);
    assert forall|n: Notice| told.contains(n) implies #[trigger] after.events.contains(n) by {
        let k = told.index_of(n);
        assert(after.events[p.events.len() + k] == n);
    }
}

/// A candidate that was asked for and did not start leaves what was known of
/// its driver as it was. It is reported where the driver was active, and a
/// driver that was not known is then known as failed, and reported so. Nothing
/// is removed and nothing is stopped.
pub proof fn failed_candidates_leave_what_was(
    book: Book,
    intents: Seq<DriverIntent>,
    started: Seq<bool>,
    i: int,
    other: DriverId,
)
    requires
        named_once(intents),
        0 <= i < intents.len(),
        !started[i],
        intents[i].action == DriverAction::Restart || intents[i].action == DriverAction::Start && !(
        book.drivers.contains_key(intents[i].id) && book.drivers[intents[i].id].state == DriverLifecycleState::Active
            && book.drivers[intents[i].id].fingerprint == intents[i].fingerprint),
    ensures
        ({
            let id = intents[i].id;
            let after = reconciled(book, intents, started);
            let known = book.drivers.contains_key(id);
            &&& after.stop.len() == 0
            &&& book.drivers.contains_key(other) ==> after.book.drivers.contains_key(other)
            &&& after.book.drivers.contains_key(id)
            &&& known ==> after.book.drivers[id] == book.drivers[id]
            &&& known && book.drivers[id].state == DriverLifecycleState::Active ==> after.events.contains(
                Notice {
                    driver: id,
                    from: DriverLifecycleState::Active,
                    to: DriverLifecycleState::Active,
                    outcome: Outcome::Failed("candidate failed to start"@),
                },
            )
            &&& !known ==> after.book.drivers[id] == (DriverRuntime {
                state: DriverLifecycleState::Failed,
                live: false,
                fingerprint: intents[i].fingerprint,
            }) && after.events.contains(
                Notice {
                    driver: id,
                    from: DriverLifecycleState::Initializing,
                    to: DriverLifecycleState::Failed,
                    outcome: Outcome::Failed("candidate failed to start"@),
                },
            )
        }),
{
    let id = intents[i].id;
    let p = stage_all(book, intents, started);
    staging_of_one(book, intents, started, i);
    staged_are_planned(book, intents, started);
    assert(!p.staged.contains(id));
    swapping_leaves_others(p.book, p.staged, p.plans, id);
    if book.drivers.contains_key(other) {
        staging_keeps(book, intents, started, other);
        swapping_keeps(p.book, p.staged, p.plans, other);
    }
    let after = reconciled(book, intents, started);
    assert forall|n: Notice| p.events.contains(n) implies #[trigger] after.events.contains(n) by {
        let k = p.events.index_of(n);
        assert(after.events[k] == n);
    }
}

proof fn starting_everything_fails_nothing(book: Book, intents: Seq<DriverIntent>, started: Seq<bool>)
    requires
        forall|i: int| 0 <= i < intents.len() && asks_for_start(book, #[trigger] intents[i]) ==> started[i],
    ensures
        stage_all(book, intents, started).book == book,
        !stage_all(book, intents, started).failed,
    decreases intents.len(),
{
    if intents.len() > 0 {
        let front = intents.drop_last();
        assert forall|i: int| 0 <= i < front.len() && asks_for_start(book, #[trigger] front[i]) implies started[i] by {
            assert(intents[i] == front[i]);
        }
        starting_everything_fails_nothing(book, front, started);
        assert(intents[intents.len() - 1] == intents.last());
    }
}

proof fn swapping_lists_all(book: Book, ids: Seq<DriverId>, plans: Map<DriverId, Staged>, id: DriverId)
    requires
        book.order.contains(id),
    ensures
        swapped_in(book, ids, plans).order.contains(id),
    decreases ids.len(),
{
    if ids.len() > 0 {
        swapping_lists_all(book, ids.drop_last(), plans, id);
        let b = swapped_in(book, ids.drop_last(), plans);
        crate::seqs::contains_after_push(b.order, ids.last(), id);
    }
}

proof fn removal_is_told(book: Book, ids: Seq<DriverId>, wanted: Seq<DriverId>, id: DriverId)
    requires
        !wanted.contains(id),
        ids.contains(id),
    ensures
        removal_notices(book, ids, wanted).contains(
            Notice {
                driver: id,
                from: book.state(id),
                to: DriverLifecycleState::Absent,
                outcome: Outcome::Removed,
            },
        ),
    decreases ids.len(),
{
    let front = ids.drop_last();
    let n = Notice {
        driver: id,
        from: book.state(id),
        to: DriverLifecycleState::Absent,
        outcome: Outcome::Removed,
    };
    crate::seqs::contains_after_push(front, ids.last(), id);
    assert(front.push(ids.last()) =~= ids);
    let before = removal_notices(book, front, wanted);
    let all = removal_notices(book, ids, wanted);
    if ids.last() == id {
        assert(all[all.len() - 1] == n);
    } else {
        removal_is_told(book, front, wanted, id);
        let k = before.index_of(n);
        assert(all[k] == n);
    }
}

proof fn stopped_are_live(book: Book, ids: Seq<DriverId>, wanted: Seq<DriverId>, id: DriverId)
    ensures
        to_stop_of(book, ids, wanted).contains(id) <==> ids.contains(id) && !wanted.contains(id)
            && book.drivers[id].live,
    decreases ids.len(),
{
    if ids.len() > 0 {
        let front = ids.drop_last();
        stopped_are_live(book, front, wanted, id);
        crate::seqs::contains_after_push(front, ids.last(), id);
        crate::seqs::contains_after_push(to_stop_of(book, front, wanted), ids.last(), id);
        assert(front.push(ids.last()) =~= ids);
    }
}

/// Where every candidate that was asked for started, a driver that nobody wants
/// any more is removed and reported so, and its mechanism is stopped where it
/// has one.
pub proof fn unwanted_drivers_are_removed(
    book: Book,
    intents: Seq<DriverIntent>,
    started: Seq<bool>,
    id: DriverId,
)
    requires
        book.sound(),
        forall|i: int|
            0 <= i < intents.len() && ((#[trigger] intents[i]).action == DriverAction::Restart || intents[i].action
                == DriverAction::Start && !(book.drivers.contains_key(intents[i].id)
                && book.drivers[intents[i].id].state == DriverLifecycleState::Active
                && book.drivers[intents[i].id].fingerprint == intents[i].fingerprint)) ==> started[i],
        book.drivers.contains_key(id),
        forall|i: int|
            0 <= i < intents.len() && (#[trigger] intents[i]).id == id ==> intents[i].action == DriverAction::Stop,
    ensures
        ({
            let after = reconciled(book, intents, started);
            &&& !after.book.drivers.contains_key(id)
            &&& !after.book.order.contains(id)
            &&& after.events.contains(
                Notice {
                    driver: id,
                    from: book.drivers[id].state,
                    to: DriverLifecycleState::Absent,
                    outcome: Outcome::Removed,
                },
            )
            &&& after.stop.contains(id) <==> book.drivers[id].live
        }),
{
    assert forall|i: int| 0 <= i < intents.len() && asks_for_start(book, #[trigger] intents[i]) implies started[i] by {
        who_asks_for_a_candidate(book, intents[i]);
    }
    starting_everything_fails_nothing(book, intents, started);
    staging_leaves_others(book, intents, started, id);
    let p = stage_all(book, intents, started);
    let b = swapped_in(p.book, p.staged, p.plans);
    let wanted = wanted_by(intents);
    swapping_leaves_others(p.book, p.staged, p.plans, id);
    swapping_lists_all(p.book, p.staged, p.plans, id);
    wanted_are_named(intents, id);
    removal_is_told(b, b.order, wanted, id);
    stopped_are_live(b, b.order, wanted, id);
    kept_are_wanted(b.order, wanted, id);
    let after = reconciled(book, intents, started);
    let gone = removal_notices(b, b.order, wanted);
    let n = Notice {
        driver: id,
        from: book.drivers[id].state,
        to: DriverLifecycleState::Absent,
        outcome: Outcome::Removed,
    };
    let front = p.events + swap_notices(p.book, p.staged, p.plans);
    assert(after.events == front + gone);
    assert(after.events[front.len() + gone.index_of(n)] == n);
}

/// A driver that is wanted and for which no candidate is asked for stays as it
/// was, and is reported as unchanged.
pub proof fn untouched_drivers_stay(book: Book, intents: Seq<DriverIntent>, started: Seq<bool>, i: int)
    requires
        named_once(intents),
        0 <= i < intents.len(),
        book.drivers.contains_key(intents[i].id),
        intents[i].action == DriverAction::Status || intents[i].action == DriverAction::Start
            && book.drivers[intents[i].id].state == DriverLifecycleState::Active
            && book.drivers[intents[i].id].fingerprint == intents[i].fingerprint,
    ensures
        ({
            let id = intents[i].id;
            let after = reconciled(book, intents, started);
            &&& after.book.drivers.contains_key(id)
            &&& after.book.drivers[id] == book.drivers[id]
            &&& !after.stop.contains(id)
            &&& after.events.contains(
                Notice {
                    driver: id,
                    from: book.drivers[id].state,
                    to: book.drivers[id].state,
                    outcome: Outcome::Unchanged,
                },
            )
        }),
{
    let id = intents[i].id;
    let p = stage_all(book, intents, started);
    staging_of_untouched(book, intents, started, i);
    staged_are_planned(book, intents, started);
    assert(!p.staged.contains(id));
    swapping_leaves_others(p.book, p.staged, p.plans, id);
    wanted_are_named(intents, id);
    let b = swapped_in(p.book, p.staged, p.plans);
    stopped_are_live(b, b.order, wanted_by(intents), id);
    let after = reconciled(book, intents, started);
    assert forall|n: Notice| p.events.contains(n) implies #[trigger] after.events.contains(n) by {
        let k = p.events.index_of(n);
        assert(after.events[k] == n);
    }
}

proof fn staging_of_untouched(book: Book, intents: Seq<DriverIntent>, started: Seq<bool>, i: int)
    requires
        named_once(intents),
        0 <= i < intents.len(),
        intents[i].action != DriverAction::Stop,
        !asks_for_start(book, intents[i]),
    ensures
        ({
            let p = stage_all(book, intents, started);
            let id = intents[i].id;
            &&& p.book.drivers.contains_key(id) == book.drivers.contains_key(id)
            &&& p.book.drivers[id] == book.drivers[id]
            &&& !p.plans.contains_key(id)
            &&& p.events.contains(untouched(book, id))
        }),
    decreases intents.len(),
{
    let front = intents.drop_last();
    let id = intents[i].id;
    fronts_name_once(intents);
    let p = stage_all(book, front, started);
    let q = stage_all(book, intents, started);
    if i == intents.len() - 1 {
        assert(forall|k: int| 0 <= k < front.len() ==> (#[trigger] front[k]).id != id);
        staging_leaves_others(book, front, started, id);
        assert(q.events[p.events.len() as int] == untouched(book, id));
    } else {
        assert(front[i] == intents[i]);
        staging_of_untouched(book, front, started, i);
        assert(intents.last().id != id);
        let k = p.events.index_of(untouched(book, id));
        assert(q.events[k] == untouched(book, id));
    }
}

/// A health report changes an active driver only: a degraded one becomes
/// degraded, an unhealthy one failed, each with the same mechanism and the same
/// configuration.
pub proof fn reports_change_active_drivers_only(book: Book, id: DriverId, health: HealthStatus, other: DriverId)
    ensures
        ({
            let after = after_report(book, id, health);
            &&& after.order == book.order
            &&& other != id ==> after.drivers.contains_key(other) == book.drivers.contains_key(other)
                && after.drivers[other] == book.drivers[other]
            &&& after.drivers.contains_key(id) == book.drivers.contains_key(id)
            &&& book.drivers.contains_key(id) ==> after.drivers[id].live == book.drivers[id].live
                && after.drivers[id].fingerprint == book.drivers[id].fingerprint
            &&& book.drivers.contains_key(id) && book.drivers[id].state == DriverLifecycleState::Active
                && health is Degraded ==> after.drivers[id].state == DriverLifecycleState::Degraded
            &&& book.drivers.contains_key(id) && book.drivers[id].state == DriverLifecycleState::Active
                && health is Unhealthy ==> after.drivers[id].state == DriverLifecycleState::Failed
            &&& book.drivers.contains_key(id) && (book.drivers[id].state != DriverLifecycleState::Active || !(
            health is Degraded || health is Unhealthy)) ==> after.drivers[id] == book.drivers[id]
        }),
{
}

/// A driver can recover exactly where it is degraded or failed, and it does so
/// with the configuration that it had.
pub proof fn degraded_and_failed_drivers_recover(book: Book, id: DriverId)
    ensures
        recovery_of(book, id) is Some <==> book.drivers.contains_key(id) && (book.drivers[id].state
            == DriverLifecycleState::Degraded || book.drivers[id].state == DriverLifecycleState::Failed),
        recovery_of(book, id) is Some ==> recovery_of(book, id) == Some(book.drivers[id].fingerprint),
        book.put(id, live_runtime(book.drivers[id].fingerprint)).drivers[id] == (DriverRuntime {
            state: DriverLifecycleState::Active,
            live: true,
            fingerprint: book.drivers[id].fingerprint,
        }),
        forall|other: DriverId|
            other != id ==> #[trigger] book.put(id, live_runtime(book.drivers[id].fingerprint)).drivers[other]
                == book.drivers[other],
{
}

/// Between two states there is a step exactly where a driver lives, ends or is
/// brought back by it: what is being started or replaced becomes active or
/// fails, what is stopping becomes absent, and only an active driver degrades.
pub proof fn steps_between_states(from: DriverLifecycleState, to: DriverLifecycleState)
    ensures
        from == DriverLifecycleState::Stopping ==> (legal(from, to) <==> to == DriverLifecycleState::Absent),
        from == DriverLifecycleState::Initializing || from == DriverLifecycleState::Replacing || from
            == DriverLifecycleState::Recovering ==> (legal(from, to) <==> to == DriverLifecycleState::Active || to
            == DriverLifecycleState::Failed),
        to == DriverLifecycleState::Degraded ==> (legal(from, to) <==> from == DriverLifecycleState::Active || from
            == DriverLifecycleState::Degraded),
        to == DriverLifecycleState::Recovering ==> (legal(from, to) <==> from == DriverLifecycleState::Degraded
            || from == DriverLifecycleState::Failed),
        to == DriverLifecycleState::Replacing ==> (legal(from, to) <==> from == DriverLifecycleState::Active),
        to == DriverLifecycleState::Initializing ==> (legal(from, to) <==> from == DriverLifecycleState::Absent),
        to == DriverLifecycleState::Stopping ==> (legal(from, to) <==> from == DriverLifecycleState::Active || from
            == DriverLifecycleState::Degraded || from == DriverLifecycleState::Failed),
        to == DriverLifecycleState::Absent ==> (legal(from, to) <==> from == DriverLifecycleState::Absent || from
            == DriverLifecycleState::Active || from == DriverLifecycleState::Degraded || from
            == DriverLifecycleState::Failed || from == DriverLifecycleState::Stopping),
        to == DriverLifecycleState::Active ==> (legal(from, to) <==> from != DriverLifecycleState::Degraded && from
            != DriverLifecycleState::Stopping),
        to == DriverLifecycleState::Failed ==> (legal(from, to) <==> from != DriverLifecycleState::Degraded && from
            != DriverLifecycleState::Stopping),
{
}

proof fn staging_without_failure(book: Book, intents: Seq<DriverIntent>, started: Seq<bool>)
    requires
        forall|i: int| 0 <= i < intents.len() && asks_for_start(book, #[trigger] intents[i]) ==> started[i],
    ensures
        stage_all(book, intents, started).book == book,
        forall|k: int|
            0 <= k < stage_all(book, intents, started).events.len() ==> !((#[trigger] stage_all(
                book,
                intents,
                started,
            ).events[k]).outcome is Failed),
    decreases intents.len(),
{
    if intents.len() > 0 {
        let front = intents.drop_last();
        assert forall|i: int| 0 <= i < front.len() && asks_for_start(book, #[trigger] front[i]) implies started[i] by {
            assert(intents[i] == front[i]);
        }
        staging_without_failure(book, front, started);
        assert(intents[intents.len() - 1] == intents.last());
    }
}

proof fn swapping_fails_nothing(book: Book, ids: Seq<DriverId>, plans: Map<DriverId, Staged>)
    ensures
        forall|k: int|
            0 <= k < swap_notices(book, ids, plans).len() ==> !((#[trigger] swap_notices(book, ids, plans)[k]).outcome
                is Failed),
    decreases ids.len(),
{
    if ids.len() > 0 {
        swapping_fails_nothing(book, ids.drop_last(), plans);
    }
}

proof fn removing_fails_nothing(book: Book, ids: Seq<DriverId>, wanted: Seq<DriverId>)
    ensures
        forall|k: int|
            0 <= k < removal_notices(book, ids, wanted).len() ==> !((#[trigger] removal_notices(book, ids, wanted)[k]).outcome
                is Failed),
    decreases ids.len(),
{
    if ids.len() > 0 {
        removing_fails_nothing(book, ids.drop_last(), wanted);
    }
}

/// Where every candidate that was asked for started, no failure is reported.
pub proof fn starting_everything_fails_no_event(book: Book, intents: Seq<DriverIntent>, started: Seq<bool>)
    requires
        forall|i: int|
            0 <= i < intents.len() && ((#[trigger] intents[i]).action == DriverAction::Restart || intents[i].action
                == DriverAction::Start && !(book.drivers.contains_key(intents[i].id)
                && book.drivers[intents[i].id].state == DriverLifecycleState::Active
                && book.drivers[intents[i].id].fingerprint == intents[i].fingerprint)) ==> started[i],
    ensures
        forall|k: int|
            0 <= k < reconciled(book, intents, started).events.len() ==> !((#[trigger] reconciled(
                book,
                intents,
                started,
            ).events[k]).outcome is Failed),
{
    assert forall|i: int| 0 <= i < intents.len() && asks_for_start(book, #[trigger] intents[i]) implies started[i] by {
        who_asks_for_a_candidate(book, intents[i]);
    }
    staging_without_failure(book, intents, started);
    let p = stage_all(book, intents, started);
    swapping_fails_nothing(p.book, p.staged, p.plans);
    let b = swapped_in(p.book, p.staged, p.plans);
    removing_fails_nothing(b, b.order, wanted_by(intents));
    let all = reconciled(book, intents, started).events;
    let a = p.events;
    let s = swap_notices(p.book, p.staged, p.plans);
    let r = removal_notices(b, b.order, wanted_by(intents));
    assert forall|k: int| 0 <= k < all.len() implies !((#[trigger] all[k]).outcome is Failed) by {
        if k < a.len() {
            assert(all[k] == a[k]);
        } else if k < a.len() + s.len() {
            assert(all[k] == s[k - a.len()]);
        } else {
            assert(all[k] == r[k - a.len() - s.len()]);
        }
    }
}

} // verus!
