//! The launch sequencer: one profile after the other is installed, launched
//! and awaited, and at the end the slot is put back.
//!
//! The sequencer decides and the caller acts. Each step takes what the
//! caller saw happen (an `Event`) and answers with what to do next (an
//! `Action`). Only one profile is ever in flight.

use crate::error::Error;
use crate::plan::{Config, LaunchPlan, PlanView};
use crate::run::{run, trace};
use crate::store::{ProfileStore, StoreView};
use vstd::prelude::*;
use vstd::string::*;

verus! {

/// What the launch of one profile came to.
pub enum OutcomeView {
    Succeeded,
    ProcessFailed(i32),
    LaunchError(Seq<char>),
    Skipped,
}

/// What the launch of one profile came to.
#[derive(Debug, PartialEq, Eq)]
pub enum LaunchOutcome {
    /// The game ran and exited with code 0.
    Succeeded,
    /// The game ran and exited with this code, which is not 0.
    ProcessFailed(i32),
    /// The profile could not be installed, or the game could not be started,
    /// or the run was interrupted while the profile was in flight.
    LaunchError(String),
    /// The run ended before the profile's turn.
    Skipped,
}

impl View for LaunchOutcome {
    type V = OutcomeView;

    open spec fn view(&self) -> OutcomeView {
        match self {
            LaunchOutcome::Succeeded => OutcomeView::Succeeded,
            LaunchOutcome::ProcessFailed(code) => OutcomeView::ProcessFailed(*code),
            LaunchOutcome::LaunchError(reason) => OutcomeView::LaunchError(reason@),
            LaunchOutcome::Skipped => OutcomeView::Skipped,
        }
    }
}

impl Clone for LaunchOutcome {
    fn clone(&self) -> (copy: Self)
        ensures
            copy@ == self@,
    {
        match self {
            LaunchOutcome::Succeeded => LaunchOutcome::Succeeded,
            LaunchOutcome::ProcessFailed(code) => LaunchOutcome::ProcessFailed(*code),
            LaunchOutcome::LaunchError(reason) => LaunchOutcome::LaunchError(reason.clone()),
            LaunchOutcome::Skipped => LaunchOutcome::Skipped,
        }
    }
}

impl LaunchOutcome {
    /// The error that the outcome stands for, if it stands for one.
    pub fn error(&self) -> (error: Option<Error>)
        ensures
            match self@ {
                OutcomeView::Succeeded => error is None,
                OutcomeView::Skipped => error is None,
                OutcomeView::ProcessFailed(code) => error == Some(Error::ProcessFailed(code)),
                OutcomeView::LaunchError(reason) => {
                    &&& error matches Some(Error::LaunchError(r))
                    &&& r@ == reason
                },
            },
    {
        match self {
            LaunchOutcome::Succeeded => None,
            LaunchOutcome::Skipped => None,
            LaunchOutcome::ProcessFailed(code) => Some(Error::ProcessFailed(*code)),
            LaunchOutcome::LaunchError(reason) => Some(Error::LaunchError(reason.clone())),
        }
    }
}

/// What each outcome of a list is.
pub open spec fn outcome_views(list: Seq<LaunchOutcome>) -> Seq<OutcomeView> {
    list.map_values(|o: LaunchOutcome| o@)
}

/// Where a run stands.
#[derive(Debug, Clone, Copy, PartialEq, Eq, Structural)]
pub enum Phase {
    /// Nothing has happened yet.
    Idle,
    /// The profile at this place is being copied into the slot.
    Installing(usize),
    /// The game is being started for the profile at this place.
    Launching(usize),
    /// The game runs for the profile at this place.
    AwaitingExit(usize),
    /// The user is asked whether to go on behind the profile at this place.
    Confirming(usize),
    /// The slot is being put back.
    Restoring,
    /// The run is over.
    Done,
}

/// What the caller is to do next.
#[derive(Debug, Clone, Copy, PartialEq, Eq, Structural)]
pub enum Action {
    /// Copy the profile at this place of the plan into the slot, and report
    /// `Installed`.
    Install(usize),
    /// Start the game, and report `Spawned`.
    Launch(usize),
    /// Wait until the game has exited, and report `Exited`.
    Wait(usize),
    /// Ask the user whether to go on, and report `Confirmed`.
    Confirm(usize),
    /// Write the snapshot back into the slot, and report `Restored`.
    Restore,
    /// Nothing: the run is over and its summary can be read.
    Finish,
}

/// What the caller saw happen.
#[derive(Debug, PartialEq, Eq)]
pub enum Event {
    /// The run begins.
    Start,
    /// The install was tried: the bytes copied, or why it failed.
    Installed(Result<Vec<u8>, String>),
    /// The start of the game was tried: it runs, or why it does not.
    Spawned(Result<(), String>),
    /// The game has exited with this code.
    Exited(i32),
    /// The user has answered: go on, or stop.
    Confirmed(bool),
    /// The restore was tried: it went well, or why it failed.
    Restored(Result<(), String>),
    /// The run was interrupted from outside.
    Interrupted,
}

/// The reason recorded for a profile that was in flight when the run was
/// interrupted.
pub open spec fn interrupted_text() -> Seq<char> {
    "interrupted"@
}

/// The message of the error for an event that does not fit the phase.
pub open spec fn unexpected_event_text() -> Seq<char> {
    "unexpected event"@
}

/// The outcome of a game that exited with `code`.
pub open spec fn exit_outcome(code: i32) -> OutcomeView {
    if code == 0 {
        OutcomeView::Succeeded
    } else {
        OutcomeView::ProcessFailed(code)
    }
}

/// So many times `Skipped`.
pub open spec fn skipped(count: int) -> Seq<OutcomeView> {
    Seq::new(count as nat, |k: int| OutcomeView::Skipped)
}

/// Every outcome is `Succeeded`.
pub open spec fn all_succeeded(outcomes: Seq<OutcomeView>) -> bool {
    forall|k: int| 0 <= k < outcomes.len() ==> #[trigger] outcomes[k] is Succeeded
}

/// The exit code of a run with these outcomes: 0 if every profile
/// succeeded, else 1.
pub open spec fn exit_code_of(outcomes: Seq<OutcomeView>) -> int {
    if all_succeeded(outcomes) {
        0
    } else {
        1
    }
}

/// What a sequencer is.
pub struct SequencerView {
    pub plan: PlanView,
    pub phase: Phase,
    /// The outcomes so far, one for each profile whose turn is over.
    pub outcomes: Seq<OutcomeView>,
    pub store: StoreView,
    /// Why the restore failed, if it did.
    pub restore_error: Option<Seq<char>>,
}

impl SequencerView {
    /// The number of profiles in the plan.
    pub open spec fn count(self) -> int {
        self.plan.profiles.len() as int
    }

    /// The phase and the outcomes fit each other and the plan.
    pub open spec fn wf(self) -> bool {
        &&& self.count() <= usize::MAX
        &&& self.store.no_restore == self.plan.config.no_restore
        &&& match self.phase {
            Phase::Idle => self.outcomes.len() == 0,
            Phase::Installing(i) => i < self.count() && self.outcomes.len() == i,
            Phase::Launching(i) => i < self.count() && self.outcomes.len() == i,
            Phase::AwaitingExit(i) => i < self.count() && self.outcomes.len() == i,
            Phase::Confirming(i) => i + 1 < self.count() && self.outcomes.len() == i + 1,
            Phase::Restoring => self.outcomes.len() == self.count()
                && !self.plan.config.no_restore,
            Phase::Done => self.outcomes.len() == self.count(),
        }
    }

    /// The sequencer before the run, for a slot that holds `blob`.
    pub open spec fn initial(plan: PlanView, blob: Seq<u8>) -> SequencerView {
        SequencerView {
            plan,
            phase: Phase::Idle,
            outcomes: Seq::empty(),
            store: StoreView::fresh(blob, plan.config.no_restore),
            restore_error: None,
        }
    }

    /// With one more outcome.
    pub open spec fn record(self, outcome: OutcomeView) -> SequencerView {
        SequencerView { outcomes: self.outcomes.push(outcome), ..self }
    }

    /// The turn of the profile at place `i` begins.
    pub open spec fn launch_next(self, i: usize) -> (SequencerView, Action) {
        (SequencerView { phase: Phase::Installing(i), ..self }, Action::Install(i))
    }

    /// The user is asked whether to go on behind the profile at place `i`.
    pub open spec fn ask(self, i: usize) -> (SequencerView, Action) {
        (SequencerView { phase: Phase::Confirming(i), ..self }, Action::Confirm(i))
    }

    /// The run ends here: every profile without an outcome is skipped, and
    /// the slot is put back unless the run never restores.
    pub open spec fn wind_down(self) -> (SequencerView, Action) {
        let outcomes = self.outcomes + skipped(self.count() - self.outcomes.len());
        if self.plan.config.no_restore {
            (SequencerView { phase: Phase::Done, outcomes, ..self }, Action::Finish)
        } else {
            (SequencerView { phase: Phase::Restoring, outcomes, ..self }, Action::Restore)
        }
    }

    /// The turn of the profile at place `i` is over and its outcome is
    /// recorded; `failed` says that it could not be installed or started.
    ///
    /// Behind the last profile the run ends. Behind a failure it ends too
    /// under `fail_fast` or `fail_silent`; otherwise the user is asked.
    /// Behind any other outcome the next profile follows at once under
    /// `auto_chain`; otherwise the user is asked.
    pub open spec fn after_profile(self, i: usize, failed: bool) -> (SequencerView, Action) {
        let config = self.plan.config;
        if i + 1 >= self.count() {
            self.wind_down()
        } else if failed {
            if config.fail_fast || config.fail_silent {
                self.wind_down()
            } else {
                self.ask(i)
            }
        } else if config.auto_chain {
            self.launch_next((i + 1) as usize)
        } else {
            self.ask(i)
        }
    }

    /// The profile at place `i` could not be installed or started.
    pub open spec fn fail(self, i: usize, reason: Seq<char>) -> (SequencerView, Action) {
        self.record(OutcomeView::LaunchError(reason)).after_profile(i, true)
    }

    /// The run is interrupted while the profile at place `i` is in flight.
    pub open spec fn cut_short(self) -> (SequencerView, Action) {
        self.record(OutcomeView::LaunchError(interrupted_text())).wind_down()
    }

    /// One step: the next state and the action, or nothing if the event
    /// does not fit the phase.
    pub open spec fn step(self, event: Event) -> Option<(SequencerView, Action)> {
        match self.phase {
            Phase::Idle => match event {
                Event::Start => {
                    let begun = SequencerView { store: self.store.snapshot(), ..self };
                    if self.count() == 0 {
                        Some(begun.wind_down())
                    } else {
                        Some(begun.launch_next(0))
                    }
                },
                Event::Interrupted => Some(self.wind_down()),
                _ => None,
            },
            Phase::Installing(i) => match event {
                Event::Installed(Ok(blob)) => Some(
                    (
                        SequencerView {
                            phase: Phase::Launching(i),
                            store: self.store.install(self.plan.profiles[i as int].path, blob@),
                            ..self
                        },
                        Action::Launch(i),
                    ),
                ),
                Event::Installed(Err(reason)) => Some(self.fail(i, reason@)),
                Event::Interrupted => Some(self.cut_short()),
                _ => None,
            },
            Phase::Launching(i) => match event {
                Event::Spawned(Ok(_)) => Some(
                    (SequencerView { phase: Phase::AwaitingExit(i), ..self }, Action::Wait(i)),
                ),
                Event::Spawned(Err(reason)) => Some(self.fail(i, reason@)),
                Event::Interrupted => Some(self.cut_short()),
                _ => None,
            },
            Phase::AwaitingExit(i) => match event {
                Event::Exited(code) => Some(self.record(exit_outcome(code)).after_profile(i, false)),
                Event::Interrupted => Some(self.cut_short()),
                _ => None,
            },
            Phase::Confirming(i) => match event {
                Event::Confirmed(go) => if go {
                    Some(self.launch_next((i + 1) as usize))
                } else {
                    Some(self.wind_down())
                },
                Event::Interrupted => Some(self.wind_down()),
                _ => None,
            },
            Phase::Restoring => match event {
                Event::Restored(Ok(_)) => Some(
                    (
                        SequencerView { phase: Phase::Done, store: self.store.restore(), ..self },
                        Action::Finish,
                    ),
                ),
                Event::Restored(Err(reason)) => Some(
                    (
                        SequencerView {
                            phase: Phase::Done,
                            restore_error: Some(reason@),
                            ..self
                        },
                        Action::Finish,
                    ),
                ),
                Event::Interrupted => Some((self, Action::Restore)),
                _ => None,
            },
            Phase::Done => match event {
                Event::Interrupted => Some((self, Action::Finish)),
                _ => None,
            },
        }
    }
}

/// What a finished run came to.
#[derive(Debug)]
pub struct RunSummary {
    /// One outcome for each profile of the plan, in plan order.
    pub outcomes: Vec<LaunchOutcome>,
    /// The `RestoreError`, if the slot could not be put back.
    pub restore_error: Option<Error>,
}

impl RunSummary {
    /// The exit code of the program: 0 if every profile succeeded, else 1.
    /// A failed restore does not change it.
    pub fn exit_code(&self) -> (code: i32)
        ensures
            code == exit_code_of(outcome_views(self.outcomes@)),
    {
        let mut k: usize = 0;
        while k < self.outcomes.len()
            invariant
                k <= self.outcomes.len(),
                all_succeeded(outcome_views(self.outcomes@).take(k as int)),
            decreases self.outcomes.len() - k,
        {
            match &self.outcomes[k] {
                LaunchOutcome::Succeeded => {},
                _ => {
                    assert(!(outcome_views(self.outcomes@)[k as int] is Succeeded));
                    return 1;
                },
            }
            assert forall|j: int| 0 <= j < k + 1 implies #[trigger] outcome_views(
                self.outcomes@,
            ).take(k + 1)[j] is Succeeded by {
                if j < k {
                    assert(outcome_views(self.outcomes@).take(k as int)[j] is Succeeded);
                }
            }
            k += 1;
        }
        assert(outcome_views(self.outcomes@).take(k as int) =~= outcome_views(self.outcomes@));
        0
    }
}

/// The state of a run, without the promise that it is well formed.
#[derive(Debug)]
struct Progress {
    plan: LaunchPlan,
    phase: Phase,
    outcomes: Vec<LaunchOutcome>,
    store: ProfileStore,
    restore_error: Option<String>,
}

impl View for Progress {
    type V = SequencerView;

    closed spec fn view(&self) -> SequencerView {
        SequencerView {
            plan: self.plan@,
            phase: self.phase,
            outcomes: outcome_views(self.outcomes@),
            store: self.store@,
            restore_error: match self.restore_error {
                Some(reason) => Some(reason@),
                None => None,
            },
        }
    }
}

impl Progress {
    fn new(plan: LaunchPlan, blob: Vec<u8>) -> (sequencer: Progress)
        ensures
            sequencer@ == SequencerView::initial(plan@, blob@),
            sequencer@.wf(),
    {
        let no_restore = plan.config().no_restore;
        let count = plan.len();
        let sequencer = Progress {
            plan,
            phase: Phase::Idle,
            outcomes: Vec::new(),
            store: ProfileStore::new(blob, no_restore),
            restore_error: None,
        };
        assert(sequencer@.outcomes =~= Seq::empty());
        assert(sequencer@.count() == count);
        sequencer
    }

    fn record(&mut self, outcome: LaunchOutcome)
        ensures
            final(self)@ == old(self)@.record(outcome@),
    {
        let ghost before = self@.outcomes;
        self.outcomes.push(outcome);
        assert(self@.outcomes =~= before.push(outcome@));
    }

    fn launch_next(&mut self, i: usize) -> (action: Action)
        ensures
            (final(self)@, action) == old(self)@.launch_next(i),
    {
        self.phase = Phase::Installing(i);
        Action::Install(i)
    }

    fn ask(&mut self, i: usize) -> (action: Action)
        ensures
            (final(self)@, action) == old(self)@.ask(i),
    {
        self.phase = Phase::Confirming(i);
        Action::Confirm(i)
    }

    fn wind_down(&mut self) -> (action: Action)
        requires
            old(self)@.outcomes.len() <= old(self)@.count(),
        ensures
            (final(self)@, action) == old(self)@.wind_down(),
    {
        let ghost start = self@;
        let n = self.plan.len();
        assert(start.outcomes + skipped(0) =~= start.outcomes);
        while self.outcomes.len() < n
            invariant
                n == start.count(),
                start.outcomes.len() <= self.outcomes.len() <= n,
                self@ == (SequencerView {
                    outcomes: start.outcomes + skipped(
                        self.outcomes.len() - start.outcomes.len(),
                    ),
                    ..start
                }),
            decreases n - self.outcomes.len(),
        {
            let ghost before = self@.outcomes;
            self.outcomes.push(LaunchOutcome::Skipped);
            assert(self@.outcomes =~= before.push(OutcomeView::Skipped));
            assert(self@.outcomes =~= start.outcomes + skipped(
                self.outcomes.len() - start.outcomes.len(),
            ));
        }
        if self.plan.config().no_restore {
            self.phase = Phase::Done;
            Action::Finish
        } else {
            self.phase = Phase::Restoring;
            Action::Restore
        }
    }

    fn after_profile(&mut self, i: usize, failed: bool) -> (action: Action)
        requires
            i < old(self)@.count(),
            old(self)@.outcomes.len() == i + 1,
        ensures
            (final(self)@, action) == old(self)@.after_profile(i, failed),
    {
        let n = self.plan.len();
        if i + 1 >= n {
            self.wind_down()
        } else if failed {
            if self.plan.config().fail_fast || self.plan.config().fail_silent {
                self.wind_down()
            } else {
                self.ask(i)
            }
        } else if self.plan.config().auto_chain {
            self.launch_next(i + 1)
        } else {
            self.ask(i)
        }
    }

    fn fail(&mut self, i: usize, reason: String) -> (action: Action)
        requires
            i < old(self)@.count(),
            old(self)@.outcomes.len() == i,
        ensures
            (final(self)@, action) == old(self)@.fail(i, reason@),
    {
        self.record(LaunchOutcome::LaunchError(reason));
        self.after_profile(i, true)
    }

    fn cut_short(&mut self) -> (action: Action)
        requires
            old(self)@.outcomes.len() < old(self)@.count(),
        ensures
            (final(self)@, action) == old(self)@.cut_short(),
    {
        self.record(LaunchOutcome::LaunchError(String::from_str("interrupted")));
        self.wind_down()
    }

    fn step(&mut self, event: Event) -> (result: Result<Action, Error>)
        requires
            old(self)@.wf(),
        ensures
            final(self)@.wf(),
            match old(self)@.step(event) {
                Some((next, action)) => final(self)@ == next && result == Ok::<Action, Error>(
                    action,
                ),
                None => {
                    &&& final(self)@ == old(self)@
                    &&& result matches Err(Error::GenericError(m))
                    &&& m@ == unexpected_event_text()
                },
            },
    {
        let n = self.plan.len();
        match self.phase {
            Phase::Idle => match event {
                Event::Start => {
                    self.store.snapshot();
                    if n == 0 {
                        Ok(self.wind_down())
                    } else {
                        Ok(self.launch_next(0))
                    }
                },
                Event::Interrupted => Ok(self.wind_down()),
                _ => Err(Error::GenericError(String::from_str("unexpected event"))),
            },
            Phase::Installing(i) => match event {
                Event::Installed(Ok(blob)) => {
                    let _ = self.store.install(&self.plan.profiles()[i], Ok(blob));
                    self.phase = Phase::Launching(i);
                    Ok(Action::Launch(i))
                },
                Event::Installed(Err(reason)) => Ok(self.fail(i, reason)),
                Event::Interrupted => Ok(self.cut_short()),
                _ => Err(Error::GenericError(String::from_str("unexpected event"))),
            },
            Phase::Launching(i) => match event {
                Event::Spawned(Ok(_)) => {
                    self.phase = Phase::AwaitingExit(i);
                    Ok(Action::Wait(i))
                },
                Event::Spawned(Err(reason)) => Ok(self.fail(i, reason)),
                Event::Interrupted => Ok(self.cut_short()),
                _ => Err(Error::GenericError(String::from_str("unexpected event"))),
            },
            Phase::AwaitingExit(i) => match event {
                Event::Exited(code) => {
                    if code == 0 {
                        self.record(LaunchOutcome::Succeeded);
                    } else {
                        self.record(LaunchOutcome::ProcessFailed(code));
                    }
                    Ok(self.after_profile(i, false))
                },
                Event::Interrupted => Ok(self.cut_short()),
                _ => Err(Error::GenericError(String::from_str("unexpected event"))),
            },
            Phase::Confirming(i) => match event {
                Event::Confirmed(go) => {
                    if go {
                        Ok(self.launch_next(i + 1))
                    } else {
                        Ok(self.wind_down())
                    }
                },
                Event::Interrupted => Ok(self.wind_down()),
                _ => Err(Error::GenericError(String::from_str("unexpected event"))),
            },
            Phase::Restoring => match event {
                Event::Restored(Ok(_)) => {
                    let ghost before = self.store@;
                    let _ = self.store.restore(Ok(()));
                    assert(self.store@ == before.restore());
                    self.phase = Phase::Done;
                    Ok(Action::Finish)
                },
                Event::Restored(Err(reason)) => {
                    self.restore_error = Some(reason);
                    self.phase = Phase::Done;
                    Ok(Action::Finish)
                },
                Event::Interrupted => Ok(Action::Restore),
                _ => Err(Error::GenericError(String::from_str("unexpected event"))),
            },
            Phase::Done => match event {
                Event::Interrupted => Ok(Action::Finish),
                _ => Err(Error::GenericError(String::from_str("unexpected event"))),
            },
        }
    }
}

/// The state of a run.
#[derive(Debug)]
pub struct LaunchSequencer {
    progress: Progress,
}

impl View for LaunchSequencer {
    type V = SequencerView;

    closed spec fn view(&self) -> SequencerView {
        self.progress@
    }
}

impl LaunchSequencer {
    #[verifier::type_invariant]
    spec fn inv(self) -> bool {
        self.progress@.wf()
    }

    /// The sequencer of a run that has not begun. `blob` is what the active
    /// slot holds.
    pub fn new(plan: LaunchPlan, blob: Vec<u8>) -> (sequencer: LaunchSequencer)
        ensures
            sequencer@ == SequencerView::initial(plan@, blob@),
            sequencer@.wf(),
    {
        LaunchSequencer { progress: Progress::new(plan, blob) }
    }

    /// Takes one event and answers with the next action.
    ///
    /// An event that does not fit the phase changes nothing and is answered
    /// with a `GenericError`. An interruption fits every phase: it ends the
    /// run at once, and the slot is still put back unless the run never
    /// restores.
    pub fn step(&mut self, event: Event) -> (result: Result<Action, Error>)
        ensures
            old(self)@.wf(),
            final(self)@.wf(),
            match old(self)@.step(event) {
                Some((next, action)) => final(self)@ == next && result == Ok::<Action, Error>(
                    action,
                ),
                None => {
                    &&& final(self)@ == old(self)@
                    &&& result matches Err(Error::GenericError(m))
                    &&& m@ == unexpected_event_text()
                },
            },
    {
        proof {
            use_type_invariant(&*self);
        }
        // The state is taken out while it changes: what stands in its place
        // meanwhile is well formed too.
        let mut progress = Progress::new(LaunchPlan::new(Vec::new(), Config::default()), Vec::new());
        core::mem::swap(&mut self.progress, &mut progress);
        let result = progress.step(event);
        core::mem::swap(&mut self.progress, &mut progress);
        result
    }

    /// Takes a series of events, one after the other, and returns the
    /// actions that answered them. An event that does not fit is passed
    /// over.
    pub fn replay(&mut self, events: Vec<Event>) -> (actions: Vec<Action>)
        ensures
            final(self)@ == run(old(self)@, events@),
            actions@ == trace(old(self)@, events@),
    {
        let ghost start = self@;
        let ghost all = events@;
        let mut events = events;
        let mut actions: Vec<Action> = Vec::new();
        let ghost mut done: int = 0;
        assert(all.take(0) =~= Seq::<Event>::empty());
        assert(actions@ =~= trace(start, all.take(0)));
        while events.len() > 0
            invariant
                0 <= done <= all.len(),
                events@ == all.skip(done),
                self@ == run(start, all.take(done)),
                actions@ == trace(start, all.take(done)),
            decreases events.len(),
        {
            let event = events.remove(0);
            proof {
                assert(event == all[done]);
                assert(all.take(done + 1).drop_last() =~= all.take(done));
                assert(all.take(done + 1).last() == all[done]);
                assert(all.skip(done).remove(0) =~= all.skip(done + 1));
            }
            match self.step(event) {
                Ok(action) => {
                    actions.push(action);
                },
                Err(_) => {},
            }
            proof {
                done = done + 1;
            }
        }
        assert(all.take(done) =~= all);
        actions
    }

    /// Where the run stands.
    pub fn phase(&self) -> (phase: Phase)
        ensures
            phase == self@.phase,
            self@.wf(),
    {
        proof {
            use_type_invariant(self);
        }
        self.progress.phase
    }

    /// Whether the run is over.
    pub fn is_done(&self) -> (done: bool)
        ensures
            done == (self@.phase == Phase::Done),
    {
        match self.progress.phase {
            Phase::Done => true,
            _ => false,
        }
    }

    /// The plan of the run.
    pub fn plan(&self) -> (plan: &LaunchPlan)
        ensures
            plan@ == self@.plan,
    {
        &self.progress.plan
    }

    /// The store of the active slot.
    pub fn store(&self) -> (store: &ProfileStore)
        ensures
            store@ == self@.store,
    {
        &self.progress.store
    }

    /// The outcomes so far, in plan order.
    pub fn outcomes(&self) -> (outcomes: &Vec<LaunchOutcome>)
        ensures
            outcome_views(outcomes@) == self@.outcomes,
    {
        &self.progress.outcomes
    }

    /// The summary of the run, once it is over.
    pub fn summary(&self) -> (summary: Option<RunSummary>)
        ensures
            summary is Some == (self@.phase == Phase::Done),
            summary matches Some(s) ==> {
                &&& outcome_views(s.outcomes@) == self@.outcomes
                &&& match self@.restore_error {
                    Some(reason) => s.restore_error matches Some(Error::RestoreError(r)) && r@
                        == reason,
                    None => s.restore_error is None,
                }
            },
    {
        if !self.is_done() {
            return None;
        }
        let mut outcomes: Vec<LaunchOutcome> = Vec::new();
        let mut k: usize = 0;
        while k < self.progress.outcomes.len()
            invariant
                k <= self.progress.outcomes.len(),
                outcome_views(outcomes@) == outcome_views(self.progress.outcomes@).take(k as int),
            decreases self.progress.outcomes.len() - k,
        {
            let ghost before = outcome_views(outcomes@);
            let copy = self.progress.outcomes[k].clone();
            outcomes.push(copy);
            assert(outcome_views(outcomes@) =~= before.push(copy@));
            assert(outcome_views(outcomes@) =~= outcome_views(self.progress.outcomes@).take(k + 1));
            k += 1;
        }
        assert(outcome_views(self.progress.outcomes@).take(k as int) =~= outcome_views(self.progress.outcomes@));
        let restore_error = match &self.progress.restore_error {
            Some(reason) => Some(Error::RestoreError(reason.clone())),
            None => None,
        };
        Some(RunSummary { outcomes, restore_error })
    }
}

} // verus!
