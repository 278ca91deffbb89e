//! Whole runs of the sequencer, and what holds of every one of them.

use crate::plan::PlanView;
use crate::sequencer::{Action, Event, OutcomeView, Phase, SequencerView};
use crate::store::{SlotView, StoreView};
use vstd::prelude::*;

verus! {

/// The state after a series of events. An event that does not fit the phase
/// changes nothing.
pub open spec fn run(start: SequencerView, events: Seq<Event>) -> SequencerView
    decreases events.len(),
{
    if events.len() == 0 {
        start
    } else {
        let before = run(start, events.drop_last());
        match before.step(events.last()) {
            Some((next, _)) => next,
            None => before,
        }
    }
}

/// The actions that answer a series of events, one for each event that fits
/// the phase it comes in.
pub open spec fn trace(start: SequencerView, events: Seq<Event>) -> Seq<Action>
    decreases events.len(),
{
    if events.len() == 0 {
        Seq::empty()
    } else {
        let before = run(start, events.drop_last());
        let front = trace(start, events.drop_last());
        match before.step(events.last()) {
            Some((_, action)) => front.push(action),
            None => front,
        }
    }
}

/// The run is over or only the restore is left.
pub open spec fn ended(phase: Phase) -> bool {
    phase == Phase::Restoring || phase == Phase::Done
}

/// The action asks for no install, launch, wait or prompt.
pub open spec fn closing(action: Action) -> bool {
    action == Action::Restore || action == Action::Finish
}

/// The event reports that the profile in flight could not be installed or
/// could not be started.
pub open spec fn reports_failure(state: SequencerView, event: Event) -> bool {
    ||| state.phase is Installing && event matches Event::Installed(Err(_))
    ||| state.phase is Launching && event matches Event::Spawned(Err(_))
}

/// A step keeps the state well formed, and the plan as it is.
pub proof fn lemma_step_keeps_wf(state: SequencerView, event: Event)
    requires
        state.wf(),
    ensures
        state.step(event) matches Some((next, _)) ==> next.wf() && next.plan == state.plan,
{
}

/// A run keeps the state well formed, and the plan as it is.
pub proof fn lemma_run_keeps_wf(start: SequencerView, events: Seq<Event>)
    requires
        start.wf(),
    ensures
        run(start, events).wf(),
        run(start, events).plan == start.plan,
    decreases events.len(),
{
    if events.len() > 0 {
        lemma_run_keeps_wf(start, events.drop_last());
        lemma_step_keeps_wf(run(start, events.drop_last()), events.last());
    }
}

/// Under `no_restore` no run is ever told to restore, whatever happens, and
/// the store is never asked to: no snapshot is taken, and what the installs
/// put into the slot stays.
pub proof fn lemma_no_restore_never_restores(start: SequencerView, events: Seq<Event>)
    requires
        start.wf(),
        start.plan.config.no_restore,
    ensures
        forall|k: int|
            0 <= k < trace(start, events).len() ==> trace(start, events)[k] != Action::Restore,
        run(start, events).phase != Phase::Restoring,
        run(start, events).store.saved == start.store.saved,
        run(start, events).restore_error == start.restore_error,
    decreases events.len(),
{
    if events.len() > 0 {
        let front = events.drop_last();
        lemma_no_restore_never_restores(start, front);
        lemma_run_keeps_wf(start, front);
    }
}

/// From the first profile that cannot be installed or started, a run under
/// `fail_fast` launches nothing more: that profile's outcome is a
/// `LaunchError`, every profile behind it is `Skipped`, and whatever
/// happens afterwards, no action asks for another install or launch, no
/// outcome changes, and the slot changes only by the restore.
pub proof fn lemma_fail_fast_ends_run(state: SequencerView, event: Event, later: Seq<Event>)
    requires
        state.wf(),
        state.plan.config.fail_fast,
        reports_failure(state, event),
    ensures
        state.step(event) matches Some((failed, action)) && {
            &&& failed.outcomes.len() == state.count()
            &&& failed.outcomes.take(state.outcomes.len() as int) == state.outcomes
            &&& failed.outcomes[state.outcomes.len() as int] is LaunchError
            &&& forall|k: int|
                state.outcomes.len() < k < state.count() ==> failed.outcomes[k]
                    == OutcomeView::Skipped
            &&& closing(action)
            &&& failed.store == state.store
            &&& forall|k: int|
                0 <= k < trace(failed, later).len() ==> closing(#[trigger] trace(failed, later)[k])
            &&& run(failed, later).outcomes == failed.outcomes
            &&& (run(failed, later).store.slot == state.store.slot || run(
                failed,
                later,
            ).store.slot == state.store.restore().slot)
        },
{
    let (failed, action) = state.step(event)->0;
    assert(failed.outcomes.take(state.outcomes.len() as int) =~= state.outcomes);
    lemma_ended_run_stays_ended(failed, later);
}

/// Once a run is over, or only the restore is left, it stays so: whatever
/// happens, no action asks for an install, a launch or a prompt, the
/// outcomes stay, and the slot changes only by the restore.
pub proof fn lemma_ended_run_stays_ended(state: SequencerView, events: Seq<Event>)
    requires
        state.wf(),
        ended(state.phase),
    ensures
        ended(run(state, events).phase),
        forall|k: int|
            0 <= k < trace(state, events).len() ==> closing(#[trigger] trace(state, events)[k]),
        run(state, events).outcomes == state.outcomes,
        run(state, events).store == state.store || run(state, events).store
            == state.store.restore(),
        run(state, events).store.saved == state.store.saved,
        run(state, events).store.no_restore == state.store.no_restore,
    decreases events.len(),
{
    if events.len() > 0 {
        lemma_ended_run_stays_ended(state, events.drop_last());
        lemma_run_keeps_wf(state, events.drop_last());
        let before = run(state, events.drop_last());
        let front = trace(state, events.drop_last());
        if before.store == state.store.restore() {
            assert(before.store.restore() == before.store);
        }
        assert forall|k: int| 0 <= k < trace(state, events).len() implies closing(
            #[trigger] trace(state, events)[k],
        ) by {
            if k < front.len() {
                assert(trace(state, events)[k] == front[k]);
            }
        }
    }
}

/// Unless it never restores, a run comes to its end only through the
/// restore: the step that begins to wind it down answers `Restore`, and
/// only the report of the restore ends it.
pub proof fn lemma_restore_precedes_done(state: SequencerView, event: Event)
    requires
        state.wf(),
        !state.plan.config.no_restore,
        state.phase != Phase::Done,
    ensures
        state.step(event) matches Some((next, action)) ==> {
            &&& next.phase == Phase::Done ==> state.phase == Phase::Restoring
                && event is Restored
            &&& next.phase == Phase::Restoring ==> action == Action::Restore
        },
{
}

/// An interruption fits every phase and ends the run at once: nothing is
/// installed or launched any more, every profile has its outcome, and the
/// restore follows unless the run never restores.
pub proof fn lemma_interruption_ends_run(state: SequencerView)
    requires
        state.wf(),
    ensures
        state.step(Event::Interrupted) matches Some((next, action)) && {
            &&& ended(next.phase)
            &&& next.outcomes.len() == state.count()
            &&& next.store == state.store
            &&& closing(action)
            &&& state.phase != Phase::Done && !state.plan.config.no_restore ==> action
                == Action::Restore
        },
{
}

/// The slot is as it was before the run, unless a restore is still owed.
spec fn slot_kept(state: SequencerView, slot: SlotView) -> bool {
    &&& !state.store.no_restore
    &&& match state.store.saved {
        Some(saved) => saved == slot && state.phase != Phase::Idle,
        None => state.store.slot == slot && (state.phase == Phase::Idle || ended(state.phase)),
    }
    &&& state.phase == Phase::Done && state.restore_error is None ==> state.store.slot == slot
}

proof fn lemma_run_keeps_slot(start: SequencerView, events: Seq<Event>, slot: SlotView)
    requires
        start.wf(),
        slot_kept(start, slot),
    ensures
        slot_kept(run(start, events), slot),
    decreases events.len(),
{
    if events.len() > 0 {
        lemma_run_keeps_slot(start, events.drop_last(), slot);
        lemma_run_keeps_wf(start, events.drop_last());
    }
}

/// A run that restores and has come to its end without a restore error
/// leaves in the slot, byte for byte, what was there before the run,
/// whatever was installed in between.
pub proof fn lemma_finished_run_restores_slot(
    plan: PlanView,
    blob: Seq<u8>,
    events: Seq<Event>,
)
    requires
        plan.profiles.len() <= usize::MAX,
        !plan.config.no_restore,
        run(SequencerView::initial(plan, blob), events).phase == Phase::Done,
        run(SequencerView::initial(plan, blob), events).restore_error is None,
    ensures
        run(SequencerView::initial(plan, blob), events).store.slot == StoreView::fresh(
            blob,
            false,
        ).slot,
        run(SequencerView::initial(plan, blob), events).store.slot.blob == blob,
{
    let start = SequencerView::initial(plan, blob);
    lemma_run_keeps_slot(start, events, StoreView::fresh(blob, false).slot);
}

/// When a run is over there is one outcome for each profile of the plan.
pub proof fn lemma_done_run_is_complete(
    plan: PlanView,
    blob: Seq<u8>,
    events: Seq<Event>,
)
    requires
        plan.profiles.len() <= usize::MAX,
        run(SequencerView::initial(plan, blob), events).phase == Phase::Done,
    ensures
        run(SequencerView::initial(plan, blob), events).outcomes.len() == plan.profiles.len(),
{
    lemma_run_keeps_wf(SequencerView::initial(plan, blob), events);
}

} // verus!
