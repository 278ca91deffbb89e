use aurene::error::Error;
use aurene::plan::{Config, LaunchPlan};
use aurene::profile::Profile;
use aurene::sequencer::{Action, Event, LaunchOutcome, LaunchSequencer, Phase, RunSummary};

fn plan_of(count: usize, config: Config) -> LaunchPlan {
    let profiles: Vec<Profile> = (0..count)
        .map(|k| Profile::found("/profiles", &format!("p{}.dat", k)).unwrap())
        .collect();
    LaunchPlan::new(profiles, config)
}

fn config(auto_chain: bool, fail_fast: bool, no_restore: bool, fail_silent: bool) -> Config {
    let mut c = Config::default();
    c.auto_chain = auto_chain;
    c.fail_fast = fail_fast;
    c.no_restore = no_restore;
    c.fail_silent = fail_silent;
    c
}

fn drive(seq: &mut LaunchSequencer, events: Vec<Event>) -> Vec<Action> {
    events.into_iter().map(|e| seq.step(e).unwrap()).collect()
}

fn launch_ok(code: i32, blob: &[u8]) -> Vec<Event> {
    vec![Event::Installed(Ok(blob.to_vec())), Event::Spawned(Ok(())), Event::Exited(code)]
}

fn summary(seq: &LaunchSequencer) -> RunSummary {
    seq.summary().unwrap()
}

#[test]
fn process_failure_does_not_stop_a_prompted_run() {
    let mut seq = LaunchSequencer::new(plan_of(3, config(false, false, false, false)), b"slot".to_vec());
    let mut actions = drive(&mut seq, vec![Event::Start]);
    actions.extend(drive(&mut seq, launch_ok(0, b"zero")));
    actions.extend(drive(&mut seq, vec![Event::Confirmed(true)]));
    actions.extend(drive(&mut seq, launch_ok(7, b"one")));
    assert_eq!(seq.phase(), Phase::Confirming(1));
    assert_eq!(actions.last(), Some(&Action::Confirm(1)));
    actions.extend(drive(&mut seq, vec![Event::Confirmed(true)]));
    actions.extend(drive(&mut seq, launch_ok(0, b"two")));
    actions.extend(drive(&mut seq, vec![Event::Restored(Ok(()))]));
    assert_eq!(
        actions,
        vec![
            Action::Install(0),
            Action::Launch(0),
            Action::Wait(0),
            Action::Confirm(0),
            Action::Install(1),
            Action::Launch(1),
            Action::Wait(1),
            Action::Confirm(1),
            Action::Install(2),
            Action::Launch(2),
            Action::Wait(2),
            Action::Restore,
            Action::Finish,
        ]
    );
    let s = summary(&seq);
    assert_eq!(
        s.outcomes,
        vec![LaunchOutcome::Succeeded, LaunchOutcome::ProcessFailed(7), LaunchOutcome::Succeeded]
    );
    assert_eq!(s.restore_error, None);
    assert_eq!(s.exit_code(), 1);
    assert_eq!(seq.store().contents(), b"slot");
}

#[test]
fn fail_fast_skips_the_rest_and_still_restores() {
    let mut seq = LaunchSequencer::new(plan_of(3, config(false, true, false, false)), b"slot".to_vec());
    let actions = drive(
        &mut seq,
        vec![Event::Start, Event::Installed(Err("disk full".to_string()))],
    );
    assert_eq!(actions, vec![Action::Install(0), Action::Restore]);
    assert_eq!(seq.phase(), Phase::Restoring);
    assert_eq!(
        *seq.outcomes(),
        vec![
            LaunchOutcome::LaunchError("disk full".to_string()),
            LaunchOutcome::Skipped,
            LaunchOutcome::Skipped,
        ]
    );
    assert!(seq.summary().is_none());
    assert_eq!(drive(&mut seq, vec![Event::Restored(Ok(()))]), vec![Action::Finish]);
    let s = summary(&seq);
    assert_eq!(s.outcomes.len(), 3);
    assert_eq!(s.exit_code(), 1);
    assert_eq!(seq.store().contents(), b"slot");
}

#[test]
fn fail_fast_with_no_restore_finishes_at_once() {
    let mut seq = LaunchSequencer::new(plan_of(3, config(false, true, true, false)), b"slot".to_vec());
    let actions = drive(
        &mut seq,
        vec![Event::Start, Event::Installed(Err("disk full".to_string()))],
    );
    assert_eq!(actions, vec![Action::Install(0), Action::Finish]);
    assert!(seq.is_done());
}

#[test]
fn fail_fast_stops_at_a_game_that_does_not_start() {
    let mut seq = LaunchSequencer::new(plan_of(3, config(true, true, false, false)), b"slot".to_vec());
    let mut events = vec![Event::Start];
    events.extend(launch_ok(0, b"zero"));
    events.push(Event::Installed(Ok(b"one".to_vec())));
    events.push(Event::Spawned(Err("not found".to_string())));
    let actions = drive(&mut seq, events);
    assert_eq!(actions.last(), Some(&Action::Restore));
    assert_eq!(
        *seq.outcomes(),
        vec![
            LaunchOutcome::Succeeded,
            LaunchOutcome::LaunchError("not found".to_string()),
            LaunchOutcome::Skipped,
        ]
    );
    assert_eq!(seq.store().contents(), b"one");
    assert!(seq.step(Event::Installed(Ok(b"two".to_vec()))).is_err());
    assert_eq!(seq.store().contents(), b"one");
    drive(&mut seq, vec![Event::Restored(Ok(()))]);
    assert_eq!(seq.store().contents(), b"slot");
}

#[test]
fn without_fail_fast_a_failure_is_confirmed_and_the_run_goes_on() {
    let mut seq = LaunchSequencer::new(plan_of(2, config(true, false, false, false)), b"slot".to_vec());
    let actions = drive(
        &mut seq,
        vec![Event::Start, Event::Installed(Err("denied".to_string())), Event::Confirmed(true)],
    );
    assert_eq!(actions, vec![Action::Install(0), Action::Confirm(0), Action::Install(1)]);
    let mut rest = launch_ok(0, b"one");
    rest.push(Event::Restored(Ok(())));
    drive(&mut seq, rest);
    assert_eq!(
        summary(&seq).outcomes,
        vec![LaunchOutcome::LaunchError("denied".to_string()), LaunchOutcome::Succeeded]
    );
}

#[test]
fn fail_silent_ends_the_run_without_asking() {
    let mut seq = LaunchSequencer::new(plan_of(3, config(false, false, false, true)), b"slot".to_vec());
    let actions = drive(
        &mut seq,
        vec![Event::Start, Event::Installed(Err("denied".to_string()))],
    );
    assert_eq!(actions, vec![Action::Install(0), Action::Restore]);
    assert_eq!(
        *seq.outcomes(),
        vec![
            LaunchOutcome::LaunchError("denied".to_string()),
            LaunchOutcome::Skipped,
            LaunchOutcome::Skipped,
        ]
    );
}

#[test]
fn auto_chain_launches_without_asking() {
    let mut seq = LaunchSequencer::new(plan_of(2, config(true, false, false, false)), b"slot".to_vec());
    let mut events = vec![Event::Start];
    events.extend(launch_ok(0, b"zero"));
    events.extend(launch_ok(0, b"one"));
    events.push(Event::Restored(Ok(())));
    let actions = drive(&mut seq, events);
    assert!(!actions.iter().any(|a| matches!(a, Action::Confirm(_))));
    let s = summary(&seq);
    assert_eq!(s.outcomes, vec![LaunchOutcome::Succeeded, LaunchOutcome::Succeeded]);
    assert_eq!(s.exit_code(), 0);
}

#[test]
fn last_profile_is_not_followed_by_a_prompt() {
    let mut seq = LaunchSequencer::new(plan_of(1, config(false, false, false, false)), b"slot".to_vec());
    let mut events = vec![Event::Start];
    events.extend(launch_ok(0, b"zero"));
    let actions = drive(&mut seq, events);
    assert_eq!(
        actions,
        vec![Action::Install(0), Action::Launch(0), Action::Wait(0), Action::Restore]
    );
}

#[test]
fn no_restore_never_asks_for_a_restore() {
    let mut seq = LaunchSequencer::new(plan_of(2, config(false, false, true, false)), b"slot".to_vec());
    let mut events = vec![Event::Start];
    events.extend(launch_ok(0, b"zero"));
    events.push(Event::Confirmed(true));
    events.extend(launch_ok(2, b"one"));
    let actions = drive(&mut seq, events);
    assert!(!actions.contains(&Action::Restore));
    assert_eq!(actions.last(), Some(&Action::Finish));
    assert!(seq.is_done());
    assert_eq!(seq.store().contents(), b"one");
    assert!(seq.step(Event::Restored(Ok(()))).is_err());
    let mut seq = LaunchSequencer::new(plan_of(2, config(false, false, true, false)), b"slot".to_vec());
    assert_eq!(drive(&mut seq, vec![Event::Start, Event::Interrupted]), vec![Action::Install(0), Action::Finish]);
}

#[test]
fn declined_prompt_skips_the_rest() {
    let mut seq = LaunchSequencer::new(plan_of(3, config(false, false, false, false)), b"slot".to_vec());
    let mut events = vec![Event::Start];
    events.extend(launch_ok(0, b"zero"));
    events.push(Event::Confirmed(false));
    let actions = drive(&mut seq, events);
    assert_eq!(actions.last(), Some(&Action::Restore));
    assert_eq!(
        *seq.outcomes(),
        vec![LaunchOutcome::Succeeded, LaunchOutcome::Skipped, LaunchOutcome::Skipped]
    );
}

#[test]
fn interruption_ends_the_run_and_still_restores() {
    let mut seq = LaunchSequencer::new(plan_of(3, config(true, false, false, false)), b"slot".to_vec());
    let mut events = vec![Event::Start];
    events.extend(launch_ok(0, b"zero"));
    events.push(Event::Installed(Ok(b"one".to_vec())));
    events.push(Event::Spawned(Ok(())));
    events.push(Event::Interrupted);
    let actions = drive(&mut seq, events);
    assert_eq!(actions.last(), Some(&Action::Restore));
    assert_eq!(
        *seq.outcomes(),
        vec![
            LaunchOutcome::Succeeded,
            LaunchOutcome::LaunchError("interrupted".to_string()),
            LaunchOutcome::Skipped,
        ]
    );
    assert_eq!(drive(&mut seq, vec![Event::Interrupted]), vec![Action::Restore]);
    assert_eq!(drive(&mut seq, vec![Event::Restored(Ok(()))]), vec![Action::Finish]);
    assert_eq!(drive(&mut seq, vec![Event::Interrupted]), vec![Action::Finish]);
    assert_eq!(seq.store().contents(), b"slot");
}

#[test]
fn interruption_before_the_start_skips_everything() {
    let mut seq = LaunchSequencer::new(plan_of(2, config(false, false, false, false)), b"slot".to_vec());
    assert_eq!(drive(&mut seq, vec![Event::Interrupted]), vec![Action::Restore]);
    assert_eq!(*seq.outcomes(), vec![LaunchOutcome::Skipped, LaunchOutcome::Skipped]);
    assert!(!seq.store().restorable());
}

#[test]
fn failed_restore_is_reported_and_does_not_hide_the_outcomes() {
    let mut seq = LaunchSequencer::new(plan_of(1, config(false, false, false, false)), b"slot".to_vec());
    let mut events = vec![Event::Start];
    events.extend(launch_ok(0, b"zero"));
    events.push(Event::Restored(Err("file is gone".to_string())));
    let actions = drive(&mut seq, events);
    assert_eq!(actions.last(), Some(&Action::Finish));
    let s = summary(&seq);
    assert_eq!(s.outcomes, vec![LaunchOutcome::Succeeded]);
    assert_eq!(s.restore_error, Some(Error::RestoreError("file is gone".to_string())));
    assert_eq!(s.exit_code(), 0);
    assert_eq!(seq.store().contents(), b"zero");
}

#[test]
fn empty_plan_goes_straight_to_the_end() {
    let mut seq = LaunchSequencer::new(plan_of(0, config(false, false, false, false)), b"slot".to_vec());
    assert_eq!(
        drive(&mut seq, vec![Event::Start, Event::Restored(Ok(()))]),
        vec![Action::Restore, Action::Finish]
    );
    let s = summary(&seq);
    assert!(s.outcomes.is_empty());
    assert_eq!(s.exit_code(), 0);
}

#[test]
fn event_that_does_not_fit_is_refused_and_changes_nothing() {
    let mut seq = LaunchSequencer::new(plan_of(2, config(false, false, false, false)), b"slot".to_vec());
    assert_eq!(
        seq.step(Event::Exited(0)),
        Err(Error::GenericError("unexpected event".to_string()))
    );
    assert_eq!(seq.phase(), Phase::Idle);
    drive(&mut seq, vec![Event::Start]);
    assert!(seq.step(Event::Start).is_err());
    assert!(seq.step(Event::Spawned(Ok(()))).is_err());
    assert!(seq.step(Event::Confirmed(true)).is_err());
    assert!(seq.step(Event::Restored(Ok(()))).is_err());
    assert_eq!(seq.phase(), Phase::Installing(0));
    assert!(seq.outcomes().is_empty());
    assert_eq!(seq.plan().len(), 2);
}

#[test]
fn outcome_errors() {
    assert_eq!(LaunchOutcome::Succeeded.error(), None);
    assert_eq!(LaunchOutcome::Skipped.error(), None);
    assert_eq!(LaunchOutcome::ProcessFailed(3).error(), Some(Error::ProcessFailed(3)));
    assert_eq!(
        LaunchOutcome::LaunchError("x".to_string()).error(),
        Some(Error::LaunchError("x".to_string()))
    );
}

#[test]
fn exit_code_is_zero_only_for_full_success() {
    let of = |outcomes: Vec<LaunchOutcome>| RunSummary { outcomes, restore_error: None }.exit_code();
    assert_eq!(of(vec![]), 0);
    assert_eq!(of(vec![LaunchOutcome::Succeeded, LaunchOutcome::Succeeded]), 0);
    assert_eq!(of(vec![LaunchOutcome::Succeeded, LaunchOutcome::ProcessFailed(2)]), 1);
    assert_eq!(of(vec![LaunchOutcome::LaunchError("x".to_string())]), 1);
    assert_eq!(of(vec![LaunchOutcome::Succeeded, LaunchOutcome::Skipped]), 1);
}

#[test]
fn replay_answers_each_fitting_event_and_passes_over_the_others() {
    let mut seq = LaunchSequencer::new(plan_of(2, config(true, true, false, false)), b"slot".to_vec());
    let actions = seq.replay(vec![
        Event::Exited(1),
        Event::Start,
        Event::Start,
        Event::Installed(Ok(b"zero".to_vec())),
        Event::Spawned(Ok(())),
        Event::Confirmed(true),
        Event::Exited(0),
        Event::Installed(Ok(b"one".to_vec())),
        Event::Spawned(Err("missing".to_string())),
        Event::Installed(Ok(b"late".to_vec())),
        Event::Restored(Ok(())),
        Event::Restored(Ok(())),
    ]);
    assert_eq!(
        actions,
        vec![
            Action::Install(0),
            Action::Launch(0),
            Action::Wait(0),
            Action::Install(1),
            Action::Launch(1),
            Action::Restore,
            Action::Finish,
        ]
    );
    assert!(seq.is_done());
    assert_eq!(
        summary(&seq).outcomes,
        vec![LaunchOutcome::Succeeded, LaunchOutcome::LaunchError("missing".to_string())]
    );
    assert_eq!(seq.store().contents(), b"slot");
    assert!(seq.replay(Vec::new()).is_empty());
}
