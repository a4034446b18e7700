use nuke::apps::{App, Policy};
use nuke::cli::waits;
use nuke::quit::{Pending, QuitRun, Request, Step};

fn app(pid: i32, name: &str) -> App {
    App {
        pid,
        name: name.to_string(),
        bundle_id: None,
        policy: Policy::Regular,
    }
}

fn two() -> Vec<App> {
    vec![app(1, "Mail"), app(2, "Notes")]
}

fn send(step: &Step) -> (usize, bool) {
    match step.request {
        Request::Send { target, force } => (target, force),
        _ => panic!("expected a send"),
    }
}

fn wait(step: &Step) -> (Vec<usize>, u64) {
    match &step.request {
        Request::Wait { targets, secs } => (targets.clone(), *secs),
        _ => panic!("expected a wait"),
    }
}

fn exit(step: &Step) -> u8 {
    match step.request {
        Request::Exit(code) => code,
        _ => panic!("expected an exit"),
    }
}

#[test]
fn nothing_to_quit() {
    let (run, step) = QuitRun::start(vec![], false, false, false, false, waits(None, None, None, None));
    assert_eq!(step.out, ["Nothing to quit."]);
    assert_eq!(exit(&step), 0);
    assert_eq!(run.pending(), Pending::Nothing);
    let (_, quiet) = QuitRun::start(vec![], false, false, false, true, waits(None, None, None, None));
    assert!(quiet.out.is_empty());
    assert_eq!(exit(&quiet), 0);
}

#[test]
fn dry_run_announces_and_sends_nothing() {
    let (run, step) = QuitRun::start(two(), true, false, false, true, waits(None, None, None, None));
    assert_eq!(step.out, ["Quitting Mail (pid 1)", "Quitting Notes (pid 2)"]);
    assert_eq!(exit(&step), 0);
    assert_eq!(run.pending(), Pending::Nothing);
}

#[test]
fn graceful_run_with_a_holdout() {
    let (mut run, step) = QuitRun::start(two(), false, false, false, false, waits(Some(3), None, None, None));
    assert_eq!(step.out, ["Quitting Mail (pid 1)", "Quitting Notes (pid 2)"]);
    assert_eq!(send(&step), (0, false));
    let step = run.delivered(true);
    assert_eq!(send(&step), (1, false));
    let step = run.delivered(true);
    assert_eq!(wait(&step), (vec![0, 1], 3));
    let step = run.still_running(&[false, true]);
    assert_eq!(step.err, ["nuke: Notes (pid 2) is still running (unsaved changes?)"]);
    assert_eq!(step.out, ["Quit 1 of 2 apps."]);
    assert_eq!(exit(&step), 1);
    assert_eq!(run.pending(), Pending::Nothing);
}

#[test]
fn undelivered_quit_is_reported_and_counted() {
    let (mut run, _) = QuitRun::start(two(), false, false, false, true, waits(None, None, None, None));
    let step = run.delivered(false);
    assert_eq!(step.err, ["nuke: could not send quit to Mail (pid 1)"]);
    assert_eq!(send(&step), (1, false));
    let step = run.delivered(true);
    assert_eq!(wait(&step), (vec![1], 5));
    let step = run.still_running(&[false]);
    assert!(step.out.is_empty());
    assert!(step.err.is_empty());
    assert_eq!(exit(&step), 1);
}

#[test]
fn no_wait_exits_after_sending() {
    let (mut run, _) = QuitRun::start(vec![app(1, "Mail")], false, true, true, false, waits(None, None, None, None));
    let step = run.delivered(true);
    assert_eq!(exit(&step), 0);
    let (mut run, step) = QuitRun::start(vec![app(1, "Mail")], false, true, true, false, waits(None, None, None, None));
    assert_eq!(step.out, ["Force quitting Mail (pid 1)"]);
    assert_eq!(send(&step), (0, true));
    assert_eq!(exit(&run.delivered(false)), 1);
}

#[test]
fn stragglers_are_force_quit_after_force_after() {
    let w = waits(Some(4), None, Some(10), None);
    let (mut run, _) = QuitRun::start(two(), false, false, false, false, w);
    run.delivered(true);
    let step = run.delivered(true);
    assert_eq!(wait(&step), (vec![0, 1], 10));
    let step = run.still_running(&[true, true]);
    assert_eq!(step.out, ["Force quitting Mail (pid 1) (still running after 10s)"]);
    assert_eq!(send(&step), (0, true));
    let step = run.delivered(false);
    assert_eq!(step.err, ["nuke: could not force quit Mail (pid 1)"]);
    assert_eq!(step.out, ["Force quitting Notes (pid 2) (still running after 10s)"]);
    assert_eq!(send(&step), (1, true));
    let step = run.delivered(true);
    assert_eq!(wait(&step), (vec![0, 1], 4));
    let step = run.still_running(&[true, false]);
    assert_eq!(step.err, ["nuke: Mail (pid 1) is still running (unsaved changes?)"]);
    assert_eq!(step.out, ["Quit 1 of 2 apps."]);
    assert_eq!(exit(&step), 1);
}

#[test]
fn everything_quits_cleanly() {
    let (mut run, _) = QuitRun::start(vec![app(1, "Mail")], false, false, false, false, waits(None, None, Some(10), None));
    let step = run.delivered(true);
    assert_eq!(wait(&step), (vec![0], 10));
    let step = run.still_running(&[false]);
    assert_eq!(step.out, ["Quit 1 of 1 app."]);
    assert_eq!(exit(&step), 0);
}
