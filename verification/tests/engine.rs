use haze::engine::{Action, Progress, TransferRun};
use haze::error::Error;
use haze::transfer::{Direction, Transfer, TransferPlan};

fn text(value: &str) -> String {
    value.to_string()
}

fn export_of(name: &str, replace: bool) -> Transfer {
    Transfer {
        direction: Direction::Export,
        from: format!("worlds/{name}"),
        to: format!("target/{name}"),
        replace,
    }
}

fn remove(name: &str) -> Action {
    Action::Remove { path: format!("target/{name}") }
}

fn copy(name: &str) -> Action {
    Action::Copy { from: format!("worlds/{name}"), to: format!("target/{name}") }
}

fn report(name: &str) -> Action {
    Action::Report { line: format!("exported worlds/{name} to target/{name}") }
}

fn next_of(progress: Progress) -> (Action, TransferRun) {
    match progress {
        Progress::Next(action, run) => (action, run),
        Progress::Done(ending) => panic!("the run ended with {ending:?}"),
    }
}

fn ending_of(progress: Progress) -> Result<(), Error> {
    match progress {
        Progress::Done(ending) => ending,
        Progress::Next(action, _) => panic!("the run asks for {action:?}"),
    }
}

/// Carries out `plan` with every action but the one at `failing` going
/// well. Gives the actions asked for and how the run ended.
fn carry_out(plan: TransferPlan, failing: Option<usize>) -> (Vec<Action>, Result<(), Error>) {
    let mut actions = Vec::new();
    let mut progress = plan.start().advance(None);
    loop {
        match progress {
            Progress::Done(ending) => return (actions, ending),
            Progress::Next(action, run) => {
                let failure = if failing == Some(actions.len()) {
                    Some(text("it failed"))
                } else {
                    None
                };
                actions.push(action);
                progress = run.advance(failure);
            }
        }
    }
}

#[test]
fn an_empty_plan_ends_at_once() {
    let plan = TransferPlan { transfers: vec![], halt: None };
    assert_eq!(ending_of(plan.start().advance(None)), Ok(()));
}

#[test]
fn an_empty_plan_ends_with_its_error() {
    let halt = Error::ExportWithoutOverwriteAllowed { name: text("foo") };
    let plan = TransferPlan { transfers: vec![], halt: Some(halt.clone()) };
    assert_eq!(ending_of(plan.start().advance(None)), Err(halt));
}

#[test]
fn a_transfer_is_copied_then_reported() {
    let plan = TransferPlan { transfers: vec![export_of("foo", false)], halt: None };

    let (action, run) = next_of(plan.start().advance(None));
    assert_eq!(action, copy("foo"));
    let (action, run) = next_of(run.advance(None));
    assert_eq!(action, report("foo"));
    assert_eq!(ending_of(run.advance(None)), Ok(()));
}

#[test]
fn a_replaced_destination_is_removed_first() {
    let plan = TransferPlan { transfers: vec![export_of("foo", true)], halt: None };

    let (action, run) = next_of(plan.start().advance(None));
    assert_eq!(action, remove("foo"));
    let (action, run) = next_of(run.advance(None));
    assert_eq!(action, copy("foo"));
    let (action, run) = next_of(run.advance(None));
    assert_eq!(action, report("foo"));
    assert_eq!(ending_of(run.advance(None)), Ok(()));
}

#[test]
fn a_plan_is_carried_out_in_order() {
    let plan = TransferPlan {
        transfers: vec![export_of("a", false), export_of("b", true), export_of("c", false)],
        halt: None,
    };
    let (actions, ending) = carry_out(plan, None);

    assert_eq!(
        actions,
        vec![
            copy("a"),
            report("a"),
            remove("b"),
            copy("b"),
            report("b"),
            copy("c"),
            report("c"),
        ]
    );
    assert_eq!(ending, Ok(()));
}

#[test]
fn the_error_of_the_plan_comes_after_its_transfers() {
    let halt = Error::ExportWithoutOverwriteAllowed { name: text("b") };
    let plan = TransferPlan { transfers: vec![export_of("a", false)], halt: Some(halt.clone()) };
    let (actions, ending) = carry_out(plan, None);

    assert_eq!(actions, vec![copy("a"), report("a")]);
    assert_eq!(ending, Err(halt));
}

#[test]
fn a_failed_removal_ends_the_run() {
    let plan = TransferPlan {
        transfers: vec![export_of("a", true), export_of("b", false)],
        halt: None,
    };
    let (actions, ending) = carry_out(plan, Some(0));

    assert_eq!(actions, vec![remove("a")]);
    assert_eq!(
        ending,
        Err(Error::WorldAccessFailure { source: text("it failed"), path: text("target/a") })
    );
}

#[test]
fn a_failed_copy_ends_the_run() {
    let plan = TransferPlan {
        transfers: vec![export_of("a", false), export_of("b", true), export_of("c", false)],
        halt: Some(Error::ExportWithoutOverwriteAllowed { name: text("d") }),
    };
    let (actions, ending) = carry_out(plan, Some(3));

    assert_eq!(actions, vec![copy("a"), report("a"), remove("b"), copy("b")]);
    assert_eq!(
        ending,
        Err(Error::WorldCopyFailure {
            source: text("it failed"),
            from: text("worlds/b"),
            to: text("target/b"),
        })
    );
}

#[test]
fn a_report_cannot_fail() {
    let plan = TransferPlan {
        transfers: vec![export_of("a", false), export_of("b", false)],
        halt: None,
    };
    let (actions, ending) = carry_out(plan, Some(1));

    assert_eq!(actions, vec![copy("a"), report("a"), copy("b"), report("b")]);
    assert_eq!(ending, Ok(()));
}

#[test]
fn an_import_reports_the_way_back() {
    let transfer = Transfer {
        direction: Direction::Import,
        from: text("target/foo"),
        to: text("worlds/foo"),
        replace: true,
    };
    let (actions, ending) = carry_out(TransferPlan { transfers: vec![transfer], halt: None }, None);

    assert_eq!(
        actions,
        vec![
            Action::Remove { path: text("worlds/foo") },
            Action::Copy { from: text("target/foo"), to: text("worlds/foo") },
            Action::Report { line: text("imported `target/foo` to `worlds/foo`") },
        ]
    );
    assert_eq!(ending, Ok(()));
}
