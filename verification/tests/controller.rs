use precommit::{
    Action, Catalog, ChangeKind, ChangedFile, ConfigurationError, EnvironmentError, Event, Hook,
    HookCommand, HookOutcome, Invocation, RunController, RunReport, Selection,
};

fn run_command(program: &str, arguments: &[&str]) -> HookCommand {
    HookCommand {
        command: program.to_string(),
        arguments: arguments.iter().map(|s| s.to_string()).collect(),
    }
}

fn run_hook(name: &str, pattern: &str, commands: Vec<HookCommand>) -> Hook {
    Hook {
        name: name.to_string(),
        selection: Selection::Regex(pattern.to_string()),
        commands,
        description: None,
    }
}

fn run_file(path: &str, kind: ChangeKind) -> ChangedFile {
    ChangedFile::new(path.to_string(), kind)
}

fn run_names(items: &[&str]) -> Vec<String> {
    items.iter().map(|s| s.to_string()).collect()
}

fn invocation(program: &str, args: &[&str]) -> Invocation {
    Invocation { program: program.to_string(), args: run_names(args) }
}

fn ran(name: &str, failed: bool) -> HookOutcome {
    HookOutcome { hook_name: name.to_string(), ran: true, failed }
}

fn lint_catalog(program: &str) -> Catalog {
    Catalog::new(vec![run_hook("lint", "\\.rs$", vec![run_command(program, &[])])]).unwrap()
}

fn two_files() -> Vec<ChangedFile> {
    vec![run_file("a.rs", ChangeKind::Modified), run_file("b.txt", ChangeKind::Modified)]
}

/// What a run asked for from its begin to its end.
#[derive(Debug, PartialEq)]
struct Course {
    started: Vec<Invocation>,
    announced: Vec<HookOutcome>,
    last: Action,
}

/// Runs to the end, answering each command by what the program named like
/// `true` or `false` would answer.
fn drive(mut controller: RunController) -> Course {
    let mut started: Vec<Invocation> = Vec::new();
    let mut announced: Vec<HookOutcome> = Vec::new();
    let mut event = Event::Continue;
    loop {
        let (next, action) = controller.step(event);
        controller = next;
        match action {
            Action::Run(invocation) => {
                event = if invocation.program == "missing" {
                    Event::SpawnFailed
                } else {
                    Event::Exited { succeeded: invocation.program != "false" }
                };
                started.push(invocation);
            },
            Action::Report(outcome) => {
                event = Event::Continue;
                announced.push(outcome);
            },
            last => return Course { started, announced, last },
        }
    }
}

fn finished(outcomes: Vec<HookOutcome>) -> Action {
    let overall_failed = outcomes.iter().any(|outcome| outcome.failed);
    Action::Finish(RunReport { outcomes, overall_failed })
}

#[test]
fn passing_hook_is_reported_as_passed() {
    let catalog = lint_catalog("true");
    let controller = RunController::new(false, Some(&catalog), &Vec::new(), &two_files()).unwrap();
    let course = drive(controller);
    assert_eq!(course.started, vec![invocation("true", &[])]);
    assert_eq!(course.announced, vec![ran("lint", false)]);
    assert_eq!(
        course.last,
        Action::Finish(RunReport { outcomes: vec![ran("lint", false)], overall_failed: false })
    );
}

#[test]
fn failing_hook_is_reported_as_failed() {
    let catalog = lint_catalog("false");
    let controller = RunController::new(false, Some(&catalog), &Vec::new(), &two_files()).unwrap();
    let course = drive(controller);
    assert_eq!(course.started, vec![invocation("false", &[])]);
    assert_eq!(course.announced, vec![ran("lint", true)]);
    assert_eq!(
        course.last,
        Action::Finish(RunReport { outcomes: vec![ran("lint", true)], overall_failed: true })
    );
}

#[test]
fn skipped_hook_gives_an_empty_report() {
    let catalog = lint_catalog("false");
    let controller =
        RunController::new(false, Some(&catalog), &run_names(&["lint"]), &two_files()).unwrap();
    let course = drive(controller);
    assert!(course.started.is_empty());
    assert!(course.announced.is_empty());
    assert_eq!(
        course.last,
        Action::Finish(RunReport { outcomes: Vec::new(), overall_failed: false })
    );
}

#[test]
fn merge_gives_an_empty_report() {
    let catalog = lint_catalog("false");
    let controller = RunController::new(true, Some(&catalog), &Vec::new(), &two_files()).unwrap();
    let course = drive(controller);
    assert!(course.started.is_empty());
    assert!(course.announced.is_empty());
    assert_eq!(
        course.last,
        Action::Finish(RunReport { outcomes: Vec::new(), overall_failed: false })
    );
}

#[test]
fn merge_wins_over_an_invalid_pattern() {
    let catalog =
        Catalog::new(vec![run_hook("bad", "(", vec![run_command("false", &[])])]).unwrap();
    let controller = RunController::new(true, Some(&catalog), &Vec::new(), &two_files()).unwrap();
    let course = drive(controller);
    assert!(course.started.is_empty());
    assert_eq!(course.last, finished(Vec::new()));
}

#[test]
fn merge_wins_over_skip_and_files() {
    let catalog = lint_catalog("false");
    let controller =
        RunController::new(true, Some(&catalog), &run_names(&["other"]), &Vec::new()).unwrap();
    assert_eq!(drive(controller).last, finished(Vec::new()));
}

#[test]
fn missing_bucket_is_a_success_without_work() {
    let controller = RunController::new(false, None, &Vec::new(), &two_files()).unwrap();
    let course = drive(controller);
    assert!(course.started.is_empty());
    assert!(course.announced.is_empty());
    assert_eq!(course.last, finished(Vec::new()));
}

#[test]
fn invalid_pattern_ends_the_run_before_it_begins() {
    let catalog = Catalog::new(vec![
        run_hook("lint", "\\.rs$", vec![run_command("true", &[])]),
        run_hook("bad", "(", vec![run_command("true", &[])]),
    ])
    .unwrap();
    let made = RunController::new(false, Some(&catalog), &Vec::new(), &two_files());
    assert_eq!(
        made.err(),
        Some(ConfigurationError::InvalidPattern {
            hook: "bad".to_string(),
            pattern: "(".to_string(),
        })
    );
}

#[test]
fn hook_without_match_is_silent() {
    let catalog = Catalog::new(vec![
        run_hook("py", "\\.py$", vec![run_command("false", &[])]),
        run_hook("rs", "\\.rs$", vec![run_command("true", &[])]),
    ])
    .unwrap();
    let controller = RunController::new(false, Some(&catalog), &Vec::new(), &two_files()).unwrap();
    let course = drive(controller);
    assert_eq!(course.started, vec![invocation("true", &[])]);
    assert_eq!(course.announced, vec![ran("rs", false)]);
    assert_eq!(course.last, finished(vec![ran("rs", false)]));
}

#[test]
fn later_command_runs_after_an_earlier_one_failed() {
    let catalog = Catalog::new(vec![run_hook(
        "lint",
        "\\.rs$",
        vec![run_command("false", &["<filename>"]), run_command("true", &["<filename>"])],
    )])
    .unwrap();
    let files = vec![run_file("a.rs", ChangeKind::Modified), run_file("b.rs", ChangeKind::Added)];
    let controller = RunController::new(false, Some(&catalog), &Vec::new(), &files).unwrap();
    let course = drive(controller);
    assert_eq!(
        course.started,
        vec![
            invocation("false", &["a.rs"]),
            invocation("true", &["a.rs"]),
            invocation("false", &["b.rs"]),
            invocation("true", &["b.rs"]),
        ]
    );
    assert_eq!(course.last, finished(vec![ran("lint", true)]));
}

#[test]
fn failure_of_one_hook_does_not_stop_the_others() {
    let catalog = Catalog::new(vec![
        run_hook("first", "", vec![run_command("false", &[])]),
        run_hook("second", "", vec![run_command("true", &[])]),
        run_hook("third", "", vec![run_command("true", &[]), run_command("false", &[])]),
    ])
    .unwrap();
    let files = vec![run_file("a", ChangeKind::Modified)];
    let controller = RunController::new(false, Some(&catalog), &Vec::new(), &files).unwrap();
    let course = drive(controller);
    assert_eq!(course.started.len(), 4);
    let outcomes = vec![ran("first", true), ran("second", false), ran("third", true)];
    assert_eq!(course.announced, outcomes);
    assert_eq!(course.last, Action::Finish(RunReport { outcomes, overall_failed: true }));
}

#[test]
fn failure_does_not_leak_into_the_next_hook() {
    let catalog = Catalog::new(vec![
        run_hook("first", "", vec![run_command("true", &[]), run_command("false", &[])]),
        run_hook("second", "", vec![run_command("true", &[])]),
    ])
    .unwrap();
    let files = vec![run_file("a", ChangeKind::Modified)];
    let controller = RunController::new(false, Some(&catalog), &Vec::new(), &files).unwrap();
    assert_eq!(drive(controller).last, finished(vec![ran("first", true), ran("second", false)]));
}

#[test]
fn hook_without_commands_is_reported_as_passed() {
    let catalog = Catalog::new(vec![
        run_hook("noop", "\\.rs$", Vec::new()),
        run_hook("lint", "\\.rs$", vec![run_command("true", &[])]),
        run_hook("tail", "\\.rs$", Vec::new()),
    ])
    .unwrap();
    let controller = RunController::new(false, Some(&catalog), &Vec::new(), &two_files()).unwrap();
    let course = drive(controller);
    assert_eq!(course.started.len(), 1);
    let outcomes = vec![ran("noop", false), ran("lint", false), ran("tail", false)];
    assert_eq!(course.announced, outcomes);
    assert_eq!(course.last, finished(outcomes));
}

#[test]
fn outcome_of_a_hook_comes_before_the_commands_of_the_next() {
    let catalog = Catalog::new(vec![
        run_hook("noop", "", Vec::new()),
        run_hook("first", "", vec![run_command("false", &[])]),
        run_hook("second", "", vec![run_command("true", &[])]),
    ])
    .unwrap();
    let files = vec![run_file("a", ChangeKind::Modified)];
    let controller = RunController::new(false, Some(&catalog), &Vec::new(), &files).unwrap();
    let (controller, action) = controller.step(Event::Continue);
    assert_eq!(action, Action::Report(ran("noop", false)));
    let (controller, action) = controller.step(Event::Continue);
    assert_eq!(action, Action::Run(invocation("false", &[])));
    let (controller, action) = controller.step(Event::Exited { succeeded: false });
    assert_eq!(action, Action::Report(ran("first", true)));
    let (controller, action) = controller.step(Event::Continue);
    assert_eq!(action, Action::Run(invocation("true", &[])));
    let (controller, action) = controller.step(Event::Exited { succeeded: true });
    assert_eq!(action, Action::Report(ran("second", false)));
    let (_, action) = controller.step(Event::Continue);
    assert_eq!(
        action,
        finished(vec![ran("noop", false), ran("first", true), ran("second", false)])
    );
}

#[test]
fn command_that_cannot_start_gives_the_run_up() {
    let catalog = Catalog::new(vec![
        run_hook("first", "", vec![run_command("false", &[])]),
        run_hook("second", "", vec![run_command("true", &[]), run_command("missing", &["x"])]),
        run_hook("third", "", vec![run_command("true", &[])]),
    ])
    .unwrap();
    let files = vec![run_file("a", ChangeKind::Modified), run_file("b", ChangeKind::Modified)];
    let controller = RunController::new(false, Some(&catalog), &Vec::new(), &files).unwrap();
    let course = drive(controller);
    assert_eq!(course.started.len(), 4);
    assert_eq!(course.announced, vec![ran("first", true)]);
    assert_eq!(
        course.last,
        Action::Abort {
            error: EnvironmentError { hook: "second".to_string(), program: "missing".to_string() },
            report: RunReport { outcomes: vec![ran("first", true)], overall_failed: true },
        }
    );
}

#[test]
fn a_run_that_was_given_up_stays_so() {
    let catalog = lint_catalog("missing");
    let controller = RunController::new(false, Some(&catalog), &Vec::new(), &two_files()).unwrap();
    let (controller, first) = controller.step(Event::Continue);
    assert_eq!(first, Action::Run(invocation("missing", &[])));
    let (controller, given_up) = controller.step(Event::SpawnFailed);
    let expected = Action::Abort {
        error: EnvironmentError { hook: "lint".to_string(), program: "missing".to_string() },
        report: RunReport { outcomes: Vec::new(), overall_failed: false },
    };
    assert_eq!(given_up, expected);
    let (controller, again) = controller.step(Event::Exited { succeeded: true });
    assert_eq!(again, expected);
    let (controller, again) = controller.step(Event::Continue);
    assert_eq!(again, expected);
    let (_, again) = controller.step(Event::SpawnFailed);
    assert_eq!(again, expected);
}

#[test]
fn without_news_the_same_command_is_handed_out_again() {
    let catalog = Catalog::new(vec![run_hook(
        "lint",
        "\\.rs$",
        vec![run_command("one", &[]), run_command("two", &[])],
    )])
    .unwrap();
    let controller = RunController::new(false, Some(&catalog), &Vec::new(), &two_files()).unwrap();
    let (controller, first) = controller.step(Event::Continue);
    assert_eq!(first, Action::Run(invocation("one", &[])));
    let (controller, again) = controller.step(Event::Continue);
    assert_eq!(again, Action::Run(invocation("one", &[])));
    let (controller, second) = controller.step(Event::Exited { succeeded: true });
    assert_eq!(second, Action::Run(invocation("two", &[])));
    let (controller, outcome) = controller.step(Event::Exited { succeeded: true });
    assert_eq!(outcome, Action::Report(ran("lint", false)));
    let (_, last) = controller.step(Event::Continue);
    assert_eq!(last, finished(vec![ran("lint", false)]));
}

#[test]
fn news_before_any_command_is_not_counted() {
    let catalog = lint_catalog("one");
    let controller = RunController::new(false, Some(&catalog), &Vec::new(), &two_files()).unwrap();
    let (controller, first) = controller.step(Event::Exited { succeeded: false });
    assert_eq!(first, Action::Run(invocation("one", &[])));
    let (controller, outcome) = controller.step(Event::Exited { succeeded: true });
    assert_eq!(outcome, Action::Report(ran("lint", false)));
    let (_, last) = controller.step(Event::SpawnFailed);
    assert_eq!(last, finished(vec![ran("lint", false)]));
}

#[test]
fn a_run_that_is_over_keeps_its_report() {
    let catalog = lint_catalog("false");
    let controller = RunController::new(false, Some(&catalog), &Vec::new(), &two_files()).unwrap();
    let (controller, _) = controller.step(Event::Continue);
    let (controller, outcome) = controller.step(Event::Exited { succeeded: false });
    assert_eq!(outcome, Action::Report(ran("lint", true)));
    let (controller, last) = controller.step(Event::Continue);
    let expected = finished(vec![ran("lint", true)]);
    assert_eq!(last, expected);
    let (controller, again) = controller.step(Event::Exited { succeeded: true });
    assert_eq!(again, expected);
    let (controller, again) = controller.step(Event::SpawnFailed);
    assert_eq!(again, expected);
    let (_, again) = controller.step(Event::Continue);
    assert_eq!(again, expected);
}

#[test]
fn deleted_file_is_never_handed_to_a_command() {
    let catalog =
        Catalog::new(vec![run_hook("lint", "\\.rs$", vec![run_command("cat", &["<filename>"])])])
            .unwrap();
    let files = vec![
        run_file("gone.rs", ChangeKind::Deleted),
        run_file("kept.rs", ChangeKind::Modified),
    ];
    let controller = RunController::new(false, Some(&catalog), &Vec::new(), &files).unwrap();
    assert_eq!(drive(controller).started, vec![invocation("cat", &["kept.rs"])]);
}

#[test]
fn running_twice_gives_the_same_report() {
    let catalog = Catalog::new(vec![
        run_hook("a", "\\.rs$", vec![run_command("false", &["<filename>"])]),
        run_hook("b", "", vec![run_command("true", &[])]),
    ])
    .unwrap();
    let files = two_files();
    let skip = run_names(&["c"]);
    let first = drive(RunController::new(false, Some(&catalog), &skip, &files).unwrap());
    let second = drive(RunController::new(false, Some(&catalog), &skip, &files).unwrap());
    assert_eq!(first, second);
    assert_eq!(first.last, finished(vec![ran("a", true), ran("b", false)]));
}
