use precommit::{build, ChangeKind, ChangedFile, HookCommand, Invocation};

fn command_of(program: &str, arguments: &[&str]) -> HookCommand {
    HookCommand {
        command: program.to_string(),
        arguments: arguments.iter().map(|s| s.to_string()).collect(),
    }
}

fn file_at(path: &str) -> ChangedFile {
    ChangedFile::new(path.to_string(), ChangeKind::Modified)
}

#[test]
fn placeholder_gives_way_to_the_path() {
    let invocation =
        build(&command_of("rustfmt", &["--check", "<filename>"]), &file_at("src/a.rs"));
    assert_eq!(invocation.program, "rustfmt");
    assert_eq!(invocation.args, vec!["--check".to_string(), "src/a.rs".to_string()]);
}

#[test]
fn every_placeholder_is_replaced() {
    let invocation = build(&command_of("cp", &["<filename>", "<filename>"]), &file_at("a b"));
    assert_eq!(invocation.args, vec!["a b".to_string(), "a b".to_string()]);
}

#[test]
fn other_tokens_pass_through_unchanged() {
    let invocation = build(
        &command_of(
            "echo",
            &["<filename", "filename>", "<Filename>", "x<filename>", " <filename>", ""],
        ),
        &file_at("p"),
    );
    assert_eq!(
        invocation.args,
        vec![
            "<filename".to_string(),
            "filename>".to_string(),
            "<Filename>".to_string(),
            "x<filename>".to_string(),
            " <filename>".to_string(),
            "".to_string(),
        ]
    );
}

#[test]
fn empty_template_gives_no_arguments() {
    let invocation = build(&command_of("true", &[]), &file_at("a.rs"));
    assert_eq!(invocation, Invocation { program: "true".to_string(), args: Vec::new() });
}

#[test]
fn program_is_not_expanded() {
    let invocation = build(&command_of("<filename>", &["<filename>"]), &file_at("a.rs"));
    assert_eq!(invocation.program, "<filename>");
    assert_eq!(invocation.args, vec!["a.rs".to_string()]);
}

#[test]
fn path_that_is_the_placeholder_stays_as_it_is() {
    let invocation = build(&command_of("cat", &["<filename>", "x"]), &file_at("<filename>"));
    assert_eq!(invocation.args, vec!["<filename>".to_string(), "x".to_string()]);
}

#[test]
fn duplicate_holds_the_same() {
    let invocation = build(&command_of("a", &["b", "<filename>"]), &file_at("c"));
    assert_eq!(invocation.duplicate(), invocation);
}
