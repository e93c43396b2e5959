//! What installing the runner as a git hook writes: the launcher script and
//! its place.

use vstd::prelude::*;
use vstd::string::StringExecFns;

use crate::text::{join, joined};

verus! {

/// The text of the launcher script that is installed as a git hook: a shell
/// stub that names the hook and calls the runner back with the hook's name,
/// the configuration file and the skip argument.
pub open spec fn script_text(
    location_command: Seq<char>,
    hook: Seq<char>,
    hook_config_file: Seq<char>,
    skip_str: Seq<char>,
) -> Seq<char> {
    "\n#!/bin/sh\n# "@ + hook + "\n# Hook created by precommit\n"@ + location_command + " run "@
        + hook + " "@ + hook_config_file + " "@ + skip_str + "\n"@
}

/// Renders the launcher script for `hook`.
pub fn script_gen(
    location_command: &str,
    hook: &str,
    hook_config_file: &str,
    skip_str: &str,
) -> (script: String)
    ensures
        script@ == script_text(location_command@, hook@, hook_config_file@, skip_str@),
{
    let mut script = String::from_str("\n#!/bin/sh\n# ");
    script.append(hook);
    script.append("\n# Hook created by precommit\n");
    script.append(location_command);
    script.append(" run ");
    script.append(hook);
    script.append(" ");
    script.append(hook_config_file);
    script.append(" ");
    script.append(skip_str);
    script.append("\n");
    script
}

/// The argument by which the launcher script tells the runner which hooks to
/// skip: nothing where there are none, else `-s=` and their names with commas
/// between them.
pub open spec fn skip_text(skip_hooks: Seq<Seq<char>>) -> Seq<char> {
    if skip_hooks.len() == 0 {
        Seq::empty()
    } else {
        "-s="@ + joined(skip_hooks, ","@)
    }
}

/// Renders the skip argument of the launcher script.
pub fn skip_argument(skip_hooks: &Vec<String>) -> (argument: String)
    ensures
        argument@ == skip_text(skip_hooks.deep_view()),
{
    if skip_hooks.len() == 0 {
        String::new()
    } else {
        let mut argument = String::from_str("-s=");
        let names = join(skip_hooks, ",");
        argument.append(names.as_str());
        argument
    }
}

/// Where git looks for the script of `hook`, from the root of the
/// repository.
pub open spec fn script_path_text(hook: Seq<char>) -> Seq<char> {
    ".git/hooks/"@ + hook
}

/// The path of the script of `hook`, from the root of the repository.
pub fn script_path(hook: &str) -> (path: String)
    ensures
        path@ == script_path_text(hook@),
{
    let mut path = String::from_str(".git/hooks/");
    path.append(hook);
    path
}

/// The view of a launcher script and of the place to write it to.
pub struct LauncherModel {
    pub path: Seq<char>,
    pub script: Seq<char>,
}

/// What installing the runner writes, and where.
#[derive(Clone, Debug, PartialEq, Eq)]
pub struct Launcher {
    pub path: String,
    pub script: String,
}

impl View for Launcher {
    type V = LauncherModel;

    open spec fn view(&self) -> LauncherModel {
        LauncherModel { path: self.path@, script: self.script@ }
    }
}

/// The launcher of the `pre-commit` hook for the runner at
/// `location_command`, which is to read `hook_config_file` and to skip
/// `skip_hooks`.
pub open spec fn launcher_of(
    location_command: Seq<char>,
    hook_config_file: Seq<char>,
    skip_hooks: Seq<Seq<char>>,
) -> LauncherModel {
    LauncherModel {
        path: script_path_text("pre-commit"@),
        script: script_text(
            location_command,
            "pre-commit"@,
            hook_config_file,
            skip_text(skip_hooks),
        ),
    }
}

/// Prepares the launcher of the `pre-commit` hook: the script and the path
/// it belongs at.
pub fn launcher(location_command: &str, hook_config_file: &str, skip_hooks: &Vec<String>) -> (made:
    Launcher)
    ensures
        made@ == launcher_of(location_command@, hook_config_file@, skip_hooks.deep_view()),
{
    let hook = "pre-commit";
    let skip_str = skip_argument(skip_hooks);
    let script = script_gen(location_command, hook, hook_config_file, skip_str.as_str());
    Launcher { path: script_path(hook), script }
}

} // verus!
