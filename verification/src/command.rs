//! Building the command to start from a command of a hook and a matched
//! file.

use vstd::prelude::*;
use vstd::string::StringExecFns;

use crate::catalog::{CommandModel, HookCommand};
use crate::change::ChangedFile;
use crate::text::clone_strings;

verus! {

/// The token of an argument template that stands for the matched file.
pub open spec fn placeholder() -> Seq<char> {
    "<filename>"@
}

/// What becomes of one token of a template for the file at `path`: the
/// placeholder gives way to the path, any other token stays.
pub open spec fn expand_token(token: Seq<char>, path: Seq<char>) -> Seq<char> {
    if token == placeholder() {
        path
    } else {
        token
    }
}

/// The view of a command that is ready to be started.
pub struct InvocationModel {
    pub program: Seq<char>,
    pub args: Seq<Seq<char>>,
}

/// The invocation that `command` stands for on the file at `path`: the same
/// program, and each token of the template expanded in its place.
pub open spec fn expand(command: CommandModel, path: Seq<char>) -> InvocationModel {
    InvocationModel {
        program: command.program,
        args: Seq::new(
            command.template.len(),
            |i: int| expand_token(command.template[i], path),
        ),
    }
}

/// A command ready to be started: the program and its arguments.
#[derive(Clone, Debug, PartialEq, Eq)]
pub struct Invocation {
    pub program: String,
    pub args: Vec<String>,
}

impl View for Invocation {
    type V = InvocationModel;

    open spec fn view(&self) -> InvocationModel {
        InvocationModel { program: self.program@, args: self.args.deep_view() }
    }
}

impl DeepView for Invocation {
    type V = InvocationModel;

    open spec fn deep_view(&self) -> InvocationModel {
        self@
    }
}

impl Invocation {
    /// An invocation that holds what this one holds.
    pub fn duplicate(&self) -> (copy: Invocation)
        ensures
            copy@ == self@,
    {
        Invocation { program: self.program.clone(), args: clone_strings(&self.args) }
    }
}

/// Expands the template of `command` for the matched `file`.
pub fn build(command: &HookCommand, file: &ChangedFile) -> (invocation: Invocation)
    ensures
        invocation@ == expand(command@, file@.path),
{
    let marker = String::from_str("<filename>");
    let mut args: Vec<String> = Vec::new();
    let mut i: usize = 0;
    while i < command.arguments.len()
        invariant
            i <= command.arguments.len(),
            args.len() == i,
            marker@ == placeholder(),
            forall|k: int|
                0 <= k < i ==> (#[trigger] args[k])@ == expand_token(
                    command.arguments[k]@,
                    file.path@,
                ),
        decreases command.arguments.len() - i,
    {
        if command.arguments[i] == marker {
            args.push(file.path.clone());
        } else {
            args.push(command.arguments[i].clone());
        }
        i += 1;
    }
    let invocation = Invocation { program: command.command.clone(), args };
    assert(invocation@.args =~= expand(command@, file@.path).args);
    invocation
}

} // verus!
