//! The hooks as they are declared: commands, selections, hooks, and the
//! catalog that holds the hooks of one bucket in order.

use vstd::prelude::*;
use vstd::string::StringExecFns;

use crate::error::{ConfigurationError, ConfigurationFault};

verus! {

/// The name of the one bucket of hooks that a configuration can hold.
pub open spec fn pre_commit_name() -> Seq<char> {
    "pre-commit"@
}

/// The view of a command of a hook.
pub struct CommandModel {
    pub program: Seq<char>,
    pub template: Seq<Seq<char>>,
}

/// A command of a hook: the program to run and the arguments to hand to it,
/// where the token `<filename>` stands for the path of the matched file.
#[derive(Clone, Debug, PartialEq, Eq)]
pub struct HookCommand {
    pub command: String,
    pub arguments: Vec<String>,
}

impl View for HookCommand {
    type V = CommandModel;

    open spec fn view(&self) -> CommandModel {
        CommandModel { program: self.command@, template: self.arguments.deep_view() }
    }
}

impl DeepView for HookCommand {
    type V = CommandModel;

    open spec fn deep_view(&self) -> CommandModel {
        self@
    }
}

/// The view of the way in which a hook selects files.
pub enum SelectionModel {
    Regex(Seq<char>),
    Extensions(Seq<Seq<char>>),
}

/// How a hook selects the files it applies to: by a regular expression that
/// is searched for in the path, or by a set of accepted file extensions.
#[derive(Clone, Debug, PartialEq, Eq)]
pub enum Selection {
    Regex(String),
    Extensions(Vec<String>),
}

impl View for Selection {
    type V = SelectionModel;

    open spec fn view(&self) -> SelectionModel {
        match self {
            Selection::Regex(pattern) => SelectionModel::Regex(pattern@),
            Selection::Extensions(accepted) => SelectionModel::Extensions(accepted.deep_view()),
        }
    }
}

/// The selection that a hook declares with a regular expression, with a set
/// of extensions, with both or with neither: a hook has to declare exactly
/// one of the two.
pub open spec fn declared_selection(
    regex: Option<Seq<char>>,
    extensions: Option<Seq<Seq<char>>>,
) -> Option<SelectionModel> {
    match (regex, extensions) {
        (Some(pattern), None) => Some(SelectionModel::Regex(pattern)),
        (None, Some(accepted)) => Some(SelectionModel::Extensions(accepted)),
        _ => None,
    }
}

impl Selection {
    /// The selection of a hook that declares `regex`, `extensions`, both or
    /// neither. Only a hook that declares exactly one of them has one.
    pub fn declared(regex: Option<String>, extensions: Option<Vec<String>>) -> (made: Option<
        Selection,
    >)
        ensures
            made.is_some() == declared_selection(
                regex.deep_view(),
                extensions.deep_view(),
            ).is_some(),
            made matches Some(selection) ==> Some(selection@) == declared_selection(
                regex.deep_view(),
                extensions.deep_view(),
            ),
    {
        match (regex, extensions) {
            (Some(pattern), None) => Some(Selection::Regex(pattern)),
            (None, Some(accepted)) => Some(Selection::Extensions(accepted)),
            _ => None,
        }
    }
}

/// The view of a hook.
pub struct HookModel {
    pub name: Seq<char>,
    pub selection: SelectionModel,
    pub commands: Seq<CommandModel>,
    pub description: Option<Seq<char>>,
}

/// A named rule: the files it selects and the commands to run on each of
/// them, in the order in which they are declared.
#[derive(Clone, Debug, PartialEq, Eq)]
pub struct Hook {
    pub name: String,
    pub selection: Selection,
    pub commands: Vec<HookCommand>,
    pub description: Option<String>,
}

impl View for Hook {
    type V = HookModel;

    open spec fn view(&self) -> HookModel {
        HookModel {
            name: self.name@,
            selection: self.selection@,
            commands: self.commands.deep_view(),
            description: self.description.deep_view(),
        }
    }
}

impl DeepView for Hook {
    type V = HookModel;

    open spec fn deep_view(&self) -> HookModel {
        self@
    }
}

/// Whether no two hooks of `hooks` bear the same name.
pub open spec fn names_unique(hooks: Seq<HookModel>) -> bool {
    forall|i: int, j: int| 0 <= i < j < hooks.len() ==> hooks[i].name != hooks[j].name
}

/// Whether some hook of `hooks` is called `name`.
pub open spec fn has_name(hooks: Seq<HookModel>, name: Seq<char>) -> bool {
    exists|i: int| 0 <= i < hooks.len() && hooks[i].name == name
}

/// Whether `hooks[at]` is the first hook that bears the name of a hook
/// declared before it.
pub open spec fn first_repeat(hooks: Seq<HookModel>, at: int) -> bool {
    &&& 0 <= at < hooks.len()
    &&& names_unique(hooks.take(at))
    &&& has_name(hooks.take(at), hooks[at].name)
}

/// The hooks of one bucket in the order of their declaration. No two of them
/// bear the same name.
pub struct Catalog {
    hooks: Vec<Hook>,
}

impl View for Catalog {
    type V = Seq<HookModel>;

    closed spec fn view(&self) -> Seq<HookModel> {
        self.hooks.deep_view()
    }
}

impl Catalog {
    #[verifier::type_invariant]
    spec fn names_differ(&self) -> bool {
        names_unique(self.hooks.deep_view())
    }

    /// The catalog of `hooks`, in their order. Where a hook bears the name of
    /// one before it, the first such hook is reported and there is no
    /// catalog.
    pub fn new(hooks: Vec<Hook>) -> (made: Result<Catalog, ConfigurationError>)
        ensures
            made is Ok <==> names_unique(hooks.deep_view()),
            made matches Ok(catalog) ==> catalog@ == hooks.deep_view(),
            made matches Err(e) ==> exists|at: int|
                first_repeat(hooks.deep_view(), at) && e@ == (ConfigurationFault::DuplicateHook {
                    name: #[trigger] hooks.deep_view()[at].name,
                }),
    {
        let ghost all = hooks.deep_view();
        let mut j: usize = 0;
        while j < hooks.len()
            invariant
                j <= hooks.len(),
                all == hooks.deep_view(),
                names_unique(all.take(j as int)),
            decreases hooks.len() - j,
        {
            let mut i: usize = 0;
            while i < j
                invariant
                    i <= j < hooks.len(),
                    all == hooks.deep_view(),
                    names_unique(all.take(j as int)),
                    forall|k: int| 0 <= k < i ==> all[k].name != all[j as int].name,
                decreases j - i,
            {
                if hooks[i].name == hooks[j].name {
                    proof {
                        assert(all.take(j as int)[i as int].name == all[j as int].name);
                        assert(first_repeat(all, j as int));
                        assert(!names_unique(all));
                    }
                    return Err(ConfigurationError::DuplicateHook { name: hooks[j].name.clone() });
                }
                i += 1;
            }
            proof {
                let shorter = all.take(j as int);
                let longer = all.take(j + 1);
                assert forall|a: int, b: int| 0 <= a < b < longer.len() implies longer[a].name
                    != longer[b].name by {
                    if b < j {
                        assert(shorter[a].name != shorter[b].name);
                    }
                }
            }
            j += 1;
        }
        assert(all.take(j as int) =~= all);
        Ok(Catalog { hooks })
    }

    /// The number of hooks.
    pub fn len(&self) -> (n: usize)
        ensures
            n == self@.len(),
    {
        self.hooks.len()
    }

    /// The hooks in the order of their declaration.
    pub fn hooks(&self) -> (hooks: &Vec<Hook>)
        ensures
            hooks.deep_view() == self@,
            names_unique(self@),
    {
        proof {
            use_type_invariant(self);
        }
        &self.hooks
    }
}

/// The configuration as it is declared: one bucket of hooks for each moment
/// of the life of a commit that has hooks. Only `pre-commit` exists.
pub struct Hooks {
    pub pre_commit: Option<Catalog>,
}

impl Hooks {
    /// The hooks of the bucket called `hook_type`, if the configuration
    /// declares that bucket. No other bucket than `pre-commit` is known.
    pub fn get(&self, hook_type: &str) -> (bucket: Option<&Catalog>)
        ensures
            bucket is Some <==> hook_type@ == pre_commit_name() && self.pre_commit is Some,
            bucket matches Some(catalog) ==> self.pre_commit == Some(*catalog),
    {
        if is_known_hook_type(hook_type) {
            match &self.pre_commit {
                Some(catalog) => Some(catalog),
                None => None,
            }
        } else {
            None
        }
    }
}

/// Whether `hook_type` names a bucket that a configuration can hold.
pub fn is_known_hook_type(hook_type: &str) -> (known: bool)
    ensures
        known == (hook_type@ == pre_commit_name()),
{
    let given = String::from_str(hook_type);
    let known = String::from_str("pre-commit");
    given == known
}

/// The hooks that a run works on: those of the bucket, or none where the
/// configuration has no such bucket.
pub open spec fn hooks_of(bucket: Option<&Catalog>) -> Seq<HookModel> {
    match bucket {
        Some(catalog) => catalog@,
        None => Seq::empty(),
    }
}

} // verus!
