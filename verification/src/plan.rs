//! Planning a run: which hooks run, and which commands on which files.

use vstd::prelude::*;

use crate::catalog::{Catalog, CommandModel, Hook, HookModel, SelectionModel};
use crate::change::{eligible, ChangedFile, FileModel};
use crate::command::{build, expand, Invocation, InvocationModel};
use crate::error::{ConfigurationError, ConfigurationFault};
use crate::matcher::{selection_valid, selects, Matcher};
use crate::seqs::lemma_filter_next;

verus! {

/// Whether `hook` applies to `file`: the file still exists and the hook
/// selects its path.
pub open spec fn applies(hook: HookModel, file: FileModel) -> bool {
    eligible(file) && selects(hook.selection, file.path)
}

/// `applies` for one hook, as a function of the file.
pub open spec fn applies_to(hook: HookModel) -> spec_fn(FileModel) -> bool {
    |file: FileModel| applies(hook, file)
}

/// The files that `hook` applies to, in the order of the snapshot.
pub open spec fn matched_files(hook: HookModel, files: Seq<FileModel>) -> Seq<FileModel> {
    files.filter(applies_to(hook))
}

/// The invocations that `commands` stand for on the file at `path`, one for
/// each command, in the order of their declaration.
pub open spec fn file_invocations(commands: Seq<CommandModel>, path: Seq<char>) -> Seq<
    InvocationModel,
> {
    Seq::new(commands.len(), |i: int| expand(commands[i], path))
}

/// `file_invocations` for the commands of one hook, as a function of the
/// file.
pub open spec fn invocations_on(hook: HookModel) -> spec_fn(FileModel) -> Seq<InvocationModel> {
    |file: FileModel| file_invocations(hook.commands, file.path)
}

/// All that `hook` runs on the snapshot `files`: for each file that it
/// applies to, in their order, each of its commands, in theirs.
pub open spec fn hook_invocations(hook: HookModel, files: Seq<FileModel>) -> Seq<InvocationModel> {
    matched_files(hook, files).map_values(invocations_on(hook)).flatten()
}

/// Whether `hook` runs: it is not skipped and applies to a file at least.
pub open spec fn runs(hook: HookModel, skip: Seq<Seq<char>>, files: Seq<FileModel>) -> bool {
    !skip.contains(hook.name) && matched_files(hook, files).len() > 0
}

/// `runs` for one skip list and one snapshot, as a function of the hook.
pub open spec fn runs_on(skip: Seq<Seq<char>>, files: Seq<FileModel>) -> spec_fn(
    HookModel,
) -> bool {
    |hook: HookModel| runs(hook, skip, files)
}

/// The view of what is planned for one hook.
pub struct HookPlanModel {
    pub name: Seq<char>,
    pub invocations: Seq<InvocationModel>,
}

/// The plan of one hook for one snapshot, as a function of the hook.
pub open spec fn planned_on(files: Seq<FileModel>) -> spec_fn(HookModel) -> HookPlanModel {
    |hook: HookModel| HookPlanModel { name: hook.name, invocations: hook_invocations(hook, files) }
}

/// The plan of a run: the hooks of `catalog` that run, in its order, each
/// with all that it runs.
pub open spec fn plan_of(
    catalog: Seq<HookModel>,
    skip: Seq<Seq<char>>,
    files: Seq<FileModel>,
) -> Seq<HookPlanModel> {
    catalog.filter(runs_on(skip, files)).map_values(planned_on(files))
}

/// Whether every hook of `catalog` that is not skipped selects its files in
/// a valid way.
pub open spec fn selections_valid(catalog: Seq<HookModel>, skip: Seq<Seq<char>>) -> bool {
    forall|i: int|
        0 <= i < catalog.len() && !skip.contains((#[trigger] catalog[i]).name) ==> selection_valid(
            catalog[i].selection,
        )
}

/// Whether `catalog[at]` is the first hook that is not skipped and whose
/// selection is not valid.
pub open spec fn first_invalid(catalog: Seq<HookModel>, skip: Seq<Seq<char>>, at: int) -> bool {
    &&& 0 <= at < catalog.len()
    &&& !skip.contains(catalog[at].name)
    &&& !selection_valid(catalog[at].selection)
    &&& selections_valid(catalog.take(at), skip)
}

/// The fault that an invalid selection of `hook` is reported as.
pub open spec fn invalid_selection(hook: HookModel) -> ConfigurationFault {
    ConfigurationFault::InvalidPattern {
        hook: hook.name,
        pattern: match hook.selection {
            SelectionModel::Regex(pattern) => pattern,
            SelectionModel::Extensions(_) => Seq::empty(),
        },
    }
}

/// What is planned for one hook that runs: its name and all that it runs,
/// in order.
#[derive(Clone, Debug, PartialEq, Eq)]
pub struct HookPlan {
    pub name: String,
    pub invocations: Vec<Invocation>,
}

impl View for HookPlan {
    type V = HookPlanModel;

    open spec fn view(&self) -> HookPlanModel {
        HookPlanModel { name: self.name@, invocations: self.invocations.deep_view() }
    }
}

impl DeepView for HookPlan {
    type V = HookPlanModel;

    open spec fn deep_view(&self) -> HookPlanModel {
        self@
    }
}

/// Whether `name` is one of `skip`.
pub fn is_skipped(skip: &Vec<String>, name: &String) -> (skipped: bool)
    ensures
        skipped == skip.deep_view().contains(name@),
{
    let mut i: usize = 0;
    while i < skip.len()
        invariant
            i <= skip.len(),
            forall|k: int| 0 <= k < i ==> skip.deep_view()[k] != name@,
        decreases skip.len() - i,
    {
        if skip[i] == *name {
            assert(skip.deep_view()[i as int] == name@);
            return true;
        }
        i += 1;
    }
    false
}

/// Matches the snapshot against one hook: whether the hook applies to a
/// file at all, and all that it runs.
fn plan_files(hook: &Hook, matcher: &Matcher, files: &Vec<ChangedFile>) -> (planned: (
    bool,
    Vec<Invocation>,
))
    requires
        matcher.selection() == hook@.selection,
    ensures
        planned.0 == (matched_files(hook@, files.deep_view()).len() > 0),
        planned.1.deep_view() == hook_invocations(hook@, files.deep_view()),
{
    let ghost all = files.deep_view();
    let mut matched = false;
    let mut invocations: Vec<Invocation> = Vec::new();
    let mut j: usize = 0;
    proof {
        reveal(Seq::filter);
        assert(all.take(0).filter(applies_to(hook@)).len() == 0);
        assert(hook_invocations(hook@, all.take(0)) =~= Seq::empty());
    }
    while j < files.len()
        invariant
            j <= files.len(),
            all == files.deep_view(),
            matcher.selection() == hook@.selection,
            matched == (matched_files(hook@, all.take(j as int)).len() > 0),
            invocations.deep_view() == hook_invocations(hook@, all.take(j as int)),
        decreases files.len() - j,
    {
        let file = &files[j];
        let ghost before = invocations.deep_view();
        let ghost added = file_invocations(hook@.commands, file@.path);
        proof {
            lemma_filter_next(all, applies_to(hook@), j as int);
            assert(all[j as int] == file@);
        }
        if !file.kind.is_deleted() && matcher.matches(file.path.as_str()) {
            matched = true;
            let mut c: usize = 0;
            while c < hook.commands.len()
                invariant
                    c <= hook.commands.len(),
                    added == file_invocations(hook@.commands, file@.path),
                    invocations.deep_view() == before + added.take(c as int),
                decreases hook.commands.len() - c,
            {
                let ghost so_far = invocations.deep_view();
                let invocation = build(&hook.commands[c], file);
                invocations.push(invocation);
                assert(invocations.deep_view() =~= so_far.push(invocation@));
                assert(added.take(c + 1) =~= added.take(c as int).push(added[c as int]));
                assert(invocations.deep_view() =~= before + added.take(c + 1));
                c += 1;
            }
            proof {
                assert(added.take(c as int) =~= added);
                let kept = matched_files(hook@, all.take(j as int));
                assert(matched_files(hook@, all.take(j + 1)) == kept.push(file@));
                assert(kept.push(file@).map_values(invocations_on(hook@)) =~= kept.map_values(
                    invocations_on(hook@),
                ).push(added));
                kept.map_values(invocations_on(hook@)).lemma_flatten_push(added);
            }
        }
        j += 1;
    }
    assert(all.take(j as int) =~= all);
    (matched, invocations)
}

/// Plans a run: decides for each hook of `catalog` that is not in `skip`
/// which files of the snapshot it applies to, and expands its commands for
/// each of them. A hook that applies to no file is left out. Where a hook
/// that is not skipped has a selection that is not valid, the first such
/// hook is reported and there is no plan.
pub fn plan_hooks(catalog: &Catalog, skip: &Vec<String>, files: &Vec<ChangedFile>) -> (made: Result<
    Vec<HookPlan>,
    ConfigurationError,
>)
    ensures
        made is Ok <==> selections_valid(catalog@, skip.deep_view()),
        made matches Ok(plan) ==> plan.deep_view() == plan_of(
            catalog@,
            skip.deep_view(),
            files.deep_view(),
        ),
        made matches Err(e) ==> exists|at: int|
            first_invalid(catalog@, skip.deep_view(), at) && e@ == invalid_selection(
                #[trigger] catalog@[at],
            ),
{
    let hooks = catalog.hooks();
    let ghost all = catalog@;
    let ghost skipped = skip.deep_view();
    let ghost snapshot = files.deep_view();
    let mut plan: Vec<HookPlan> = Vec::new();
    let mut i: usize = 0;
    proof {
        reveal(Seq::filter);
        assert(plan.deep_view() =~= plan_of(all.take(0), skipped, snapshot));
    }
    while i < hooks.len()
        invariant
            i <= hooks.len(),
            all == hooks.deep_view(),
            all == catalog@,
            skipped == skip.deep_view(),
            snapshot == files.deep_view(),
            selections_valid(all.take(i as int), skipped),
            plan.deep_view() == plan_of(all.take(i as int), skipped, snapshot),
        decreases hooks.len() - i,
    {
        let hook = &hooks[i];
        proof {
            lemma_filter_next(all, runs_on(skipped, snapshot), i as int);
            assert(all[i as int] == hook@);
        }
        if !is_skipped(skip, &hook.name) {
            match Matcher::compile(&hook.selection) {
                None => {
                    proof {
                        assert(first_invalid(all, skipped, i as int));
                    }
                    return Err(invalid_pattern(hook));
                },
                Some(matcher) => {
                    let (matched, invocations) = plan_files(hook, &matcher, files);
                    if matched {
                        let ghost before = plan.deep_view();
                        let entry = HookPlan { name: hook.name.clone(), invocations };
                        plan.push(entry);
                        proof {
                            assert(plan.deep_view() =~= before.push(planned_on(snapshot)(hook@)));
                            let kept = all.take(i as int).filter(runs_on(skipped, snapshot));
                            assert(kept.push(hook@).map_values(planned_on(snapshot))
                                =~= kept.map_values(planned_on(snapshot)).push(
                                planned_on(snapshot)(hook@),
                            ));
                        }
                    }
                },
            }
        }
        proof {
            let shorter = all.take(i as int);
            let longer = all.take(i + 1);
            assert forall|k: int|
                0 <= k < longer.len() && !skipped.contains(
                    (#[trigger] longer[k]).name,
                ) implies selection_valid(longer[k].selection) by {
                if k < i {
                    assert(shorter[k] == longer[k]);
                }
            }
        }
        i += 1;
    }
    assert(all.take(i as int) =~= all);
    Ok(plan)
}

/// The report of an invalid selection of `hook`.
fn invalid_pattern(hook: &Hook) -> (error: ConfigurationError)
    ensures
        error@ == invalid_selection(hook@),
{
    let pattern = match &hook.selection {
        crate::catalog::Selection::Regex(pattern) => pattern.clone(),
        crate::catalog::Selection::Extensions(_) => String::new(),
    };
    ConfigurationError::InvalidPattern { hook: hook.name.clone(), pattern }
}

} // verus!
