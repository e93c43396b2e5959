//! What holds of every plan and of every run.

use vstd::prelude::*;

use crate::catalog::{names_unique, HookModel};
use crate::change::{ChangeKind, FileModel};
use crate::command::{expand, InvocationModel};
use crate::controller::{
    hook_failed, initial, lemma_record, outcome_of, outcomes_of, pending, proceed, report_of,
    run_plan, settled, state_valid, transition, ActionModel, Event, RunState,
};
use crate::matcher::{is_extension_of, selects};
use crate::plan::{
    applies_to, file_invocations, hook_invocations, invocations_on, matched_files, plan_of,
    planned_on, runs, runs_on, HookPlanModel,
};
use crate::report::{any_failed, OutcomeModel, ReportModel};
use crate::seqs::{
    lemma_filter_empty, lemma_filter_order, lemma_filter_origin, lemma_flatten_origin,
    lemma_flatten_uniform,
};
use crate::work::{
    lemma_settled_grows, lemma_work_at, lemma_work_next, lemma_work_owner, work, work_before,
};

verus! {

/// Each hook of a plan is a hook of the catalog that runs: the plan holds
/// its name and all that it runs on the snapshot.
pub proof fn lemma_plan_entry_origin(
    catalog: Seq<HookModel>,
    skip: Seq<Seq<char>>,
    files: Seq<FileModel>,
    entry: int,
)
    requires
        0 <= entry < plan_of(catalog, skip, files).len(),
    ensures
        exists|at: int|
            0 <= at < catalog.len() && runs(#[trigger] catalog[at], skip, files) && plan_of(
                catalog,
                skip,
                files,
            )[entry] == (HookPlanModel {
                name: catalog[at].name,
                invocations: hook_invocations(catalog[at], files),
            }),
{
    let kept = catalog.filter(runs_on(skip, files));
    lemma_filter_origin(catalog, runs_on(skip, files), entry);
    let at = choose|at: int|
        0 <= at < catalog.len() && runs_on(skip, files)(catalog[at]) && #[trigger] catalog[at]
            == kept[entry];
    assert(plan_of(catalog, skip, files)[entry] == planned_on(files)(kept[entry]));
    assert(runs(catalog[at], skip, files));
}

/// Whether a hook of `catalog` that is called `name` runs.
pub open spec fn runs_under_name(
    catalog: Seq<HookModel>,
    skip: Seq<Seq<char>>,
    files: Seq<FileModel>,
    name: Seq<char>,
) -> bool {
    exists|at: int|
        0 <= at < catalog.len() && (#[trigger] catalog[at]).name == name && runs(
            catalog[at],
            skip,
            files,
        )
}

/// Whether `report` holds an outcome of a hook called `name`.
pub open spec fn reports_name(report: ReportModel, name: Seq<char>) -> bool {
    exists|i: int|
        0 <= i < report.outcomes.len() && (#[trigger] report.outcomes[i]).hook_name == name
}

/// A hook that applies to no file of the snapshot never shows in the report
/// and cannot make the run fail: each outcome of a report belongs to a hook
/// of the catalog that is not skipped and applies to a file at least, and
/// where the names of the catalog differ, no outcome bears the name of a hook
/// that applies to none. A run fails only through one of its outcomes.
pub proof fn lemma_unmatched_hook_is_silent(
    catalog: Seq<HookModel>,
    skip: Seq<Seq<char>>,
    files: Seq<FileModel>,
    results: Seq<bool>,
)
    ensures
        forall|i: int|
            0 <= i < report_of(plan_of(catalog, skip, files), results).outcomes.len()
                ==> runs_under_name(
                catalog,
                skip,
                files,
                (#[trigger] report_of(
                    plan_of(catalog, skip, files),
                    results,
                ).outcomes[i]).hook_name,
            ),
        names_unique(catalog) ==> forall|at: int|
            0 <= at < catalog.len() && matched_files(#[trigger] catalog[at], files).len() == 0
                ==> !reports_name(
                report_of(plan_of(catalog, skip, files), results),
                catalog[at].name,
            ),
        report_of(plan_of(catalog, skip, files), results).overall_failed == any_failed(
            report_of(plan_of(catalog, skip, files), results).outcomes,
        ),
{
    let plan = plan_of(catalog, skip, files);
    let report = report_of(plan, results);
    assert forall|i: int| 0 <= i < report.outcomes.len() implies runs_under_name(
        catalog,
        skip,
        files,
        (#[trigger] report.outcomes[i]).hook_name,
    ) by {
        lemma_plan_entry_origin(catalog, skip, files, i);
        let at = choose|at: int|
            0 <= at < catalog.len() && runs(#[trigger] catalog[at], skip, files) && plan[i] == (
            HookPlanModel {
                name: catalog[at].name,
                invocations: hook_invocations(catalog[at], files),
            });
        assert(catalog[at].name == report.outcomes[i].hook_name);
    }
    if names_unique(catalog) {
        assert forall|at: int|
            0 <= at < catalog.len() && matched_files(
                #[trigger] catalog[at],
                files,
            ).len() == 0 implies !reports_name(report, catalog[at].name) by {
            if reports_name(report, catalog[at].name) {
                let i = choose|i: int|
                    0 <= i < report.outcomes.len() && (#[trigger] report.outcomes[i]).hook_name
                        == catalog[at].name;
                assert(runs_under_name(catalog, skip, files, report.outcomes[i].hook_name));
                let from = choose|from: int|
                    0 <= from < catalog.len() && (#[trigger] catalog[from]).name
                        == report.outcomes[i].hook_name && runs(catalog[from], skip, files);
                if from < at {
                    assert(catalog[from].name != catalog[at].name);
                } else if at < from {
                    assert(catalog[at].name != catalog[from].name);
                }
            }
        }
    }
}

/// A commit that concludes a merge runs nothing: the plan is empty whatever
/// the catalog, the skip list and the snapshot hold, and the run ends at once
/// with an empty report that is no failure.
pub proof fn lemma_merge_runs_nothing(
    catalog: Seq<HookModel>,
    skip: Seq<Seq<char>>,
    files: Seq<FileModel>,
    event: Event,
)
    ensures
        run_plan(true, catalog, skip, files) == Seq::<HookPlanModel>::empty(),
        transition(initial(run_plan(true, catalog, skip, files)), event) == (
            initial(Seq::<HookPlanModel>::empty()),
            ActionModel::Finish(
                ReportModel { outcomes: Seq::empty(), overall_failed: false },
            ),
        ),
{
    let plan = Seq::<HookPlanModel>::empty();
    assert(work(plan) =~= Seq::empty());
    assert(outcomes_of(plan, Seq::empty(), 0) =~= Seq::empty());
    assert(!any_failed(Seq::empty()));
}

/// A hook whose name is in the skip list is left out, even if it applies to
/// files of the snapshot: no hook of the plan, and so no outcome of the
/// report and no command that is started, bears a name of the skip list.
pub proof fn lemma_skipped_hook_is_left_out(
    catalog: Seq<HookModel>,
    skip: Seq<Seq<char>>,
    files: Seq<FileModel>,
    results: Seq<bool>,
)
    ensures
        ({
            let plan = plan_of(catalog, skip, files);
            let report = report_of(plan, results);
            &&& forall|i: int| 0 <= i < plan.len() ==> !skip.contains((#[trigger] plan[i]).name)
            &&& forall|i: int|
                0 <= i < report.outcomes.len() ==> !skip.contains(
                    (#[trigger] report.outcomes[i]).hook_name,
                )
            &&& forall|k: int|
                0 <= k < work(plan).len() ==> 0 <= (#[trigger] work(plan)[k]).hook < plan.len()
                    && !skip.contains(plan[work(plan)[k].hook].name)
        }),
{
    let plan = plan_of(catalog, skip, files);
    let report = report_of(plan, results);
    assert forall|i: int| 0 <= i < plan.len() implies !skip.contains((#[trigger] plan[i]).name) by {
        lemma_plan_entry_origin(catalog, skip, files, i);
    }
    assert forall|i: int| 0 <= i < report.outcomes.len() implies !skip.contains(
        (#[trigger] report.outcomes[i]).hook_name,
    ) by {
        assert(report.outcomes[i].hook_name == plan[i].name);
    }
    assert forall|k: int| 0 <= k < work(plan).len() implies 0 <= (#[trigger] work(plan)[k]).hook
        < plan.len() && !skip.contains(plan[work(plan)[k].hook].name) by {
        lemma_work_owner(plan, k);
    }
}

/// Goes on with a run in which no command is awaited, taking note of each
/// outcome that is handed out, until a command or the end of the run is
/// answered.
pub open spec fn go_on(state: RunState) -> (RunState, ActionModel)
    decreases settled(state) - state.announced,
{
    if !state.aborted && !state.awaiting && state.announced < settled(state) {
        go_on(proceed(state).0)
    } else {
        transition(state, Event::Continue)
    }
}

/// The outcomes that are handed out while `go_on(state)` goes on, in order.
pub open spec fn announcements(state: RunState) -> Seq<OutcomeModel>
    decreases settled(state) - state.announced,
{
    if !state.aborted && !state.awaiting && state.announced < settled(state) {
        seq![outcome_of(state.plan, state.results, state.announced as int)] + announcements(
            proceed(state).0,
        )
    } else {
        Seq::empty()
    }
}

/// The state in which the command that was awaited in `state` has ended.
pub open spec fn recorded(state: RunState, succeeded: bool) -> RunState {
    RunState { results: state.results.push(succeeded), awaiting: false, ..state }
}

/// The state and the answer after a run of `plan` began and the commands
/// that were started ended as `results` tells, in order, when each outcome
/// that was handed out on the way was taken note of.
pub open spec fn run_through(plan: Seq<HookPlanModel>, results: Seq<bool>) -> (
    RunState,
    ActionModel,
)
    decreases results.len(),
{
    if results.len() == 0 {
        go_on(initial(plan))
    } else {
        go_on(recorded(run_through(plan, results.drop_last()).0, results.last()))
    }
}

/// The outcomes that are handed out in the course of `run_through(plan,
/// results)`, in order.
pub open spec fn announced_through(plan: Seq<HookPlanModel>, results: Seq<bool>) -> Seq<
    OutcomeModel,
>
    decreases results.len(),
{
    if results.len() == 0 {
        announcements(initial(plan))
    } else {
        announced_through(plan, results.drop_last()) + announcements(
            recorded(run_through(plan, results.drop_last()).0, results.last()),
        )
    }
}

/// Taking in the news that the awaited command ended is recording it and
/// going on; and going on is answering `Continue` until no outcome is handed
/// out.
pub proof fn lemma_go_on_is_stepping(state: RunState, succeeded: bool)
    ensures
        !state.aborted && state.awaiting ==> transition(state, Event::Exited { succeeded })
            == proceed(recorded(state, succeeded)),
        !state.aborted && !state.awaiting ==> transition(state, Event::Continue) == proceed(state),
        go_on(state) == (if transition(state, Event::Continue).1 is Report && !state.aborted
            && !state.awaiting {
            go_on(transition(state, Event::Continue).0)
        } else {
            transition(state, Event::Continue)
        }),
{
}

/// Going on hands out the outcomes of all hooks that are done and not yet
/// announced, in the order of the plan, and then the next command, or the
/// report where no command is left.
pub proof fn lemma_go_on(state: RunState)
    requires
        state_valid(state),
        !state.awaiting,
    ensures
        go_on(state) == (if state.results.len() < work(state.plan).len() {
            (
                RunState { announced: settled(state) as nat, awaiting: true, ..state },
                ActionModel::Run(pending(state).invocation),
            )
        } else {
            (
                RunState { announced: settled(state) as nat, ..state },
                ActionModel::Finish(report_of(state.plan, state.results)),
            )
        }),
        announcements(state) == outcomes_of(state.plan, state.results, settled(state)).skip(
            state.announced as int,
        ),
        state_valid(go_on(state).0),
    decreases settled(state) - state.announced,
{
    let all = outcomes_of(state.plan, state.results, settled(state));
    if state.announced < settled(state) {
        let next = proceed(state).0;
        lemma_go_on(next);
        assert(announcements(state) =~= all.skip(state.announced as int));
    } else {
        assert(announcements(state) =~= all.skip(state.announced as int));
    }
}

/// A run hands the commands of its plan out in order, one after each answer,
/// and ends with the report once all of them have ended: after `results`,
/// the run awaits the command that follows them, or is over with
/// `report_of(plan, results)`. On the way the outcome of each hook that is
/// done was handed out, in the order of the plan, and these outcomes are the
/// ones that the report of the run holds for these hooks.
pub proof fn lemma_run_follows_plan(plan: Seq<HookPlanModel>, results: Seq<bool>)
    requires
        results.len() <= work(plan).len(),
    ensures
        run_through(plan, results).0 == (RunState {
            plan,
            results,
            announced: settled(run_through(plan, results).0) as nat,
            awaiting: results.len() < work(plan).len(),
            aborted: false,
        }),
        run_through(plan, results).1 == (if results.len() < work(plan).len() {
            ActionModel::Run(work(plan)[results.len() as int].invocation)
        } else {
            ActionModel::Finish(report_of(plan, results))
        }),
        announced_through(plan, results) == outcomes_of(
            plan,
            results,
            settled(run_through(plan, results).0),
        ),
        state_valid(run_through(plan, results).0),
    decreases results.len(),
{
    if results.len() == 0 {
        assert(results =~= Seq::empty());
        let state = initial(plan);
        lemma_settled_grows(plan, 0, 0);
        lemma_go_on(state);
        assert(outcomes_of(plan, results, settled(state)).skip(0) =~= outcomes_of(
            plan,
            results,
            settled(state),
        ));
    } else {
        let fewer = results.drop_last();
        lemma_run_follows_plan(plan, fewer);
        assert(fewer.push(results.last()) =~= results);
        let before = run_through(plan, fewer).0;
        let state = recorded(before, results.last());
        assert(state.results == results);
        lemma_settled_grows(plan, fewer.len() as int, results.len() as int);
        lemma_go_on(state);
        let done = settled(before);
        assert forall|hook: int| 0 <= hook < done implies outcome_of(plan, fewer, hook)
            == outcome_of(plan, results, hook) by {
            lemma_record(plan, fewer, results.last(), hook);
        }
        assert(outcomes_of(plan, fewer, done) + outcomes_of(plan, results, settled(state)).skip(
            done,
        ) =~= outcomes_of(plan, results, settled(state)));
    }
}

/// Running twice on the same snapshot and catalog gives the same report:
/// the plan, each command and each outcome that is handed out and the report
/// depend on nothing but the catalog, the skip list, the snapshot and how the
/// commands ended.
pub proof fn lemma_run_is_repeatable(
    merging: bool,
    catalog: Seq<HookModel>,
    skip: Seq<Seq<char>>,
    files: Seq<FileModel>,
    results: Seq<bool>,
    first: (RunState, ActionModel, Seq<OutcomeModel>),
    second: (RunState, ActionModel, Seq<OutcomeModel>),
)
    requires
        first == (
            run_through(run_plan(merging, catalog, skip, files), results).0,
            run_through(run_plan(merging, catalog, skip, files), results).1,
            announced_through(run_plan(merging, catalog, skip, files), results),
        ),
        second == (
            run_through(run_plan(merging, catalog, skip, files), results).0,
            run_through(run_plan(merging, catalog, skip, files), results).1,
            announced_through(run_plan(merging, catalog, skip, files), results),
        ),
    ensures
        first == second,
{
}

/// A hook fails if and only if one of its own commands did: the commands of
/// other hooks have no part in it.
pub proof fn lemma_hook_fails_by_own_commands(
    plan: Seq<HookPlanModel>,
    results: Seq<bool>,
    hook: int,
)
    requires
        0 <= hook < plan.len(),
        results.len() <= work(plan).len(),
    ensures
        hook_failed(plan, results, hook) <==> exists|at: int|
            0 <= at < plan[hook].invocations.len() && work_before(plan, hook) + at < results.len()
                && !#[trigger] results[work_before(plan, hook) + at],
{
    let from = work_before(plan, hook) as int;
    if hook_failed(plan, results, hook) {
        let k = choose|k: int|
            0 <= k < results.len() && k < work(plan).len() && (#[trigger] work(plan)[k]).hook
                == hook && !results[k];
        lemma_work_owner(plan, k);
        lemma_work_next(plan, hook);
        assert(!results[from + (k - from)]);
    }
    if exists|at: int|
        0 <= at < plan[hook].invocations.len() && from + at < results.len()
            && !#[trigger] results[from + at] {
        let at = choose|at: int|
            0 <= at < plan[hook].invocations.len() && from + at < results.len()
                && !#[trigger] results[from + at];
        lemma_work_at(plan, hook, at);
        assert(work(plan)[from + at].hook == hook);
    }
}

/// A run fails if and only if one of the commands that ran failed.
pub proof fn lemma_run_fails_by_commands(plan: Seq<HookPlanModel>, results: Seq<bool>)
    requires
        results.len() <= work(plan).len(),
    ensures
        report_of(plan, results).overall_failed <==> exists|k: int|
            0 <= k < results.len() && !#[trigger] results[k],
{
    let outcomes = outcomes_of(plan, results, plan.len() as int);
    if any_failed(outcomes) {
        let i = choose|i: int| 0 <= i < outcomes.len() && (#[trigger] outcomes[i]).failed;
        assert(hook_failed(plan, results, i));
    }
    if exists|k: int| 0 <= k < results.len() && !#[trigger] results[k] {
        let k = choose|k: int| 0 <= k < results.len() && !#[trigger] results[k];
        lemma_work_owner(plan, k);
        let hook = work(plan)[k].hook;
        assert(hook_failed(plan, results, hook));
        assert(outcomes[hook].failed);
    }
}

/// Whether `invocation` is a command of `hook` expanded for a file of the
/// snapshot that is not deleted and that the hook selects.
pub open spec fn built_for_live_file(
    hook: HookModel,
    files: Seq<FileModel>,
    invocation: InvocationModel,
) -> bool {
    exists|f: int, c: int|
        #![trigger files[f], hook.commands[c]]
        0 <= f < files.len() && 0 <= c < hook.commands.len() && files[f].kind
            != ChangeKind::Deleted && selects(hook.selection, files[f].path) && invocation
            == expand(hook.commands[c], files[f].path)
}

/// A deleted file is never matched and never handed to a command: the files
/// that a hook applies to are not deleted, and each command that a hook runs
/// is one of its commands expanded for a file of the snapshot that is not
/// deleted and that the hook selects.
pub proof fn lemma_deleted_files_are_left_out(hook: HookModel, files: Seq<FileModel>)
    ensures
        forall|k: int|
            0 <= k < matched_files(hook, files).len() ==> (#[trigger] matched_files(
                hook,
                files,
            )[k]).kind != ChangeKind::Deleted,
        forall|k: int|
            0 <= k < hook_invocations(hook, files).len() ==> built_for_live_file(
                hook,
                files,
                #[trigger] hook_invocations(hook, files)[k],
            ),
{
    let matched = matched_files(hook, files);
    assert forall|k: int| 0 <= k < matched.len() implies (#[trigger] matched[k]).kind
        != ChangeKind::Deleted by {
        lemma_filter_origin(files, applies_to(hook), k);
    }
    let parts = matched.map_values(invocations_on(hook));
    assert forall|k: int| 0 <= k < hook_invocations(hook, files).len() implies built_for_live_file(
        hook,
        files,
        #[trigger] hook_invocations(hook, files)[k],
    ) by {
        lemma_flatten_origin(parts, k);
        let (i, c) = choose|i: int, j: int|
            0 <= i < parts.len() && 0 <= j < parts[i].len() && #[trigger] parts[i][j]
                == parts.flatten()[k];
        lemma_filter_origin(files, applies_to(hook), i);
        let f = choose|f: int|
            0 <= f < files.len() && applies_to(hook)(files[f]) && #[trigger] files[f] == matched[i];
        assert(parts[i] == file_invocations(hook.commands, files[f].path));
        assert(files[f].kind != ChangeKind::Deleted && selects(hook.selection, files[f].path));
        assert(hook_invocations(hook, files)[k] == expand(hook.commands[c], files[f].path));
    }
}

/// A hook runs only where a file of the snapshot that is not deleted is
/// selected by it: where every file that it selects is deleted, the hook
/// applies to none.
pub proof fn lemma_only_deleted_matches_nothing(hook: HookModel, files: Seq<FileModel>)
    requires
        forall|f: int|
            0 <= f < files.len() && selects(hook.selection, (#[trigger] files[f]).path)
                ==> files[f].kind == ChangeKind::Deleted,
    ensures
        matched_files(hook, files).len() == 0,
        hook_invocations(hook, files).len() == 0,
{
    lemma_filter_empty(files, applies_to(hook));
    assert(matched_files(hook, files).map_values(invocations_on(hook)) =~= Seq::empty());
}

/// A hook runs each of its commands once on each file that it applies to,
/// file after file, and on one file command after command: with `n`
/// commands, the command at `c` on the matched file at `f` is the invocation
/// at `f * n + c`.
pub proof fn lemma_invocations_in_order(hook: HookModel, files: Seq<FileModel>, f: int, c: int)
    requires
        0 <= f < matched_files(hook, files).len(),
        0 <= c < hook.commands.len(),
    ensures
        hook_invocations(hook, files).len() == matched_files(hook, files).len()
            * hook.commands.len(),
        0 <= f * hook.commands.len() + c < hook_invocations(hook, files).len(),
        hook_invocations(hook, files)[f * hook.commands.len() + c] == expand(
            hook.commands[c],
            matched_files(hook, files)[f].path,
        ),
{
    let parts = matched_files(hook, files).map_values(invocations_on(hook));
    lemma_flatten_uniform(parts, hook.commands.len(), f, c);
}

/// The hooks of a plan stand in the order of the catalog: of two hooks of the
/// plan, the one that comes first is declared first.
pub proof fn lemma_plan_keeps_catalog_order(
    catalog: Seq<HookModel>,
    skip: Seq<Seq<char>>,
    files: Seq<FileModel>,
    i: int,
    j: int,
)
    requires
        0 <= i < j < plan_of(catalog, skip, files).len(),
    ensures
        exists|a: int, b: int|
            #![trigger catalog[a], catalog[b]]
            0 <= a < b < catalog.len() && plan_of(catalog, skip, files)[i].name == catalog[a].name
                && plan_of(catalog, skip, files)[j].name == catalog[b].name,
{
    let kept = catalog.filter(runs_on(skip, files));
    lemma_filter_order(catalog, runs_on(skip, files), i, j);
    let (a, b) = choose|a: int, b: int|
        #![trigger catalog[a], catalog[b]]
        0 <= a < b < catalog.len() && catalog[a] == kept[i] && catalog[b] == kept[j];
    assert(plan_of(catalog, skip, files)[i] == planned_on(files)(kept[i]));
    assert(plan_of(catalog, skip, files)[j] == planned_on(files)(kept[j]));
}

/// Whether the last `.` of `path` stands at `at`.
pub open spec fn last_dot_at(path: Seq<char>, at: int) -> bool {
    &&& 0 <= at < path.len()
    &&& path[at] == '.'
    &&& forall|k: int| at < k < path.len() ==> path[k] != '.'
}

/// The extension of a path is what follows its last `.`.
pub proof fn lemma_extension_follows_last_dot(extension: Seq<char>, path: Seq<char>)
    ensures
        is_extension_of(extension, path) <==> exists|at: int|
            #[trigger] last_dot_at(path, at) && extension == path.skip(at + 1),
{
    if is_extension_of(extension, path) {
        let at = path.len() - extension.len() - 1;
        assert forall|k: int| at < k < path.len() implies path[k] != '.' by {
            assert(path[k] == path.skip(at + 1)[k - at - 1]);
            if path[k] == '.' {
                assert(extension.contains('.'));
            }
        }
        assert(last_dot_at(path, at));
    }
    if exists|at: int| #[trigger] last_dot_at(path, at) && extension == path.skip(at + 1) {
        let at = choose|at: int| #[trigger] last_dot_at(path, at) && extension == path.skip(at + 1);
        if extension.contains('.') {
            let k = choose|k: int| 0 <= k < extension.len() && extension[k] == '.';
            assert(path[at + 1 + k] == '.');
        }
        assert(path.skip(path.len() - extension.len()) == extension);
    }
}

} // verus!
