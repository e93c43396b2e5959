//! The run itself: a machine that hands out one command at a time, takes
//! in how it ended, and folds the results into the report.

use vstd::prelude::*;

use crate::catalog::{hooks_of, Catalog, HookModel};
use crate::change::{ChangedFile, FileModel};
use crate::command::{Invocation, InvocationModel};
use crate::error::{ConfigurationError, EnvironmentError, EnvironmentFault};
use crate::plan::{
    first_invalid, invalid_selection, plan_hooks, plan_of, selections_valid, HookPlan,
    HookPlanModel,
};
use crate::report::{summed, HookOutcome, OutcomeModel, ReportModel, RunReport};
use crate::work::{
    lemma_settled, lemma_work_at, lemma_work_next, lemma_work_owner, settled_after, work,
    work_before, WorkItem,
};

verus! {

/// Whether a command of the hook at `hook` failed, where `results` tells of
/// the commands started so far, in order, whether each succeeded.
pub open spec fn hook_failed(plan: Seq<HookPlanModel>, results: Seq<bool>, hook: int) -> bool {
    exists|k: int|
        0 <= k < results.len() && k < work(plan).len() && (#[trigger] work(plan)[k]).hook == hook
            && !results[k]
}

/// The outcome of the hook at `hook`. Every hook of a plan ran.
pub open spec fn outcome_of(
    plan: Seq<HookPlanModel>,
    results: Seq<bool>,
    hook: int,
) -> OutcomeModel {
    OutcomeModel { hook_name: plan[hook].name, ran: true, failed: hook_failed(plan, results, hook) }
}

/// The outcomes of the first `count` hooks of `plan`, in order.
pub open spec fn outcomes_of(plan: Seq<HookPlanModel>, results: Seq<bool>, count: int) -> Seq<
    OutcomeModel,
> {
    Seq::new(count as nat, |hook: int| outcome_of(plan, results, hook))
}

/// The report of a run of `plan` in which the commands ended as `results`
/// tells.
pub open spec fn report_of(plan: Seq<HookPlanModel>, results: Seq<bool>) -> ReportModel {
    summed(outcomes_of(plan, results, plan.len() as int))
}

/// The plan of a run. A commit that concludes a merge runs no hook,
/// whatever the catalog holds.
pub open spec fn run_plan(
    merging: bool,
    catalog: Seq<HookModel>,
    skip: Seq<Seq<char>>,
    files: Seq<FileModel>,
) -> Seq<HookPlanModel> {
    if merging {
        Seq::empty()
    } else {
        plan_of(catalog, skip, files)
    }
}

/// What the one who starts the commands tells the controller.
#[derive(Clone, Copy, Debug, PartialEq, Eq)]
pub enum Event {
    /// Nothing happened: the run begins, or goes on after an outcome was
    /// taken note of.
    Continue,
    /// The command that was handed out ran and came to an end.
    Exited { succeeded: bool },
    /// The command that was handed out could not be started.
    SpawnFailed,
}

/// The view of what the controller asks for.
pub enum ActionModel {
    Run(InvocationModel),
    Report(OutcomeModel),
    Finish(ReportModel),
    Abort { error: EnvironmentFault, report: ReportModel },
}

/// What the controller asks for in answer to an event.
#[derive(Clone, Debug, PartialEq, Eq)]
pub enum Action {
    /// Start this command and tell how it ended.
    Run(Invocation),
    /// A hook is done: this is its outcome. Take note of it and go on.
    Report(HookOutcome),
    /// The run is over: this is its report.
    Finish(RunReport),
    /// The run was given up because a command could not be started. The
    /// report holds the hooks that were done before.
    Abort { error: EnvironmentError, report: RunReport },
}

impl View for Action {
    type V = ActionModel;

    open spec fn view(&self) -> ActionModel {
        match self {
            Action::Run(invocation) => ActionModel::Run(invocation@),
            Action::Report(outcome) => ActionModel::Report(outcome@),
            Action::Finish(report) => ActionModel::Finish(report@),
            Action::Abort { error, report } => ActionModel::Abort {
                error: error@,
                report: report@,
            },
        }
    }
}

/// The state of a run: its plan, how the commands that were started so far
/// ended, of how many hooks the outcome was handed out, whether the answer
/// for one more command is awaited, and whether the run was given up.
pub struct RunState {
    pub plan: Seq<HookPlanModel>,
    pub results: Seq<bool>,
    pub announced: nat,
    pub awaiting: bool,
    pub aborted: bool,
}

/// The state in which a run of `plan` begins.
pub open spec fn initial(plan: Seq<HookPlanModel>) -> RunState {
    RunState { plan, results: Seq::empty(), announced: 0, awaiting: false, aborted: false }
}

/// The command that comes next in `state`: the first one of which `results`
/// does not tell.
pub open spec fn pending(state: RunState) -> WorkItem {
    work(state.plan)[state.results.len() as int]
}

/// The number of hooks that are done in `state`.
pub open spec fn settled(state: RunState) -> int {
    settled_after(state.plan, state.results.len() as int)
}

/// Whether `state` is a state that a run can be in: no more results than
/// commands, no outcome handed out of a hook that is not done, a command
/// awaited only once the outcomes of all hooks before its own were handed
/// out, and a run given up only over a command that is awaited.
pub open spec fn state_valid(state: RunState) -> bool {
    &&& state.results.len() <= work(state.plan).len()
    &&& state.announced <= settled(state)
    &&& state.awaiting ==> state.results.len() < work(state.plan).len() && state.announced
        == settled(state)
    &&& state.aborted ==> state.awaiting
}

/// The answer to everything once a run was given up: the command that could
/// not be started, and the report of the hooks that were done before.
pub open spec fn abort_of(state: RunState) -> ActionModel {
    ActionModel::Abort {
        error: EnvironmentFault {
            hook: state.plan[pending(state).hook].name,
            program: pending(state).invocation.program,
        },
        report: summed(outcomes_of(state.plan, state.results, state.announced as int)),
    }
}

/// Goes on with a run in which no command is awaited: hands out the outcome
/// of the next hook that is done, or else the next command, or else, where
/// none is left, the report.
pub open spec fn proceed(state: RunState) -> (RunState, ActionModel) {
    if state.announced < settled(state) {
        (
            RunState { announced: state.announced + 1, ..state },
            ActionModel::Report(outcome_of(state.plan, state.results, state.announced as int)),
        )
    } else if state.results.len() < work(state.plan).len() {
        (RunState { awaiting: true, ..state }, ActionModel::Run(pending(state).invocation))
    } else {
        (state, ActionModel::Finish(report_of(state.plan, state.results)))
    }
}

/// The step of a run: from a state and an event to the next state and what
/// to do next.
///
/// A run that was given up stays so. While a command is awaited, the news
/// that it ended is recorded and the run goes on; the news that it could not
/// be started gives the run up; without news the same command is handed out
/// again. While no command is awaited any event makes the run go on.
pub open spec fn transition(state: RunState, event: Event) -> (RunState, ActionModel) {
    if state.aborted {
        (state, abort_of(state))
    } else if state.awaiting {
        match event {
            Event::Exited { succeeded } => proceed(
                RunState { results: state.results.push(succeeded), awaiting: false, ..state },
            ),
            Event::SpawnFailed => (RunState { aborted: true, ..state }, abort_of(state)),
            Event::Continue => (state, ActionModel::Run(pending(state).invocation)),
        }
    } else {
        proceed(state)
    }
}

/// Recording how one more command ended changes the hook that the command
/// belongs to, where the command failed, and no other hook.
pub proof fn lemma_record(
    plan: Seq<HookPlanModel>,
    results: Seq<bool>,
    succeeded: bool,
    hook: int,
)
    requires
        results.len() < work(plan).len(),
    ensures
        hook_failed(plan, results.push(succeeded), hook) == (hook_failed(plan, results, hook) || (
        !succeeded && work(plan)[results.len() as int].hook == hook)),
{
    let longer = results.push(succeeded);
    if hook_failed(plan, longer, hook) {
        let k = choose|k: int|
            0 <= k < longer.len() && k < work(plan).len() && (#[trigger] work(plan)[k]).hook == hook
                && !longer[k];
        if k < results.len() {
            assert(!results[k]);
        }
    }
    if hook_failed(plan, results, hook) {
        let k = choose|k: int|
            0 <= k < results.len() && k < work(plan).len() && (#[trigger] work(plan)[k]).hook
                == hook && !results[k];
        assert(!longer[k]);
    }
    if !succeeded && work(plan)[results.len() as int].hook == hook {
        assert(!longer[results.len() as int]);
    }
}

/// A hook none of whose commands was started has not failed.
pub proof fn lemma_not_started(plan: Seq<HookPlanModel>, results: Seq<bool>, hook: int)
    requires
        0 <= hook < plan.len(),
        results.len() <= work_before(plan, hook),
    ensures
        !hook_failed(plan, results, hook),
{
    if hook_failed(plan, results, hook) {
        let k = choose|k: int|
            0 <= k < results.len() && k < work(plan).len() && (#[trigger] work(plan)[k]).hook
                == hook && !results[k];
        lemma_work_owner(plan, k);
    }
}

/// A copy of `outcomes`.
fn clone_outcomes(outcomes: &Vec<HookOutcome>) -> (copy: Vec<HookOutcome>)
    ensures
        copy.deep_view() == outcomes.deep_view(),
{
    let mut copy: Vec<HookOutcome> = Vec::new();
    let mut i: usize = 0;
    while i < outcomes.len()
        invariant
            i <= outcomes.len(),
            copy.len() == i,
            forall|k: int| 0 <= k < i ==> (#[trigger] copy[k])@ == outcomes[k]@,
        decreases outcomes.len() - i,
    {
        copy.push(outcomes[i].duplicate());
        i += 1;
    }
    assert(copy.deep_view() =~= outcomes.deep_view());
    copy
}

/// Runs the hooks of a plan, one command at a time. The controller decides
/// what to do next; the one who holds it starts the commands and tells how
/// they ended.
pub struct RunController {
    /// The hooks that run, each with its commands.
    plan: Vec<HookPlan>,
    /// The hook that the run is at: the hooks before it are done and their
    /// outcomes handed out.
    hook: usize,
    /// How many commands of that hook were handed out.
    next: usize,
    /// Whether the answer for the last of them is awaited.
    awaiting: bool,
    /// Whether the run was given up.
    aborted: bool,
    /// Whether a command of that hook failed.
    failed: bool,
    /// The outcomes of the hooks that are done.
    outcomes: Vec<HookOutcome>,
    /// How the commands that were started ended, in order.
    results: Ghost<Seq<bool>>,
}

impl View for RunController {
    type V = RunState;

    closed spec fn view(&self) -> RunState {
        RunState {
            plan: self.plan.deep_view(),
            results: self.results@,
            announced: self.hook as nat,
            awaiting: self.awaiting,
            aborted: self.aborted,
        }
    }
}

impl RunController {
    #[verifier::type_invariant]
    spec fn consistent(&self) -> bool {
        let plan = self.plan.deep_view();
        let results = self.results@;
        &&& self.hook <= plan.len()
        &&& self.hook < plan.len() ==> self.next <= plan[self.hook as int].invocations.len()
        &&& self.hook == plan.len() ==> self.next == 0
        &&& self.awaiting ==> self.hook < plan.len() && self.next >= 1
        &&& self.aborted ==> self.awaiting
        &&& results.len() + (if self.awaiting {
            1int
        } else {
            0int
        }) == work_before(plan, self.hook as int) + self.next
        &&& self.outcomes.deep_view() == outcomes_of(plan, results, self.hook as int)
        &&& self.failed == (self.hook < plan.len() && hook_failed(plan, results, self.hook as int))
    }

    /// Prepares a run: plans it, and stands ready to begin.
    ///
    /// A commit that concludes a merge runs nothing, whatever the catalog
    /// holds. Where the configuration has no bucket for this run, `hooks` is
    /// `None` and the run has nothing to do. Otherwise each hook that is not
    /// in `skip` is matched against the snapshot `files`; see `plan_hooks`.
    pub fn new(
        merging: bool,
        hooks: Option<&Catalog>,
        skip: &Vec<String>,
        files: &Vec<ChangedFile>,
    ) -> (made: Result<RunController, ConfigurationError>)
        ensures
            made is Ok <==> merging || selections_valid(hooks_of(hooks), skip.deep_view()),
            made matches Ok(controller) ==> controller@ == initial(
                run_plan(merging, hooks_of(hooks), skip.deep_view(), files.deep_view()),
            ),
            made matches Err(e) ==> exists|at: int|
                first_invalid(hooks_of(hooks), skip.deep_view(), at) && e@ == invalid_selection(
                    #[trigger] hooks_of(hooks)[at],
                ),
    {
        let plan: Vec<HookPlan> = if merging {
            Vec::new()
        } else {
            match hooks {
                None => {
                    let empty: Vec<HookPlan> = Vec::new();
                    proof {
                        reveal(Seq::filter);
                        assert(empty.deep_view() =~= plan_of(
                            Seq::empty(),
                            skip.deep_view(),
                            files.deep_view(),
                        ));
                    }
                    empty
                },
                Some(catalog) => {
                    match plan_hooks(catalog, skip, files) {
                        Ok(plan) => plan,
                        Err(e) => {
                            proof {
                                let at = choose|at: int|
                                    first_invalid(catalog@, skip.deep_view(), at) && e@
                                        == invalid_selection(#[trigger] catalog@[at]);
                                assert(hooks_of(hooks)[at] == catalog@[at]);
                            }
                            return Err(e);
                        },
                    }
                },
            }
        };
        proof {
            assert(plan.deep_view() =~= run_plan(
                merging,
                hooks_of(hooks),
                skip.deep_view(),
                files.deep_view(),
            ));
            assert(plan.deep_view().take(0) =~= Seq::<HookPlanModel>::empty());
        }
        let outcomes: Vec<HookOutcome> = Vec::new();
        proof {
            assert(outcomes.deep_view() =~= outcomes_of(plan.deep_view(), Seq::empty(), 0));
            if plan.len() > 0 {
                lemma_not_started(plan.deep_view(), Seq::empty(), 0);
            }
        }
        Ok(
            RunController {
                plan,
                hook: 0,
                next: 0,
                awaiting: false,
                aborted: false,
                failed: false,
                outcomes,
                results: Ghost(Seq::empty()),
            },
        )
    }

    /// Takes `event` in and says what to do next: see `transition`.
    pub fn step(self, event: Event) -> (next: (RunController, Action))
        ensures
            state_valid(self@),
            state_valid(next.0@),
            (next.0@, next.1@) == transition(self@, event),
    {
        proof {
            use_type_invariant(&self);
        }
        let RunController { plan, hook, next, awaiting, aborted, failed, outcomes, results } =
            self;
        let ghost model = plan.deep_view();
        let mut failed = failed;
        let mut results = results;
        if awaiting {
            proof {
                lemma_work_at(model, hook as int, next - 1);
            }
            let pending = &plan[hook].invocations[next - 1];
            assert(pending@ == model[hook as int].invocations[next - 1]);
            match event {
                Event::Exited { succeeded } if !aborted => {
                    proof {
                        assert forall|h: int| 0 <= h <= hook implies hook_failed(
                            model,
                            results@.push(succeeded),
                            h,
                        ) == (hook_failed(model, results@, h) || (!succeeded && h == hook)) by {
                            lemma_record(model, results@, succeeded, h);
                        }
                        assert(outcomes_of(model, results@.push(succeeded), hook as int)
                            =~= outcomes_of(model, results@, hook as int));
                    }
                    results = Ghost(results@.push(succeeded));
                    failed = failed || !succeeded;
                },
                Event::Continue if !aborted => {
                    let action = Action::Run(pending.duplicate());
                    return (
                        RunController {
                            plan,
                            hook,
                            next,
                            awaiting,
                            aborted,
                            failed,
                            outcomes,
                            results,
                        },
                        action,
                    );
                },
                _ => {
                    let action = Action::Abort {
                        error: EnvironmentError {
                            hook: plan[hook].name.clone(),
                            program: pending.program.clone(),
                        },
                        report: RunReport::new(clone_outcomes(&outcomes)),
                    };
                    return (
                        RunController {
                            plan,
                            hook,
                            next,
                            awaiting,
                            aborted: true,
                            failed,
                            outcomes,
                            results,
                        },
                        action,
                    );
                },
            }
        }
        proof {
            lemma_settled(model, hook as int, next as int);
        }
        if hook < plan.len() && next == plan[hook].invocations.len() {
            let mut outcomes = outcomes;
            let ghost done = outcomes.deep_view();
            let outcome = HookOutcome { hook_name: plan[hook].name.clone(), ran: true, failed };
            let action = Action::Report(outcome.duplicate());
            outcomes.push(outcome);
            proof {
                lemma_work_next(model, hook as int);
                assert(outcomes.deep_view() =~= done.push(outcome@));
                assert(outcomes.deep_view() =~= outcomes_of(model, results@, hook + 1));
                if hook + 1 < plan.len() {
                    lemma_not_started(model, results@, hook + 1);
                }
                lemma_settled(model, hook + 1, 0);
            }
            (
                RunController {
                    plan,
                    hook: hook + 1,
                    next: 0,
                    awaiting: false,
                    aborted,
                    failed: false,
                    outcomes,
                    results,
                },
                action,
            )
        } else if hook < plan.len() {
            proof {
                lemma_work_at(model, hook as int, next as int);
            }
            let invocation = &plan[hook].invocations[next];
            assert(invocation@ == model[hook as int].invocations[next as int]);
            let action = Action::Run(invocation.duplicate());
            (
                RunController {
                    plan,
                    hook,
                    next: next + 1,
                    awaiting: true,
                    aborted,
                    failed,
                    outcomes,
                    results,
                },
                action,
            )
        } else {
            let action = Action::Finish(RunReport::new(clone_outcomes(&outcomes)));
            (
                RunController {
                    plan,
                    hook,
                    next,
                    awaiting: false,
                    aborted,
                    failed,
                    outcomes,
                    results,
                },
                action,
            )
        }
    }
}

} // verus!
