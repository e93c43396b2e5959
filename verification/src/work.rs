//! The commands of a plan in the order in which a run starts them, and which
//! hook each of them belongs to.

use vstd::prelude::*;

use crate::command::InvocationModel;
use crate::plan::HookPlanModel;

verus! {

/// One command to start, and the hook of the plan that it belongs to.
pub struct WorkItem {
    pub hook: int,
    pub invocation: InvocationModel,
}

/// The commands of the hook at `hook` in `plan`, in order.
pub open spec fn hook_work(plan: Seq<HookPlanModel>, hook: int) -> Seq<WorkItem> {
    Seq::new(
        plan[hook].invocations.len(),
        |k: int| WorkItem { hook, invocation: plan[hook].invocations[k] },
    )
}

/// All commands of `plan` in the order in which they are started: hook by
/// hook, and within a hook in the order of its plan.
pub open spec fn work(plan: Seq<HookPlanModel>) -> Seq<WorkItem>
    decreases plan.len(),
{
    if plan.len() == 0 {
        Seq::empty()
    } else {
        work(plan.drop_last()) + hook_work(plan, plan.len() - 1)
    }
}

/// The number of commands that belong to the first `hook` hooks of `plan`.
pub open spec fn work_before(plan: Seq<HookPlanModel>, hook: int) -> nat {
    work(plan.take(hook)).len()
}

/// The number of hooks that are done once the first `ended` commands of
/// `plan` have ended: those before the hook of the command that comes next,
/// or all where no command is left.
pub open spec fn settled_after(plan: Seq<HookPlanModel>, ended: int) -> int {
    if ended < work(plan).len() {
        work(plan)[ended].hook
    } else {
        plan.len() as int
    }
}

/// The commands of the first `hook + 1` hooks are those of the first `hook`
/// hooks and then those of the hook at `hook`.
pub proof fn lemma_work_next(plan: Seq<HookPlanModel>, hook: int)
    requires
        0 <= hook < plan.len(),
    ensures
        work(plan.take(hook + 1)) == work(plan.take(hook)) + hook_work(plan, hook),
        work_before(plan, hook + 1) == work_before(plan, hook) + plan[hook].invocations.len(),
{
    let longer = plan.take(hook + 1);
    assert(longer.drop_last() =~= plan.take(hook));
    assert(hook_work(longer, hook) =~= hook_work(plan, hook));
}

/// The commands of the first hooks of a plan are the first commands of the
/// plan.
pub proof fn lemma_work_prefix(plan: Seq<HookPlanModel>, hook: int)
    requires
        0 <= hook <= plan.len(),
    ensures
        work_before(plan, hook) <= work(plan).len(),
        work(plan).take(work_before(plan, hook) as int) == work(plan.take(hook)),
    decreases plan.len() - hook,
{
    if hook == plan.len() {
        assert(plan.take(hook) =~= plan);
        assert(work(plan).take(work(plan).len() as int) =~= work(plan));
    } else {
        lemma_work_prefix(plan, hook + 1);
        lemma_work_next(plan, hook);
        assert(work(plan).take(work_before(plan, hook) as int) =~= work(plan.take(hook + 1)).take(
            work_before(plan, hook) as int,
        ));
        assert(work(plan.take(hook + 1)).take(work_before(plan, hook) as int) =~= work(
            plan.take(hook),
        ));
    }
}

/// Where the command at `at` of the hook at `hook` stands among all
/// commands of the plan.
pub proof fn lemma_work_at(plan: Seq<HookPlanModel>, hook: int, at: int)
    requires
        0 <= hook < plan.len(),
        0 <= at < plan[hook].invocations.len(),
    ensures
        work_before(plan, hook) + at < work_before(plan, hook + 1) <= work(plan).len(),
        work(plan)[work_before(plan, hook) + at] == (WorkItem {
            hook,
            invocation: plan[hook].invocations[at],
        }),
{
    lemma_work_prefix(plan, hook + 1);
    lemma_work_next(plan, hook);
    let k = work_before(plan, hook) + at;
    assert(work(plan)[k] == work(plan).take(work_before(plan, hook + 1) as int)[k]);
    assert(work(plan.take(hook + 1))[k] == hook_work(plan, hook)[at]);
}

/// Each command of a plan belongs to one of the first `upper` hooks, if it
/// stands before the commands of the hooks behind them.
proof fn lemma_work_owner_below(plan: Seq<HookPlanModel>, k: int, upper: int)
    requires
        0 <= upper <= plan.len(),
        0 <= k < work_before(plan, upper),
    ensures
        0 <= work(plan)[k].hook < upper,
        work_before(plan, work(plan)[k].hook) <= k < work_before(plan, work(plan)[k].hook + 1),
        work(plan)[k].invocation == plan[work(plan)[k].hook].invocations[k - work_before(
            plan,
            work(plan)[k].hook,
        )],
    decreases upper,
{
    if upper == 0 {
        assert(plan.take(0) =~= Seq::<HookPlanModel>::empty());
    } else {
        lemma_work_next(plan, upper - 1);
        if k < work_before(plan, upper - 1) {
            lemma_work_owner_below(plan, k, upper - 1);
        } else {
            lemma_work_at(plan, upper - 1, k - work_before(plan, upper - 1));
        }
    }
}

/// Each command of a plan belongs to one hook of the plan, and stands among
/// the commands of that hook.
pub proof fn lemma_work_owner(plan: Seq<HookPlanModel>, k: int)
    requires
        0 <= k < work(plan).len(),
    ensures
        0 <= work(plan)[k].hook < plan.len(),
        work_before(plan, work(plan)[k].hook) <= k < work_before(plan, work(plan)[k].hook + 1),
        work(plan)[k].invocation == plan[work(plan)[k].hook].invocations[k - work_before(
            plan,
            work(plan)[k].hook,
        )],
{
    assert(plan.take(plan.len() as int) =~= plan);
    lemma_work_owner_below(plan, k, plan.len() as int);
}

/// The more hooks, the more commands belong to them.
pub proof fn lemma_work_before_grows(plan: Seq<HookPlanModel>, fewer: int, more: int)
    requires
        0 <= fewer <= more <= plan.len(),
    ensures
        work_before(plan, fewer) <= work_before(plan, more),
    decreases more - fewer,
{
    if fewer < more {
        lemma_work_before_grows(plan, fewer, more - 1);
        lemma_work_next(plan, more - 1);
    }
}

/// Which hooks are done once all commands of the first `hook` hooks and
/// `next` commands of the hook at `hook` have ended: the hooks before it, and
/// the hook itself too where `next` are all its commands.
pub proof fn lemma_settled(plan: Seq<HookPlanModel>, hook: int, next: int)
    requires
        0 <= hook <= plan.len(),
        hook < plan.len() ==> 0 <= next <= plan[hook].invocations.len(),
        hook == plan.len() ==> next == 0,
    ensures
        work_before(plan, hook) + next <= work(plan).len(),
        hook <= settled_after(plan, work_before(plan, hook) + next),
        hook < settled_after(plan, work_before(plan, hook) + next) <==> hook < plan.len() && next
            == plan[hook].invocations.len(),
        hook == plan.len() ==> work_before(plan, hook) + next == work(plan).len(),
{
    let at = work_before(plan, hook) + next;
    lemma_work_prefix(plan, hook);
    if hook == plan.len() {
        assert(plan.take(hook) =~= plan);
    } else if next < plan[hook].invocations.len() {
        lemma_work_at(plan, hook, next);
    } else {
        lemma_work_next(plan, hook);
        lemma_work_prefix(plan, hook + 1);
        if at < work(plan).len() {
            lemma_work_owner(plan, at);
            let owner = work(plan)[at].hook;
            if owner <= hook {
                lemma_work_before_grows(plan, owner + 1, hook + 1);
            }
        }
    }
}

/// No hook that is done is undone by a command that ends later.
pub proof fn lemma_settled_grows(plan: Seq<HookPlanModel>, fewer: int, more: int)
    requires
        0 <= fewer <= more,
    ensures
        0 <= settled_after(plan, fewer) <= settled_after(plan, more) <= plan.len(),
{
    if fewer < work(plan).len() {
        lemma_work_owner(plan, fewer);
    }
    if more < work(plan).len() {
        lemma_work_owner(plan, more);
        let first = work(plan)[fewer].hook;
        let second = work(plan)[more].hook;
        if second < first {
            lemma_work_before_grows(plan, second + 1, first);
        }
    }
}

} // verus!
