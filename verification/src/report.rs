//! The outcome of each hook and the report that they add up to.

use vstd::prelude::*;

verus! {

/// The view of the outcome of a hook.
pub struct OutcomeModel {
    pub hook_name: Seq<char>,
    pub ran: bool,
    pub failed: bool,
}

/// What became of one hook in a run: whether it had a file to run on, and
/// whether one of its commands failed.
#[derive(Clone, Debug, PartialEq, Eq)]
pub struct HookOutcome {
    pub hook_name: String,
    pub ran: bool,
    pub failed: bool,
}

impl View for HookOutcome {
    type V = OutcomeModel;

    open spec fn view(&self) -> OutcomeModel {
        OutcomeModel { hook_name: self.hook_name@, ran: self.ran, failed: self.failed }
    }
}

impl DeepView for HookOutcome {
    type V = OutcomeModel;

    open spec fn deep_view(&self) -> OutcomeModel {
        self@
    }
}

impl HookOutcome {
    /// An outcome that holds what this one holds.
    pub fn duplicate(&self) -> (copy: HookOutcome)
        ensures
            copy@ == self@,
    {
        HookOutcome { hook_name: self.hook_name.clone(), ran: self.ran, failed: self.failed }
    }
}

/// Whether one of `outcomes` is a failure.
pub open spec fn any_failed(outcomes: Seq<OutcomeModel>) -> bool {
    exists|i: int| 0 <= i < outcomes.len() && (#[trigger] outcomes[i]).failed
}

/// Whether `outcome` is a failure, as a function.
pub open spec fn is_failure() -> spec_fn(OutcomeModel) -> bool {
    |outcome: OutcomeModel| outcome.failed
}

/// The name of an outcome's hook, as a function.
pub open spec fn name_of() -> spec_fn(OutcomeModel) -> Seq<char> {
    |outcome: OutcomeModel| outcome.hook_name
}

/// The names of the hooks that failed, in the order of `outcomes`.
pub open spec fn failed_names(outcomes: Seq<OutcomeModel>) -> Seq<Seq<char>> {
    outcomes.filter(is_failure()).map_values(name_of())
}

/// The view of the report of a run.
pub struct ReportModel {
    pub outcomes: Seq<OutcomeModel>,
    pub overall_failed: bool,
}

/// The report that `outcomes` add up to: the run failed if one of them did.
pub open spec fn summed(outcomes: Seq<OutcomeModel>) -> ReportModel {
    ReportModel { outcomes, overall_failed: any_failed(outcomes) }
}

/// What a run reports: the outcome of each hook that ran, in the order of
/// the catalog, and whether the run as a whole failed.
#[derive(Clone, Debug, PartialEq, Eq)]
pub struct RunReport {
    pub outcomes: Vec<HookOutcome>,
    pub overall_failed: bool,
}

impl View for RunReport {
    type V = ReportModel;

    open spec fn view(&self) -> ReportModel {
        ReportModel { outcomes: self.outcomes.deep_view(), overall_failed: self.overall_failed }
    }
}

impl RunReport {
    /// Sums `outcomes` up to a report.
    pub fn new(outcomes: Vec<HookOutcome>) -> (report: RunReport)
        ensures
            report@ == summed(outcomes.deep_view()),
    {
        let ghost all = outcomes.deep_view();
        let mut overall_failed = false;
        let mut i: usize = 0;
        while i < outcomes.len()
            invariant
                i <= outcomes.len(),
                all == outcomes.deep_view(),
                overall_failed == any_failed(all.take(i as int)),
            decreases outcomes.len() - i,
        {
            proof {
                let shorter = all.take(i as int);
                let longer = all.take(i + 1);
                assert(longer[i as int] == outcomes[i as int]@);
                if any_failed(shorter) {
                    let k = choose|k: int| 0 <= k < shorter.len() && shorter[k].failed;
                    assert(longer[k].failed);
                }
                if any_failed(longer) && !outcomes[i as int].failed {
                    let k = choose|k: int| 0 <= k < longer.len() && longer[k].failed;
                    assert(shorter[k].failed);
                }
            }
            if outcomes[i].failed {
                overall_failed = true;
            }
            i += 1;
        }
        assert(all.take(i as int) =~= all);
        RunReport { outcomes, overall_failed }
    }

    /// The names of the hooks that failed, in the order of the report.
    pub fn failed_hooks(&self) -> (names: Vec<String>)
        ensures
            names.deep_view() == failed_names(self@.outcomes),
    {
        let ghost all = self.outcomes.deep_view();
        let mut names: Vec<String> = Vec::new();
        let mut i: usize = 0;
        while i < self.outcomes.len()
            invariant
                i <= self.outcomes.len(),
                all == self.outcomes.deep_view(),
                names.deep_view() == failed_names(all.take(i as int)),
            decreases self.outcomes.len() - i,
        {
            proof {
                let shorter = all.take(i as int);
                let longer = all.take(i + 1);
                assert(longer.drop_last() =~= shorter);
                assert(longer.last() == self.outcomes[i as int]@);
                reveal(Seq::filter);
                if self.outcomes[i as int].failed {
                    assert(longer.filter(is_failure()) == shorter.filter(is_failure()).push(
                        longer.last(),
                    ));
                    assert(failed_names(longer) =~= failed_names(shorter).push(
                        self.outcomes[i as int].hook_name@,
                    ));
                } else {
                    assert(longer.filter(is_failure()) == shorter.filter(is_failure()));
                }
            }
            let ghost before = names.deep_view();
            if self.outcomes[i].failed {
                names.push(self.outcomes[i].hook_name.clone());
                assert(names.deep_view() =~= before.push(self.outcomes[i as int].hook_name@));
            }
            i += 1;
        }
        assert(all.take(i as int) =~= all);
        names
    }
}

} // verus!
