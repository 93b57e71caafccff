//! Executes registered workflows and keeps an observable record of the
//! runs: per active run a snapshot of id, step, agent, elapsed time and
//! completion.

use vstd::prelude::*;
use vstd::string::StringExecFns;
use crate::outside::fresh_run_id;
use crate::strutil::{join_seq, str_eq};
use crate::team::opt_str_view;
use crate::workflow::state::{WorkflowState, WorkflowStateModel};
use crate::workflow::workflow_trait::{
    cot_outputs, ChainOfThoughtWorkflow, Workflow, WorkflowStep, WorkflowStepModel,
};

verus! {

/// A read-only snapshot of one active run, for observability.
#[derive(Debug)]
pub struct WorkflowStatus {
    pub workflow_id: String,
    pub current_step: usize,
    pub current_agent: Option<String>,
    pub execution_time: u64,
    pub is_complete: bool,
}

/// Executes workflows by name and tracks their states.
pub struct WorkflowRunner {
    workflows: Vec<(String, ChainOfThoughtWorkflow)>,
    active_states: Vec<(String, WorkflowState)>,
}

pub struct RunnerModel {
    pub workflows: Seq<(Seq<char>, Seq<WorkflowStepModel>)>,
    pub active: Seq<(Seq<char>, WorkflowStateModel)>,
}

impl View for WorkflowRunner {
    type V = RunnerModel;

    closed spec fn view(&self) -> RunnerModel {
        RunnerModel {
            workflows: Seq::new(
                self.workflows@.len(),
                |i: int| (self.workflows@[i].0@, self.workflows@[i].1@),
            ),
            active: Seq::new(
                self.active_states@.len(),
                |i: int| (self.active_states@[i].0@, self.active_states@[i].1@),
            ),
        }
    }
}

/// The registered workflow a name denotes: the newest registration wins.
pub open spec fn registered(
    s: Seq<(Seq<char>, Seq<WorkflowStepModel>)>,
    name: Seq<char>,
) -> Option<Seq<WorkflowStepModel>>
    decreases s.len(),
{
    if s.len() == 0 {
        None
    } else if s.last().0 == name {
        Some(s.last().1)
    } else {
        registered(s.drop_last(), name)
    }
}

impl WorkflowRunner {
    /// A runner with no workflows registered and no active runs.
    pub fn new() -> (r: WorkflowRunner)
        ensures
            r@.workflows.len() == 0,
            r@.active.len() == 0,
    {
        let r = WorkflowRunner { workflows: Vec::new(), active_states: Vec::new() };
        r
    }

    /// Register a workflow under a name; a later registration of the same
    /// name wins.
    pub fn register_workflow(&mut self, name: &str, workflow: ChainOfThoughtWorkflow)
        ensures
            final(self)@.workflows == old(self)@.workflows.push((name@, workflow@)),
            final(self)@.active == old(self)@.active,
    {
        self.workflows.push((name.to_owned(), workflow));
        proof {
            assert(self@.workflows =~= old(self)@.workflows.push(
                (name@, self.workflows@.last().1@),
            ));
            assert(self@.active =~= old(self)@.active);
        }
    }

    /// Execute the named workflow on the input: a fresh state is tracked
    /// under a fresh run id and the workflow's result returned. An unknown
    /// name is an error. On success the snapshots gain exactly one entry:
    /// the fresh id paired with the state the workflow's run left behind.
    pub fn execute_workflow(&mut self, workflow_name: &str, input: &str) -> (r: Result<
        String,
        String,
    >)
        ensures
            final(self)@.workflows == old(self)@.workflows,
            r is Ok <==> registered(old(self)@.workflows, workflow_name@) is Some,
            r is Ok ==> r->Ok_0@ == join_seq(
                cot_outputs(
                    registered(old(self)@.workflows, workflow_name@)->0,
                    input@,
                    registered(old(self)@.workflows, workflow_name@)->0.len() as int,
                ),
                "\n\n"@,
            ),
            r is Ok ==> final(self)@.active == old(self)@.active.push(
                final(self)@.active.last(),
            ),
            r is Ok ==> ({
                let entry = final(self)@.active.last();
                let steps = registered(old(self)@.workflows, workflow_name@)->0;
                &&& entry.0.len() == 36
                &&& entry.1.workflow_id == entry.0
                &&& entry.1.variables.len() == 0
                &&& entry.1.metadata.len() == 0
                &&& entry.1.step_results.len() == 0
                &&& entry.1.current_step == if steps.len() == 0 {
                    0int
                } else {
                    steps.len() - 1
                }
                &&& entry.1.current_agent == if steps.len() == 0 {
                    None::<Seq<char>>
                } else {
                    Some(steps[steps.len() - 1].agent)
                }
            }),
            r is Err ==> final(self)@.active == old(self)@.active,
            r is Err ==> r->Err_0@ == "Workflow '"@ + workflow_name@ + "' not found"@,
    {
        let ghost wv = self@.workflows;
        let mut found: Option<usize> = None;
        let mut i: usize = self.workflows.len();
        proof {
            assert(wv.len() == self.workflows@.len());
            assert(wv.take(wv.len() as int) =~= wv);
        }
        while i > 0 && found.is_none()
            invariant
                wv == self@.workflows,
                wv.len() == self.workflows@.len(),
                i <= self.workflows@.len(),
                match found {
                    Some(j) => 0 <= j < wv.len() && registered(wv, workflow_name@) == Some(
                        wv[j as int].1,
                    ),
                    None => registered(wv, workflow_name@) == registered(
                        wv.take(i as int),
                        workflow_name@,
                    ),
                },
            decreases i,
        {
            i -= 1;
            proof {
                assert(wv[i as int] == (self.workflows@[i as int].0@, self.workflows@[i as int].1@));
                assert(wv.take(i + 1).drop_last() =~= wv.take(i as int));
                assert(wv.take(i + 1).last() == wv[i as int]);
            }
            if str_eq(self.workflows[i].0.as_str(), workflow_name) {
                found = Some(i);
            }
        }
        proof {
            assert(wv.take(0) =~= Seq::<(Seq<char>, Seq<WorkflowStepModel>)>::empty());
        }
        match found {
            Some(j) => {
                proof {
                    assert(registered(wv, workflow_name@) == Some(wv[j as int].1));
                }
                let workflow_id = fresh_run_id();
                let mut state = WorkflowState::new(workflow_id.clone());
                let ghost fresh = state@;
                let result = match self.workflows[j].1.execute(input, &mut state) {
                    Ok(v) => v,
                    Err(e) => {
                        proof {
                            assert(false);
                        }
                        e
                    },
                };
                let ghost stv = state@;
                let ghost idv = workflow_id@;
                let ghost abefore = self@.active;
                self.active_states.push((workflow_id, state));
                proof {
                    assert(self@.active =~= abefore.push((idv, stv)));
                    assert(self@.active.last() == (idv, stv));
                    assert(self@.workflows =~= wv);
                    assert(self.workflows@[j as int].1@ == wv[j as int].1);
                }
                Ok(result)
            },
            None => {
                let mut msg = "Workflow '".to_owned();
                msg.append(workflow_name);
                msg.append("' not found");
                proof {
                    assert(self@.workflows =~= wv);
                }
                Err(msg)
            },
        }
    }

    /// One observability snapshot per tracked run. The elapsed time is read
    /// from the wall clock; everything else comes from the tracked state.
    pub fn get_active_workflows(&self) -> (r: Vec<WorkflowStatus>)
        ensures
            r@.len() == self@.active.len(),
            forall|k: int|
                0 <= k < r@.len() ==> {
                    &&& (#[trigger] r@[k]).workflow_id@ == self@.active[k].0
                    &&& r@[k].current_step as int == self@.active[k].1.current_step
                    &&& opt_str_view(r@[k].current_agent) == self@.active[k].1.current_agent
                    &&& r@[k].is_complete == false
                },
    {
        let mut r: Vec<WorkflowStatus> = Vec::new();
        let mut i: usize = 0;
        while i < self.active_states.len()
            invariant
                i <= self.active_states@.len(),
                self@.active.len() == self.active_states@.len(),
                r@.len() == i,
                forall|k: int|
                    0 <= k < i ==> {
                        &&& (#[trigger] r@[k]).workflow_id@ == self@.active[k].0
                        &&& r@[k].current_step as int == self@.active[k].1.current_step
                        &&& opt_str_view(r@[k].current_agent) == self@.active[k].1.current_agent
                        &&& r@[k].is_complete == false
                    },
            decreases self.active_states@.len() - i,
        {
            proof {
                assert(self@.active[i as int] == (
                    self.active_states@[i as int].0@,
                    self.active_states@[i as int].1@,
                ));
            }
            let entry = &self.active_states[i];
            let status = WorkflowStatus {
                workflow_id: entry.0.clone(),
                current_step: entry.1.current_step,
                current_agent: match &entry.1.current_agent {
                    Some(a) => Some(a.clone()),
                    None => None,
                },
                execution_time: entry.1.get_execution_time(),
                is_complete: entry.1.is_complete(),
            };
            r.push(status);
            i += 1;
        }
        r
    }

    /// Register a chain-of-thought workflow built from the given steps.
    pub fn create_cot_workflow(&mut self, name: &str, steps: Vec<WorkflowStep>)
        ensures
            final(self)@.workflows == old(self)@.workflows.push((name@, steps.deep_view())),
            final(self)@.active == old(self)@.active,
    {
        let workflow = ChainOfThoughtWorkflow::new(steps);
        self.register_workflow(name, workflow);
    }
}

} // verus!
