//! The workflow abstraction the runner executes, and its chain-of-thought
//! implementation: a scripted sequence of steps whose simulated outputs
//! feed each next step.

use vstd::prelude::*;
use vstd::string::StringExecFns;
use crate::strutil::{dec_rep, fmt_u64, join_seq, join_with};
use crate::workflow::state::{WorkflowState, WorkflowStateModel};

verus! {

/// Descriptive metadata of a workflow.
#[derive(Debug)]
pub struct WorkflowMetadata {
    pub name: String,
    pub description: String,
    pub workflow_type: WorkflowType,
}

/// The family a workflow belongs to.
#[derive(Debug)]
pub enum WorkflowType {
    ChainOfThought,
    FSM,
    DAG,
    Custom(String),
}

/// One declared step of a scripted workflow.
#[derive(Debug)]
pub struct WorkflowStep {
    pub name: String,
    pub description: String,
    pub agent: String,
    pub tools: Vec<String>,
}

pub struct WorkflowStepModel {
    pub name: Seq<char>,
    pub description: Seq<char>,
    pub agent: Seq<char>,
    pub tools: Seq<Seq<char>>,
}

impl View for WorkflowStep {
    type V = WorkflowStepModel;

    open spec fn view(&self) -> WorkflowStepModel {
        WorkflowStepModel {
            name: self.name@,
            description: self.description@,
            agent: self.agent@,
            tools: self.tools.deep_view(),
        }
    }
}

impl DeepView for WorkflowStep {
    type V = WorkflowStepModel;

    open spec fn deep_view(&self) -> WorkflowStepModel {
        self.view()
    }
}

/// A workflow the runner can register and execute.
pub trait Workflow {
    /// Run the workflow on the input, recording progress in the state.
    fn execute(&self, input: &str, state: &mut WorkflowState) -> (r: Result<String, String>);

    /// Descriptive metadata.
    fn metadata(&self) -> (r: WorkflowMetadata);
}

/// A chain-of-thought workflow: each step's simulated output becomes the
/// next step's input.
pub struct ChainOfThoughtWorkflow {
    steps: Vec<WorkflowStep>,
}

impl View for ChainOfThoughtWorkflow {
    type V = Seq<WorkflowStepModel>;

    closed spec fn view(&self) -> Seq<WorkflowStepModel> {
        self.steps.deep_view()
    }
}

/// `"Step <i+1> (<agent>): Processed '<input>'"`, the simulated output of
/// one scripted step.
pub open spec fn cot_sim_output(i: int, agent: Seq<char>, input: Seq<char>) -> Seq<char> {
    "Step "@ + dec_rep((i + 1) as nat) + " ("@ + agent + "): Processed '"@ + input + "'"@
}

/// The input reaching step `i`: the original input for step 0, else the
/// previous step's simulated output.
pub open spec fn cot_input_at(steps: Seq<WorkflowStepModel>, input: Seq<char>, i: int) -> Seq<char>
    decreases i,
{
    if i <= 0 {
        input
    } else {
        cot_sim_output(i - 1, steps[i - 1].agent, cot_input_at(steps, input, i - 1))
    }
}

/// The simulated outputs of the first `i` steps.
pub open spec fn cot_outputs(steps: Seq<WorkflowStepModel>, input: Seq<char>, i: int) -> Seq<
    Seq<char>,
>
    decreases i,
{
    if i <= 0 {
        Seq::empty()
    } else {
        cot_outputs(steps, input, i - 1).push(
            cot_sim_output(i - 1, steps[i - 1].agent, cot_input_at(steps, input, i - 1)),
        )
    }
}

impl ChainOfThoughtWorkflow {
    /// A workflow over these steps.
    pub fn new(steps: Vec<WorkflowStep>) -> (r: ChainOfThoughtWorkflow)
        ensures
            r@ == steps.deep_view(),
    {
        ChainOfThoughtWorkflow { steps }
    }
}

impl Workflow for ChainOfThoughtWorkflow {
    /// Walk the scripted steps, simulating each step's output and feeding
    /// it to the next; the result is the outputs joined with blank lines.
    fn execute(&self, input: &str, state: &mut WorkflowState) -> (r: Result<String, String>)
        ensures
            r is Ok,
            r->Ok_0@ == join_seq(cot_outputs(self@, input@, self@.len() as int), "\n\n"@),
            final(state)@ == if self@.len() == 0 {
                old(state)@
            } else {
                (WorkflowStateModel {
                    current_step: self@.len() - 1,
                    current_agent: Some(self@[self@.len() - 1].agent),
                    ..old(state)@
                })
            },
    {
        let ghost dv = self.steps.deep_view();
        proof {
            assert(dv.len() == self.steps@.len());
        }
        let mut current_input = input.to_owned();
        let mut results: Vec<String> = Vec::new();
        proof {
            assert(results.deep_view() =~= cot_outputs(dv, input@, 0));
        }
        let mut i: usize = 0;
        while i < self.steps.len()
            invariant
                dv == self.steps.deep_view(),
                dv.len() == self.steps@.len(),
                i <= self.steps@.len(),
                current_input@ == cot_input_at(dv, input@, i as int),
                results.deep_view() == cot_outputs(dv, input@, i as int),
                state@ == if i == 0 {
                    old(state)@
                } else {
                    (WorkflowStateModel {
                        current_step: i - 1,
                        current_agent: Some(dv[i - 1].agent),
                        ..old(state)@
                    })
                },
            decreases self.steps@.len() - i,
        {
            proof {
                assert(dv[i as int] == self.steps@[i as int]@);
            }
            state.set_current_step(i);
            state.set_current_agent(self.steps[i].agent.as_str());
            let mut output = "Step ".to_owned();
            let num = fmt_u64((i + 1) as u64);
            output.append(num.as_str());
            output.append(" (");
            output.append(self.steps[i].agent.as_str());
            output.append("): Processed '");
            output.append(current_input.as_str());
            output.append("'");
            proof {
                assert(output@ == cot_sim_output(i as int, dv[i as int].agent, current_input@));
            }
            let ghost rbefore = results.deep_view();
            results.push(output.clone());
            proof {
                assert(results.deep_view() =~= rbefore.push(output@));
            }
            current_input = output;
            i += 1;
        }
        Ok(join_with(&results, "\n\n"))
    }

    /// Fixed metadata naming the chain-of-thought family.
    fn metadata(&self) -> (r: WorkflowMetadata)
        ensures
            r.name@ == "Chain of Thought"@,
            r.description@ == "Sequential reasoning workflow"@,
            r.workflow_type is ChainOfThought,
    {
        WorkflowMetadata {
            name: "Chain of Thought".to_owned(),
            description: "Sequential reasoning workflow".to_owned(),
            workflow_type: WorkflowType::ChainOfThought,
        }
    }
}

} // verus!
