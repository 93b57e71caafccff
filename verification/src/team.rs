//! Teams: a named set of agents together with the collaboration topology
//! under which they process a task, plus the topology parameters for the
//! finite-state-machine and dependency-graph strategies.

pub mod dispatcher;

use vstd::prelude::*;
use vstd::string::StringExecFns;
use crate::outside::{lower_of, lowercase};
use crate::strutil::{str_eq, Dup};

verus! {

/// One member of a team: a named agent with its role, instructions,
/// tool names and model selector.
#[derive(Debug)]
pub struct TeamAgent {
    pub name: String,
    pub role: String,
    pub instructions: String,
    pub tools: Vec<String>,
    pub model: String,
}

/// One rule of a finite-state machine: from a state to a state, guarded by
/// a symbolic condition tag.
#[derive(Debug)]
pub struct StateTransition {
    pub from: String,
    pub to: String,
    pub condition: String,
}

/// One unit of work in a dependency graph, bound to one agent.
#[derive(Debug)]
pub struct DAGNode {
    pub id: String,
    pub agent: String,
    pub task: String,
}

/// A dependency: the `to` node may not run until the `from` node completed.
/// The condition tag is carried but not interpreted.
#[derive(Debug)]
pub struct DAGEdge {
    pub from: String,
    pub to: String,
    pub condition: Option<String>,
}

/// Finite-state-machine parameters kept beside a team.
#[derive(Debug)]
pub struct FSMConfig {
    pub states: Vec<String>,
    pub initial_state: String,
    pub transitions: Vec<StateTransition>,
}

/// Dependency-graph parameters kept beside a team.
#[derive(Debug)]
pub struct DAGConfig {
    pub nodes: Vec<DAGNode>,
    pub edges: Vec<DAGEdge>,
}

/// The collaboration topology under which a team processes one task.
#[derive(Debug)]
pub enum TeamWorkflow {
    /// Each agent gets one turn on the unmodified task.
    RoundRobin,
    /// Agents run one at a time; each receives the previous agent's output.
    ChainOfThought,
    /// Every agent receives the unmodified task; outputs are independent.
    Parallel,
    /// A state-machine walk over named states with guarded transitions.
    FSM { states: Vec<String>, transitions: Vec<StateTransition>, initial_state: String },
    /// Dependency-ordered scheduling over a node/edge graph.
    DAG { nodes: Vec<DAGNode>, edges: Vec<DAGEdge> },
}

/// A team of agents working together under one topology.
#[derive(Debug)]
pub struct Team {
    pub name: String,
    pub agents: Vec<TeamAgent>,
    pub workflow: TeamWorkflow,
    pub shared_memory: Option<String>,
    pub fsm: Option<FSMConfig>,
    pub dag: Option<DAGConfig>,
}

// ---------------------------------------------------------------------------
// Mathematical models
// ---------------------------------------------------------------------------

pub struct TeamAgentModel {
    pub name: Seq<char>,
    pub role: Seq<char>,
    pub instructions: Seq<char>,
    pub tools: Seq<Seq<char>>,
    pub model: Seq<char>,
}

pub struct TransitionModel {
    pub from: Seq<char>,
    pub to: Seq<char>,
    pub condition: Seq<char>,
}

pub struct NodeModel {
    pub id: Seq<char>,
    pub agent: Seq<char>,
    pub task: Seq<char>,
}

pub struct EdgeModel {
    pub from: Seq<char>,
    pub to: Seq<char>,
    pub condition: Option<Seq<char>>,
}

pub struct FsmConfigModel {
    pub states: Seq<Seq<char>>,
    pub initial_state: Seq<char>,
    pub transitions: Seq<TransitionModel>,
}

pub struct DagConfigModel {
    pub nodes: Seq<NodeModel>,
    pub edges: Seq<EdgeModel>,
}

pub enum WorkflowModel {
    RoundRobin,
    ChainOfThought,
    Parallel,
    Fsm { states: Seq<Seq<char>>, transitions: Seq<TransitionModel>, initial_state: Seq<char> },
    Dag { nodes: Seq<NodeModel>, edges: Seq<EdgeModel> },
}

pub struct TeamModel {
    pub name: Seq<char>,
    pub agents: Seq<TeamAgentModel>,
    pub workflow: WorkflowModel,
    pub shared_memory: Option<Seq<char>>,
    pub fsm: Option<FsmConfigModel>,
    pub dag: Option<DagConfigModel>,
}

pub open spec fn opt_str_view(o: Option<String>) -> Option<Seq<char>> {
    match o {
        Some(s) => Some(s@),
        None => None,
    }
}

impl View for TeamAgent {
    type V = TeamAgentModel;

    open spec fn view(&self) -> TeamAgentModel {
        TeamAgentModel {
            name: self.name@,
            role: self.role@,
            instructions: self.instructions@,
            tools: self.tools.deep_view(),
            model: self.model@,
        }
    }
}

impl DeepView for TeamAgent {
    type V = TeamAgentModel;

    open spec fn deep_view(&self) -> TeamAgentModel {
        self.view()
    }
}

impl View for StateTransition {
    type V = TransitionModel;

    open spec fn view(&self) -> TransitionModel {
        TransitionModel { from: self.from@, to: self.to@, condition: self.condition@ }
    }
}

impl DeepView for StateTransition {
    type V = TransitionModel;

    open spec fn deep_view(&self) -> TransitionModel {
        self.view()
    }
}

impl View for DAGNode {
    type V = NodeModel;

    open spec fn view(&self) -> NodeModel {
        NodeModel { id: self.id@, agent: self.agent@, task: self.task@ }
    }
}

impl DeepView for DAGNode {
    type V = NodeModel;

    open spec fn deep_view(&self) -> NodeModel {
        self.view()
    }
}

impl View for DAGEdge {
    type V = EdgeModel;

    open spec fn view(&self) -> EdgeModel {
        EdgeModel { from: self.from@, to: self.to@, condition: opt_str_view(self.condition) }
    }
}

impl DeepView for DAGEdge {
    type V = EdgeModel;

    open spec fn deep_view(&self) -> EdgeModel {
        self.view()
    }
}

impl View for FSMConfig {
    type V = FsmConfigModel;

    open spec fn view(&self) -> FsmConfigModel {
        FsmConfigModel {
            states: self.states.deep_view(),
            initial_state: self.initial_state@,
            transitions: self.transitions.deep_view(),
        }
    }
}

impl View for DAGConfig {
    type V = DagConfigModel;

    open spec fn view(&self) -> DagConfigModel {
        DagConfigModel { nodes: self.nodes.deep_view(), edges: self.edges.deep_view() }
    }
}

impl View for TeamWorkflow {
    type V = WorkflowModel;

    open spec fn view(&self) -> WorkflowModel {
        match self {
            TeamWorkflow::RoundRobin => WorkflowModel::RoundRobin,
            TeamWorkflow::ChainOfThought => WorkflowModel::ChainOfThought,
            TeamWorkflow::Parallel => WorkflowModel::Parallel,
            TeamWorkflow::FSM { states, transitions, initial_state } => WorkflowModel::Fsm {
                states: states.deep_view(),
                transitions: transitions.deep_view(),
                initial_state: initial_state@,
            },
            TeamWorkflow::DAG { nodes, edges } => WorkflowModel::Dag {
                nodes: nodes.deep_view(),
                edges: edges.deep_view(),
            },
        }
    }
}

impl View for Team {
    type V = TeamModel;

    open spec fn view(&self) -> TeamModel {
        TeamModel {
            name: self.name@,
            agents: self.agents.deep_view(),
            workflow: self.workflow@,
            shared_memory: opt_str_view(self.shared_memory),
            fsm: match self.fsm {
                Some(ref c) => Some(c@),
                None => None,
            },
            dag: match self.dag {
                Some(ref c) => Some(c@),
                None => None,
            },
        }
    }
}

// ---------------------------------------------------------------------------
// Copying
// ---------------------------------------------------------------------------

impl Dup for StateTransition {
    fn dup(&self) -> (r: Self)
        ensures
            r == *self,
    {
        StateTransition {
            from: self.from.clone(),
            to: self.to.clone(),
            condition: self.condition.clone(),
        }
    }
}

impl Dup for DAGNode {
    fn dup(&self) -> (r: Self)
        ensures
            r == *self,
    {
        DAGNode { id: self.id.clone(), agent: self.agent.clone(), task: self.task.clone() }
    }
}

impl Dup for DAGEdge {
    fn dup(&self) -> (r: Self)
        ensures
            r == *self,
    {
        DAGEdge {
            from: self.from.clone(),
            to: self.to.clone(),
            condition: match &self.condition {
                Some(c) => Some(c.clone()),
                None => None,
            },
        }
    }
}

// ---------------------------------------------------------------------------
// Construction
// ---------------------------------------------------------------------------

impl Team {
    /// A team with the given name, no agents yet, and the default
    /// round-robin topology.
    pub fn new(name: String) -> (r: Team)
        ensures
            r@.name == name@,
            r@.agents.len() == 0,
            r@.workflow is RoundRobin,
            r@.shared_memory is None,
            r@.fsm is None,
            r@.dag is None,
    {
        Team {
            name,
            agents: Vec::new(),
            workflow: TeamWorkflow::RoundRobin,
            shared_memory: None,
            fsm: None,
            dag: None,
        }
    }

    /// Append one agent to the team.
    pub fn add_agent(&mut self, agent: TeamAgent)
        ensures
            final(self)@.agents == old(self)@.agents.push(agent@),
            final(self)@.name == old(self)@.name,
            final(self)@.workflow == old(self)@.workflow,
            final(self)@.shared_memory == old(self)@.shared_memory,
            final(self)@.fsm == old(self)@.fsm,
            final(self)@.dag == old(self)@.dag,
    {
        let ghost a = agent@;
        self.agents.push(agent);
        proof {
            assert(self.agents.deep_view() =~= old(self).agents.deep_view().push(a));
        }
    }

    /// Replace the team's topology.
    pub fn set_workflow(&mut self, workflow: TeamWorkflow)
        ensures
            final(self)@ == (TeamModel { workflow: workflow@, ..old(self)@ }),
    {
        self.workflow = workflow;
    }

    /// Point every member at one shared memory store.
    pub fn set_shared_memory(&mut self, path: String)
        ensures
            final(self)@ == (TeamModel { shared_memory: Some(path@), ..old(self)@ }),
    {
        self.shared_memory = Some(path);
    }
}

/// Fluent builder for [`Team`] values.
#[derive(Debug)]
pub struct TeamBuilder {
    name: String,
    agents: Vec<TeamAgent>,
    workflow: Option<TeamWorkflow>,
    shared_memory: Option<String>,
    fsm: Option<FSMConfig>,
    dag: Option<DAGConfig>,
}

pub struct TeamBuilderModel {
    pub name: Seq<char>,
    pub agents: Seq<TeamAgentModel>,
    pub workflow: Option<WorkflowModel>,
    pub shared_memory: Option<Seq<char>>,
    pub fsm: Option<FsmConfigModel>,
    pub dag: Option<DagConfigModel>,
}

impl View for TeamBuilder {
    type V = TeamBuilderModel;

    closed spec fn view(&self) -> TeamBuilderModel {
        TeamBuilderModel {
            name: self.name@,
            agents: self.agents.deep_view(),
            workflow: match self.workflow {
                Some(ref w) => Some(w@),
                None => None,
            },
            shared_memory: opt_str_view(self.shared_memory),
            fsm: match self.fsm {
                Some(ref c) => Some(c@),
                None => None,
            },
            dag: match self.dag {
                Some(ref c) => Some(c@),
                None => None,
            },
        }
    }
}

impl TeamBuilder {
    /// Start building a team with the given name.
    pub fn new(name: String) -> (r: TeamBuilder)
        ensures
            r@.name == name@,
            r@.agents.len() == 0,
            r@.workflow is None,
            r@.shared_memory is None,
            r@.fsm is None,
            r@.dag is None,
    {
        TeamBuilder {
            name,
            agents: Vec::new(),
            workflow: None,
            shared_memory: None,
            fsm: None,
            dag: None,
        }
    }

    /// Add an agent to the team under construction.
    pub fn with_agent(self, agent: TeamAgent) -> (r: TeamBuilder)
        ensures
            r@ == (TeamBuilderModel { agents: self@.agents.push(agent@), ..self@ }),
    {
        let ghost sv = self@;
        let ghost a = agent@;
        let mut b = self;
        b.agents.push(agent);
        proof {
            assert(b.agents.deep_view() =~= sv.agents.push(a));
        }
        b
    }

    /// Choose the topology.
    pub fn with_workflow(self, workflow: TeamWorkflow) -> (r: TeamBuilder)
        ensures
            r@ == (TeamBuilderModel { workflow: Some(workflow@), ..self@ }),
    {
        let mut b = self;
        b.workflow = Some(workflow);
        b
    }

    /// Choose a shared memory path.
    pub fn with_shared_memory(self, path: String) -> (r: TeamBuilder)
        ensures
            r@ == (TeamBuilderModel { shared_memory: Some(path@), ..self@ }),
    {
        let mut b = self;
        b.shared_memory = Some(path);
        b
    }

    /// Attach finite-state-machine parameters.
    pub fn with_fsm(self, fsm: FSMConfig) -> (r: TeamBuilder)
        ensures
            r@ == (TeamBuilderModel { fsm: Some(fsm@), ..self@ }),
    {
        let mut b = self;
        b.fsm = Some(fsm);
        b
    }

    /// Attach dependency-graph parameters.
    pub fn with_dag(self, dag: DAGConfig) -> (r: TeamBuilder)
        ensures
            r@ == (TeamBuilderModel { dag: Some(dag@), ..self@ }),
    {
        let mut b = self;
        b.dag = Some(dag);
        b
    }

    /// Finish: a missing topology defaults to round-robin.
    pub fn build(self) -> (r: Team)
        ensures
            r@.name == self@.name,
            r@.agents == self@.agents,
            r@.workflow == match self@.workflow {
                Some(w) => w,
                None => WorkflowModel::RoundRobin,
            },
            r@.shared_memory == self@.shared_memory,
            r@.fsm == self@.fsm,
            r@.dag == self@.dag,
    {
        let workflow = match self.workflow {
            Some(w) => w,
            None => TeamWorkflow::RoundRobin,
        };
        Team {
            name: self.name,
            agents: self.agents,
            workflow,
            shared_memory: self.shared_memory,
            fsm: self.fsm,
            dag: self.dag,
        }
    }
}

// ---------------------------------------------------------------------------
// Topology tags
// ---------------------------------------------------------------------------

/// Which topology a (case-folded) configuration tag names; unrecognized
/// tags default to round-robin.
pub open spec fn workflow_tag_model(lower: Seq<char>) -> WorkflowModel {
    if lower == "roundrobin"@ || lower == "round_robin"@ {
        WorkflowModel::RoundRobin
    } else if lower == "chainofthought"@ || lower == "chain_of_thought"@ || lower == "cot"@ {
        WorkflowModel::ChainOfThought
    } else if lower == "parallel"@ {
        WorkflowModel::Parallel
    } else if lower == "fsm"@ {
        WorkflowModel::Fsm {
            states: Seq::empty(),
            transitions: Seq::empty(),
            initial_state: "start"@,
        }
    } else if lower == "dag"@ {
        WorkflowModel::Dag { nodes: Seq::empty(), edges: Seq::empty() }
    } else {
        WorkflowModel::RoundRobin
    }
}

impl TeamWorkflow {
    /// Parse a topology tag, case-insensitively.
    pub fn from_tag(tag: &str) -> (r: TeamWorkflow)
        ensures
            r@ == workflow_tag_model(lower_of(tag@)),
    {
        let lo = lowercase(tag);
        let l = lo.as_str();
        if str_eq(l, "roundrobin") || str_eq(l, "round_robin") {
            TeamWorkflow::RoundRobin
        } else if str_eq(l, "chainofthought") || str_eq(l, "chain_of_thought") || str_eq(l, "cot") {
            TeamWorkflow::ChainOfThought
        } else if str_eq(l, "parallel") {
            TeamWorkflow::Parallel
        } else if str_eq(l, "fsm") {
            let states: Vec<String> = Vec::new();
            let transitions: Vec<StateTransition> = Vec::new();
            proof {
                assert(states.deep_view() =~= Seq::<Seq<char>>::empty());
                assert(transitions.deep_view() =~= Seq::<TransitionModel>::empty());
            }
            TeamWorkflow::FSM { states, transitions, initial_state: "start".to_owned() }
        } else if str_eq(l, "dag") {
            let nodes: Vec<DAGNode> = Vec::new();
            let edges: Vec<DAGEdge> = Vec::new();
            proof {
                assert(nodes.deep_view() =~= Seq::<NodeModel>::empty());
                assert(edges.deep_view() =~= Seq::<EdgeModel>::empty());
            }
            TeamWorkflow::DAG { nodes, edges }
        } else {
            TeamWorkflow::RoundRobin
        }
    }
}

} // verus!
