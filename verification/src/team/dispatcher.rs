//! The topology executor: drives one of five execution strategies over a
//! team's agent pool and assembles the execution trace.
//!
//! Invoking an agent means a model call that this library cannot perform
//! itself, so one run is exposed as a step machine: [`DispatchRun`] says
//! which agent to invoke next and with which input ([`Action::Invoke`]),
//! the caller performs the invocation and hands the output back through
//! [`DispatchRun::provide_output`], until the run reports
//! [`Action::Finished`]. Every decision the machine takes is a function of
//! the topology, the pool, the task and the outputs provided so far; the
//! spec-level transition functions below pin each step down exactly.

use vstd::prelude::*;
use vstd::string::StringExecFns;
use crate::strutil::{
    contains_seq, contains_sub, dec_rep, dup_vec, fmt_u64, index_of_str, join_seq, join_with,
    label_of, label_seq, lemma_seq_index_of, seq_index_of, str_eq,
};
use crate::outside::{debug_list, debug_list_of, fresh_run_id, lower_of, lowercase, now_unix_secs};
use crate::team::{
    opt_str_view, Team, TeamModel, TeamWorkflow, WorkflowModel, TransitionModel, NodeModel,
    EdgeModel, StateTransition, DAGNode, DAGEdge, TeamAgentModel,
};
use crate::workflow::runner::WorkflowStatus;
use crate::workflow::state::{StepResult, StepResultModel, WorkflowState};

verus! {

// ---------------------------------------------------------------------------
// The run model: what one in-flight execution is, mathematically
// ---------------------------------------------------------------------------

/// One recorded invocation, stripped of timing.
#[verifier::ext_equal]
pub struct StepModel {
    pub agent: Seq<char>,
    pub input: Seq<char>,
    pub output: Seq<char>,
}

/// What the machine asks of its driver next.
#[verifier::ext_equal]
pub enum ActionModel {
    Invoke { agent: Seq<char>, input: Seq<char> },
    Finished { result: Seq<char> },
}

/// Strategy-specific control state.
#[verifier::ext_equal]
pub enum StrategyModel {
    /// Round-robin and parallel fan-out: every agent once, unmodified task.
    Independent { idx: int },
    /// Chain of thought: each agent receives the previous agent's output.
    Chain { idx: int },
    /// State-machine walk.
    Fsm {
        states: Seq<Seq<char>>,
        transitions: Seq<TransitionModel>,
        current: Seq<char>,
        visited: Seq<Seq<char>>,
        iteration: int,
    },
    /// Dependency-ordered graph scheduling.
    Dag {
        nodes: Seq<NodeModel>,
        edges: Seq<EdgeModel>,
        queue: Seq<int>,
        completed: Seq<bool>,
        outputs: Seq<Option<Seq<char>>>,
        active: int,
    },
}

/// The full model of one in-flight run.
#[verifier::ext_equal]
pub struct RunModel {
    pub pool: Seq<Seq<char>>,
    pub task: Seq<char>,
    pub trace: Seq<Seq<char>>,
    pub steps: Seq<StepModel>,
    pub strategy: StrategyModel,
    pub pending: ActionModel,
}

/// Trace entries are joined with a blank line.
pub open spec fn sep() -> Seq<char> {
    "\n\n"@
}

/// `"Step <i> (<agent>): <out>"`.
pub open spec fn chain_label(i: int, agent: Seq<char>, out: Seq<char>) -> Seq<char> {
    "Step "@ + dec_rep(i as nat) + " ("@ + agent + "): "@ + out
}

pub open spec fn steps_of(s: Seq<StepResultModel>) -> Seq<StepModel> {
    s.map(|i: int, r: StepResultModel| StepModel { agent: r.agent, input: r.input, output: r.output })
}

proof fn lemma_steps_of_push(s: Seq<StepResultModel>, r: StepResultModel)
    ensures
        steps_of(s.push(r)) =~= steps_of(s).push(
            StepModel { agent: r.agent, input: r.input, output: r.output },
        ),
{
}

// ---------------------------------------------------------------------------
// State-machine walk: conditions, transition resolution, state entry
// ---------------------------------------------------------------------------

/// Whether a transition's condition tag fires on a (case-folded) agent
/// output. The satisfaction tags inspect the output; every other tag —
/// including the three recognized stage tags — is unconditional.
pub open spec fn cond_fires(condition: Seq<char>, out_lower: Seq<char>) -> bool {
    if condition == "customer_satisfied"@ {
        contains_seq(out_lower, "satisfied"@) || contains_seq(out_lower, "resolved"@)
            || contains_seq(out_lower, "happy"@)
    } else if condition == "customer_unsatisfied"@ {
        contains_seq(out_lower, "unsatisfied"@) || contains_seq(out_lower, "not resolved"@)
            || contains_seq(out_lower, "still has issue"@)
    } else {
        true
    }
}

/// The first transition declared from `cur`, if any.
pub open spec fn first_from(ts: Seq<TransitionModel>, cur: Seq<char>) -> Option<int>
    decreases ts.len(),
{
    if ts.len() == 0 {
        None
    } else {
        match first_from(ts.drop_last(), cur) {
            Some(i) => Some(i),
            None => if ts.last().from == cur {
                Some(ts.len() - 1)
            } else {
                None
            },
        }
    }
}

proof fn lemma_first_from(ts: Seq<TransitionModel>, cur: Seq<char>)
    ensures
        match first_from(ts, cur) {
            Some(i) => 0 <= i < ts.len() && ts[i].from == cur && forall|k: int|
                0 <= k < i ==> (#[trigger] ts[k]).from != cur,
            None => forall|k: int| 0 <= k < ts.len() ==> (#[trigger] ts[k]).from != cur,
        },
    decreases ts.len(),
{
    if ts.len() > 0 {
        lemma_first_from(ts.drop_last(), cur);
        assert(forall|k: int| 0 <= k < ts.len() - 1 ==> ts[k] == ts.drop_last()[k]);
    }
}

/// The first transition declared from `cur` whose condition fires.
pub open spec fn first_firing(ts: Seq<TransitionModel>, cur: Seq<char>, out_lower: Seq<char>) -> Option<int>
    decreases ts.len(),
{
    if ts.len() == 0 {
        None
    } else {
        match first_firing(ts.drop_last(), cur, out_lower) {
            Some(i) => Some(i),
            None => if ts.last().from == cur && cond_fires(ts.last().condition, out_lower) {
                Some(ts.len() - 1)
            } else {
                None
            },
        }
    }
}

proof fn lemma_first_firing(ts: Seq<TransitionModel>, cur: Seq<char>, out_lower: Seq<char>)
    ensures
        match first_firing(ts, cur, out_lower) {
            Some(i) => 0 <= i < ts.len() && ts[i].from == cur && cond_fires(
                ts[i].condition,
                out_lower,
            ) && forall|k: int|
                0 <= k < i ==> !((#[trigger] ts[k]).from == cur && cond_fires(
                    ts[k].condition,
                    out_lower,
                )),
            None => forall|k: int|
                0 <= k < ts.len() ==> !((#[trigger] ts[k]).from == cur && cond_fires(
                    ts[k].condition,
                    out_lower,
                )),
        },
    decreases ts.len(),
{
    if ts.len() > 0 {
        lemma_first_firing(ts.drop_last(), cur, out_lower);
        assert(forall|k: int| 0 <= k < ts.len() - 1 ==> ts[k] == ts.drop_last()[k]);
    }
}

/// Which state the walk moves to from `cur` on a (case-folded) output:
/// the first declared transition from `cur` whose condition fires, else
/// the first declared transition from `cur` as a final fallback, else
/// nothing.
pub open spec fn fsm_next(
    cur: Seq<char>,
    ts: Seq<TransitionModel>,
    out_lower: Seq<char>,
) -> Option<Seq<char>> {
    match first_firing(ts, cur, out_lower) {
        Some(i) => Some(ts[i].to),
        None => match first_from(ts, cur) {
            Some(i) => Some(ts[i].to),
            None => None,
        },
    }
}

/// An agent is responsible for a state when either name contains the other.
pub open spec fn agent_matches(name: Seq<char>, state: Seq<char>) -> bool {
    contains_seq(name, state) || contains_seq(state, name)
}

/// The first agent in pool order that matches the state.
pub open spec fn first_match_agent(pool: Seq<Seq<char>>, state: Seq<char>) -> Option<int>
    decreases pool.len(),
{
    if pool.len() == 0 {
        None
    } else {
        match first_match_agent(pool.drop_last(), state) {
            Some(i) => Some(i),
            None => if agent_matches(pool.last(), state) {
                Some(pool.len() - 1)
            } else {
                None
            },
        }
    }
}

proof fn lemma_first_match_agent(pool: Seq<Seq<char>>, state: Seq<char>)
    ensures
        match first_match_agent(pool, state) {
            Some(i) => 0 <= i < pool.len() && agent_matches(pool[i], state) && forall|k: int|
                0 <= k < i ==> !agent_matches(#[trigger] pool[k], state),
            None => forall|k: int| 0 <= k < pool.len() ==> !agent_matches(#[trigger] pool[k], state),
        },
    decreases pool.len(),
{
    if pool.len() > 0 {
        lemma_first_match_agent(pool.drop_last(), state);
        assert(forall|k: int| 0 <= k < pool.len() - 1 ==> pool[k] == pool.drop_last()[k]);
    }
}

/// `"State: <state>. Task: <task>"`, the input handed to a state's agent.
pub open spec fn fsm_input(state: Seq<char>, task: Seq<char>) -> Seq<char> {
    "State: "@ + state + ". Task: "@ + task
}

/// `"State <state> (<agent>): <out>"`.
pub open spec fn fsm_label(state: Seq<char>, agent: Seq<char>, out: Seq<char>) -> Seq<char> {
    "State "@ + state + " ("@ + agent + "): "@ + out
}

pub open spec fn fsm_max_msg() -> Seq<char> {
    "⚠️ FSM: Maximum iterations reached, stopping to prevent infinite loop"@
}

pub open spec fn fsm_visited_msg(state: Seq<char>) -> Seq<char> {
    "⚠️ FSM: State '"@ + state + "' already visited, stopping loop"@
}

pub open spec fn fsm_no_agent_msg(state: Seq<char>) -> Seq<char> {
    "❌ FSM: No agent found for state: "@ + state
}

pub open spec fn fsm_complete_msg(state: Seq<char>) -> Seq<char> {
    "✅ FSM: No more transitions from state '"@ + state + "', workflow complete"@
}

/// Entering the walk at the machine's current state: halt silently when the
/// state is not declared; halt with a diagnostic when the iteration cap is
/// exceeded, the state was already visited, or no agent matches it; else
/// ask for the matched agent to be invoked.
pub open spec fn fsm_enter_spec(m: RunModel) -> RunModel {
    match m.strategy {
        StrategyModel::Fsm { states, transitions, current, visited, iteration } => {
            if !states.contains(current) {
                RunModel {
                    pending: ActionModel::Finished { result: join_seq(m.trace, sep()) },
                    ..m
                }
            } else {
                let it2 = iteration + 1;
                if it2 > 2 * states.len() {
                    let trace2 = m.trace.push(fsm_max_msg());
                    RunModel {
                        trace: trace2,
                        strategy: StrategyModel::Fsm {
                            states,
                            transitions,
                            current,
                            visited,
                            iteration: it2,
                        },
                        pending: ActionModel::Finished { result: join_seq(trace2, sep()) },
                        ..m
                    }
                } else if visited.contains(current) {
                    let trace2 = m.trace.push(fsm_visited_msg(current));
                    RunModel {
                        trace: trace2,
                        strategy: StrategyModel::Fsm {
                            states,
                            transitions,
                            current,
                            visited,
                            iteration: it2,
                        },
                        pending: ActionModel::Finished { result: join_seq(trace2, sep()) },
                        ..m
                    }
                } else {
                    let visited2 = visited.push(current);
                    match first_match_agent(m.pool, current) {
                        Some(i) => RunModel {
                            strategy: StrategyModel::Fsm {
                                states,
                                transitions,
                                current,
                                visited: visited2,
                                iteration: it2,
                            },
                            pending: ActionModel::Invoke {
                                agent: m.pool[i],
                                input: fsm_input(current, m.task),
                            },
                            ..m
                        },
                        None => {
                            let trace2 = m.trace.push(fsm_no_agent_msg(current));
                            RunModel {
                                trace: trace2,
                                strategy: StrategyModel::Fsm {
                                    states,
                                    transitions,
                                    current,
                                    visited: visited2,
                                    iteration: it2,
                                },
                                pending: ActionModel::Finished {
                                    result: join_seq(trace2, sep()),
                                },
                                ..m
                            }
                        },
                    }
                }
            }
        },
        _ => m,
    }
}

/// What holds of a state-machine model whenever the walk is about to enter
/// a state: one step has been recorded for every visited state.
pub open spec fn fsm_pre(m: RunModel) -> bool {
    match m.strategy {
        StrategyModel::Fsm { states, transitions, current, visited, iteration } => {
            &&& visited.no_duplicates()
            &&& (forall|k: int| 0 <= k < visited.len() ==> states.contains(#[trigger] visited[k]))
            &&& iteration == visited.len()
            &&& m.steps.len() == visited.len()
            &&& (forall|k: int|
                0 <= k < m.steps.len() ==> (#[trigger] m.steps[k]).input == fsm_input(
                    visited[k],
                    m.task,
                ))
        },
        _ => false,
    }
}

proof fn lemma_nodup_push<T>(s: Seq<T>, x: T)
    requires
        s.no_duplicates(),
        !s.contains(x),
    ensures
        s.push(x).no_duplicates(),
{
    let s2 = s.push(x);
    assert forall|i: int, j: int| 0 <= i < s2.len() && 0 <= j < s2.len() && i != j implies s2[i]
        != s2[j] by {
        if i < s.len() && j < s.len() {
            assert(s[i] != s[j]);
        } else if i < s.len() {
            assert(s2[j] == x && s2[i] == s[i]);
        } else {
            assert(s2[i] == x && s2[j] == s[j]);
        }
    }
}

/// Entering a state from a walk satisfying [`fsm_pre`] yields a well-formed
/// machine.
proof fn lemma_fsm_enter_wf(m: RunModel)
    requires
        fsm_pre(m),
    ensures
        wf_model(fsm_enter_spec(m)),
{
    match m.strategy {
        StrategyModel::Fsm { states, transitions, current, visited, iteration } => {
            let m2 = fsm_enter_spec(m);
            if states.contains(current) && iteration + 1 <= 2 * states.len() && !visited.contains(
                current,
            ) {
                lemma_nodup_push(visited, current);
                let visited2 = visited.push(current);
                assert(forall|k: int|
                    0 <= k < visited.len() ==> visited2[k] == #[trigger] visited[k]);
                assert(visited2.last() == current);
                assert forall|k: int| 0 <= k < visited2.len() implies states.contains(
                    #[trigger] visited2[k],
                ) by {
                    if k < visited.len() {
                        assert(visited2[k] == visited[k]);
                    } else {
                        assert(visited2[k] == current);
                    }
                }
                assert forall|k: int| 0 <= k < m2.steps.len() implies (
                #[trigger] m2.steps[k]).input == fsm_input(visited2[k], m2.task) by {
                    assert(m2.steps[k] == m.steps[k]);
                    assert(visited2[k] == visited[k]);
                }
                match first_match_agent(m.pool, current) {
                    Some(i) => {
                        lemma_first_match_agent(m.pool, current);
                    },
                    None => {},
                }
            }
        },
        _ => {},
    }
}

/// After a well-formed awaiting state-machine run records one step, the
/// walk is ready to enter its next state, whatever that state is.
proof fn lemma_fsm_step_pre(m: RunModel, out: Seq<char>, next: Seq<char>)
    requires
        wf_model(m),
        m.pending is Invoke,
        m.strategy is Fsm,
    ensures
        fsm_pre(
            RunModel {
                trace: m.trace.push(fsm_label(m.strategy->current, m.pending->agent, out)),
                steps: m.steps.push(
                    StepModel { agent: m.pending->agent, input: m.pending->input, output: out },
                ),
                strategy: StrategyModel::Fsm {
                    states: m.strategy->states,
                    transitions: m.strategy->transitions,
                    current: next,
                    visited: m.strategy->visited,
                    iteration: m.strategy->iteration,
                },
                ..m
            },
        ),
{
    let agent = m.pending->agent;
    let input = m.pending->input;
    let visited = m.strategy->visited;
    let steps2 = m.steps.push(StepModel { agent: agent, input: input, output: out });
    let mid = RunModel {
        trace: m.trace.push(fsm_label(m.strategy->current, m.pending->agent, out)),
        steps: m.steps.push(
            StepModel { agent: m.pending->agent, input: m.pending->input, output: out },
        ),
        strategy: StrategyModel::Fsm {
            states: m.strategy->states,
            transitions: m.strategy->transitions,
            current: next,
            visited: m.strategy->visited,
            iteration: m.strategy->iteration,
        },
        ..m
    };
    assert(mid.steps == steps2);
    assert(visited[visited.len() - 1] == visited.last());
    assert(visited.no_duplicates());
    assert(forall|k: int|
        0 <= k < visited.len() ==> m.strategy->states.contains(#[trigger] visited[k]));
    assert(m.strategy->iteration == visited.len());
    assert(steps2.len() == visited.len());
    assert forall|k: int| 0 <= k < mid.steps.len() implies (#[trigger] mid.steps[k]).input
        == fsm_input(mid.strategy->visited[k], mid.task) by {
        if k < m.steps.len() {
            assert(mid.steps[k] == m.steps[k]);
        } else {
            assert(mid.steps[k].input == input);
            assert(visited[k] == visited.last());
        }
    }
    assert(fsm_pre(mid));
}

// ---------------------------------------------------------------------------
// Dependency-graph scheduling
// ---------------------------------------------------------------------------

/// A queue of node indices, as mathematical integers.
pub open spec fn queue_view(q: Seq<usize>) -> Seq<int> {
    q.map(|i: int, x: usize| x as int)
}

/// Does any edge end at `id`?
pub open spec fn has_incoming(edges: Seq<EdgeModel>, id: Seq<char>) -> bool {
    exists|j: int| 0 <= j < edges.len() && (#[trigger] edges[j]).to == id
}

/// The first node declared with this id.
pub open spec fn node_index(nodes: Seq<NodeModel>, id: Seq<char>) -> Option<int>
    decreases nodes.len(),
{
    if nodes.len() == 0 {
        None
    } else {
        match node_index(nodes.drop_last(), id) {
            Some(i) => Some(i),
            None => if nodes.last().id == id {
                Some(nodes.len() - 1)
            } else {
                None
            },
        }
    }
}

pub proof fn lemma_node_index(nodes: Seq<NodeModel>, id: Seq<char>)
    ensures
        match node_index(nodes, id) {
            Some(i) => 0 <= i < nodes.len() && nodes[i].id == id && forall|k: int|
                0 <= k < i ==> (#[trigger] nodes[k]).id != id,
            None => forall|k: int| 0 <= k < nodes.len() ==> (#[trigger] nodes[k]).id != id,
        },
    decreases nodes.len(),
{
    if nodes.len() > 0 {
        lemma_node_index(nodes.drop_last(), id);
        assert(forall|k: int| 0 <= k < nodes.len() - 1 ==> nodes[k] == nodes.drop_last()[k]);
    }
}

/// Indices of the nodes with no incoming edge, in declared order: the
/// initial ready queue.
pub open spec fn ready_init(nodes: Seq<NodeModel>, edges: Seq<EdgeModel>) -> Seq<int>
    decreases nodes.len(),
{
    if nodes.len() == 0 {
        Seq::empty()
    } else {
        let rest = ready_init(nodes.drop_last(), edges);
        if !has_incoming(edges, nodes.last().id) {
            rest.push(nodes.len() - 1)
        } else {
            rest
        }
    }
}

proof fn lemma_ready_init(nodes: Seq<NodeModel>, edges: Seq<EdgeModel>)
    ensures
        queue_entries_ok(
            ready_init(nodes, edges),
            nodes.len() as int,
            Seq::new(nodes.len(), |i: int| false),
        ),
        ready_init(nodes, edges).no_duplicates(),
        forall|q: int|
            0 <= q < ready_init(nodes, edges).len() ==> !has_incoming(
                edges,
                nodes[#[trigger] ready_init(nodes, edges)[q]].id,
            ),
    decreases nodes.len(),
{
    if nodes.len() > 0 {
        lemma_ready_init(nodes.drop_last(), edges);
        let rest = ready_init(nodes.drop_last(), edges);
        assert(queue_entries_ok(
            rest,
            nodes.len() - 1,
            Seq::new((nodes.len() - 1) as nat, |i: int| false),
        ));
        assert forall|q: int| 0 <= q < rest.len() implies 0 <= #[trigger] rest[q] < nodes.len()
            && !Seq::new(nodes.len() as nat, |i: int| false)[rest[q]] by {
            assert(0 <= rest[q] < nodes.len() - 1);
        }
        assert forall|q: int| 0 <= q < rest.len() implies !has_incoming(
            edges,
            nodes[#[trigger] rest[q]].id,
        ) by {
            assert(0 <= rest[q] < nodes.len() - 1);
            assert(nodes[rest[q]] == nodes.drop_last()[rest[q]]);
        }
        if !has_incoming(edges, nodes.last().id) {
            let full = rest.push(nodes.len() - 1);
            assert forall|q: int| 0 <= q < rest.len() implies #[trigger] rest[q] != nodes.len()
                - 1 by {
                assert(0 <= rest[q] < nodes.len() - 1);
            }
            assert(!rest.contains(nodes.len() - 1));
            lemma_nodup_push(rest, nodes.len() - 1);
            assert forall|q: int| 0 <= q < full.len() implies !has_incoming(
                edges,
                nodes[#[trigger] full[q]].id,
            ) by {
                if q < rest.len() {
                    assert(full[q] == rest[q]);
                } else {
                    assert(full[q] == nodes.len() - 1);
                    assert(nodes[nodes.len() - 1] == nodes.last());
                }
            }
        }
    }
}

/// Every queue entry names a declared, not yet completed node.
pub open spec fn queue_entries_ok(queue: Seq<int>, n: int, completed: Seq<bool>) -> bool {
    forall|q: int| 0 <= q < queue.len() ==> 0 <= #[trigger] queue[q] < n && !completed[queue[q]]
}

/// Every queued node already has all of its dependencies completed: the
/// ready queue holds only runnable work.
pub open spec fn queue_deps_ok(
    nodes: Seq<NodeModel>,
    edges: Seq<EdgeModel>,
    completed: Seq<bool>,
    queue: Seq<int>,
) -> bool {
    forall|q: int|
        0 <= q < queue.len() ==> all_deps_completed(
            nodes,
            edges,
            completed,
            nodes[#[trigger] queue[q]].id,
        )
}

/// Completing more nodes never un-readies a node.
proof fn lemma_all_deps_monotone(
    nodes: Seq<NodeModel>,
    edges: Seq<EdgeModel>,
    c1: Seq<bool>,
    c2: Seq<bool>,
    id: Seq<char>,
)
    requires
        c1.len() == nodes.len(),
        c1.len() == c2.len(),
        forall|k: int| 0 <= k < c1.len() ==> c1[k] ==> #[trigger] c2[k],
        all_deps_completed(nodes, edges, c1, id),
    ensures
        all_deps_completed(nodes, edges, c2, id),
{
    assert forall|j: int| 0 <= j < edges.len() && (#[trigger] edges[j]).to == id implies node_index(
        nodes,
        edges[j].from,
    ) is Some && c2[node_index(nodes, edges[j].from)->0] by {
        lemma_node_index(nodes, edges[j].from);
        assert(c1[node_index(nodes, edges[j].from)->0]);
    }
}

/// Edge indices ending at `id`, in declaration order.
pub open spec fn deps_of(edges: Seq<EdgeModel>, id: Seq<char>) -> Seq<int>
    decreases edges.len(),
{
    if edges.len() == 0 {
        Seq::empty()
    } else {
        let rest = deps_of(edges.drop_last(), id);
        if edges.last().to == id {
            rest.push(edges.len() - 1)
        } else {
            rest
        }
    }
}

/// The `"<depId>: <output>"` parts for the dependency edges that have a
/// recorded output.
pub open spec fn context_parts(
    nodes: Seq<NodeModel>,
    edges: Seq<EdgeModel>,
    outputs: Seq<Option<Seq<char>>>,
    dep_edges: Seq<int>,
) -> Seq<Seq<char>>
    decreases dep_edges.len(),
{
    if dep_edges.len() == 0 {
        Seq::empty()
    } else {
        let rest = context_parts(nodes, edges, outputs, dep_edges.drop_last());
        let j = dep_edges.last();
        if 0 <= j < edges.len() {
            match node_index(nodes, edges[j].from) {
                Some(i) => if 0 <= i < outputs.len() {
                    match outputs[i] {
                        Some(o) => rest.push(label_seq(edges[j].from, o)),
                        None => rest,
                    }
                } else {
                    rest
                },
                None => rest,
            }
        } else {
            rest
        }
    }
}

/// The context handed to a node's agent: its dependencies' recorded
/// outputs joined with `" | "`, or `"No dependencies"` when no edge ends
/// at the node.
pub open spec fn dag_context(
    nodes: Seq<NodeModel>,
    edges: Seq<EdgeModel>,
    outputs: Seq<Option<Seq<char>>>,
    id: Seq<char>,
) -> Seq<char> {
    let dep = deps_of(edges, id);
    if dep.len() == 0 {
        "No dependencies"@
    } else {
        join_seq(context_parts(nodes, edges, outputs, dep), " | "@)
    }
}

/// `"Task: <nodeTask>. Context: <ctx>. Original: <task>"`.
pub open spec fn dag_input(node_task: Seq<char>, ctx: Seq<char>, task: Seq<char>) -> Seq<char> {
    "Task: "@ + node_task + ". Context: "@ + ctx + ". Original: "@ + task
}

/// `"Node <id> (<agent>): <out>"`.
pub open spec fn dag_label(id: Seq<char>, agent: Seq<char>, out: Seq<char>) -> Seq<char> {
    "Node "@ + id + " ("@ + agent + "): "@ + out
}

pub open spec fn dag_no_agent_msg(agent: Seq<char>, id: Seq<char>) -> Seq<char> {
    "❌ DAG: Agent '"@ + agent + "' not found for node "@ + id
}

/// Ids of the nodes not marked completed, in declared order.
pub open spec fn stranded_ids(nodes: Seq<NodeModel>, completed: Seq<bool>) -> Seq<Seq<char>>
    decreases nodes.len(),
{
    if nodes.len() == 0 {
        Seq::empty()
    } else {
        let rest = stranded_ids(nodes.drop_last(), completed);
        if nodes.len() - 1 < completed.len() && !completed[nodes.len() - 1] {
            rest.push(nodes.last().id)
        } else {
            rest
        }
    }
}

pub open spec fn stranded_msg(ids: Seq<Seq<char>>) -> Seq<char> {
    "⚠️ DAG: Some nodes could not be completed: "@ + debug_list_of(ids)
}

/// How many nodes are not yet completed.
pub open spec fn count_false(s: Seq<bool>) -> nat
    decreases s.len(),
{
    if s.len() == 0 {
        0
    } else {
        count_false(s.drop_last()) + if s.last() {
            0nat
        } else {
            1nat
        }
    }
}

proof fn lemma_count_false_update(s: Seq<bool>, i: int)
    requires
        0 <= i < s.len(),
        !s[i],
    ensures
        count_false(s.update(i, true)) + 1 == count_false(s),
    decreases s.len(),
{
    let s2 = s.update(i, true);
    if i == s.len() - 1 {
        assert(s2.drop_last() =~= s.drop_last());
    } else {
        assert(s2.drop_last() =~= s.drop_last().update(i, true));
        lemma_count_false_update(s.drop_last(), i);
    }
}

/// Every dependency of `id` names a declared node already completed.
pub open spec fn all_deps_completed(
    nodes: Seq<NodeModel>,
    edges: Seq<EdgeModel>,
    completed: Seq<bool>,
    id: Seq<char>,
) -> bool {
    forall|j: int|
        0 <= j < edges.len() && (#[trigger] edges[j]).to == id ==> node_index(
            nodes,
            edges[j].from,
        ) is Some && completed[node_index(nodes, edges[j].from)->0]
}

/// The queue after scanning the first `k` edges for edges leaving
/// `from_id`: a target is enqueued once every edge ending at it has its
/// origin completed, unless it is already queued or completed.
pub open spec fn push_ready(
    nodes: Seq<NodeModel>,
    edges: Seq<EdgeModel>,
    completed: Seq<bool>,
    queue: Seq<int>,
    from_id: Seq<char>,
    k: int,
) -> Seq<int>
    decreases k,
{
    if k <= 0 {
        queue
    } else {
        let q = push_ready(nodes, edges, completed, queue, from_id, k - 1);
        let e = edges[k - 1];
        if e.from == from_id {
            match node_index(nodes, e.to) {
                Some(t) => if all_deps_completed(nodes, edges, completed, e.to) && !q.contains(t)
                    && 0 <= t < completed.len() && !completed[t] {
                    q.push(t)
                } else {
                    q
                },
                None => q,
            }
        } else {
            q
        }
    }
}

proof fn lemma_push_ready_ok(
    nodes: Seq<NodeModel>,
    edges: Seq<EdgeModel>,
    completed: Seq<bool>,
    queue: Seq<int>,
    from_id: Seq<char>,
    k: int,
)
    requires
        completed.len() == nodes.len(),
        queue_entries_ok(queue, nodes.len() as int, completed),
        queue.no_duplicates(),
        queue_deps_ok(nodes, edges, completed, queue),
    ensures
        queue_entries_ok(
            push_ready(nodes, edges, completed, queue, from_id, k),
            nodes.len() as int,
            completed,
        ),
        push_ready(nodes, edges, completed, queue, from_id, k).no_duplicates(),
        queue_deps_ok(nodes, edges, completed, push_ready(nodes, edges, completed, queue, from_id, k)),
    decreases k,
{
    if k > 0 {
        lemma_push_ready_ok(nodes, edges, completed, queue, from_id, k - 1);
        let q = push_ready(nodes, edges, completed, queue, from_id, k - 1);
        let e = edges[k - 1];
        if e.from == from_id {
            match node_index(nodes, e.to) {
                Some(t) => {
                    if all_deps_completed(nodes, edges, completed, e.to) && !q.contains(t) && 0 <= t
                        < completed.len() && !completed[t] {
                        lemma_node_index(nodes, e.to);
                        lemma_nodup_push(q, t);
                        assert forall|x: int|
                            0 <= x < q.push(t).len() implies 0 <= #[trigger] q.push(t)[x]
                            < nodes.len() && !completed[q.push(t)[x]] by {
                            if x < q.len() {
                                assert(q.push(t)[x] == q[x]);
                            } else {
                                assert(q.push(t)[x] == t);
                            }
                        }
                        assert(nodes[t].id == e.to);
                        assert forall|x: int| 0 <= x < q.push(t).len() implies all_deps_completed(
                            nodes,
                            edges,
                            completed,
                            nodes[#[trigger] q.push(t)[x]].id,
                        ) by {
                            if x < q.len() {
                                assert(q.push(t)[x] == q[x]);
                            } else {
                                assert(q.push(t)[x] == t);
                            }
                        }
                    }
                },
                None => {},
            }
        }
    }
}

/// The statically well-formed graphs: unique node ids, and every edge
/// endpoint naming a declared node.
pub open spec fn dag_wf(nodes: Seq<NodeModel>, edges: Seq<EdgeModel>) -> bool {
    &&& (forall|i: int, j: int|
        0 <= i < j < nodes.len() ==> (#[trigger] nodes[i]).id != (#[trigger] nodes[j]).id)
    &&& (forall|j: int|
        0 <= j < edges.len() ==> node_index(nodes, (#[trigger] edges[j]).from) is Some
            && node_index(nodes, edges[j].to) is Some)
}

/// Assemble a graph-run model from its parts.
pub open spec fn dag_run_model(
    pool: Seq<Seq<char>>,
    task: Seq<char>,
    trace: Seq<Seq<char>>,
    steps: Seq<StepModel>,
    pending: ActionModel,
    nodes: Seq<NodeModel>,
    edges: Seq<EdgeModel>,
    queue: Seq<int>,
    completed: Seq<bool>,
    outputs: Seq<Option<Seq<char>>>,
    active: int,
) -> RunModel {
    RunModel {
        pool,
        task,
        trace,
        steps,
        strategy: StrategyModel::Dag { nodes, edges, queue, completed, outputs, active },
        pending,
    }
}

/// What holds of a graph run whenever the scheduler is about to pick work.
pub open spec fn dag_pre(m: RunModel) -> bool {
    match m.strategy {
        StrategyModel::Dag { nodes, edges, queue, completed, outputs, active } => {
            &&& dag_wf(nodes, edges)
            &&& completed.len() == nodes.len()
            &&& outputs.len() == nodes.len()
            &&& queue.no_duplicates()
            &&& queue_entries_ok(queue, nodes.len() as int, completed)
            &&& queue_deps_ok(nodes, edges, completed, queue)
        },
        _ => false,
    }
}

pub open spec fn dag_uncompleted(m: RunModel) -> nat {
    match m.strategy {
        StrategyModel::Dag { completed, .. } => count_false(completed),
        _ => 0,
    }
}

pub open spec fn dag_queue_len(m: RunModel) -> nat {
    match m.strategy {
        StrategyModel::Dag { queue, .. } => queue.len(),
        _ => 0,
    }
}

/// Pop ready nodes until one needs an agent invocation or the queue runs
/// dry: a node whose agent is missing from the pool is marked completed
/// with a diagnostic so its dependents can still proceed; when the queue
/// empties with nodes left uncompleted, a diagnostic lists them.
pub open spec fn dag_advance_spec(m: RunModel) -> RunModel
    decreases dag_uncompleted(m), dag_queue_len(m),
    via dag_advance_spec_decreases
{
    match m.strategy {
        StrategyModel::Dag { nodes, edges, queue, completed, outputs, active } => {
            if queue.len() == 0 {
                if count_false(completed) > 0 {
                    let trace2 = m.trace.push(stranded_msg(stranded_ids(nodes, completed)));
                    RunModel {
                        trace: trace2,
                        pending: ActionModel::Finished { result: join_seq(trace2, sep()) },
                        ..m
                    }
                } else {
                    RunModel {
                        pending: ActionModel::Finished { result: join_seq(m.trace, sep()) },
                        ..m
                    }
                }
            } else {
                let c = queue[0];
                let queue2 = queue.drop_first();
                if !(0 <= c < nodes.len() && c < completed.len() && !completed[c]) {
                    dag_advance_spec(
                        RunModel {
                            strategy: StrategyModel::Dag {
                                nodes,
                                edges,
                                queue: queue2,
                                completed,
                                outputs,
                                active,
                            },
                            ..m
                        },
                    )
                } else {
                    let node = nodes[c];
                    let ctx = dag_context(nodes, edges, outputs, node.id);
                    match seq_index_of(m.pool, node.agent) {
                        Some(i) => RunModel {
                            strategy: StrategyModel::Dag {
                                nodes,
                                edges,
                                queue: queue2,
                                completed,
                                outputs,
                                active: c,
                            },
                            pending: ActionModel::Invoke {
                                agent: node.agent,
                                input: dag_input(node.task, ctx, m.task),
                            },
                            ..m
                        },
                        None => {
                            let trace2 = m.trace.push(dag_no_agent_msg(node.agent, node.id));
                            let completed2 = completed.update(c, true);
                            let queue3 = push_ready(
                                nodes,
                                edges,
                                completed2,
                                queue2,
                                node.id,
                                edges.len() as int,
                            );
                            dag_advance_spec(
                                RunModel {
                                    trace: trace2,
                                    strategy: StrategyModel::Dag {
                                        nodes,
                                        edges,
                                        queue: queue3,
                                        completed: completed2,
                                        outputs,
                                        active,
                                    },
                                    ..m
                                },
                            )
                        },
                    }
                }
            }
        },
        _ => m,
    }
}

#[via_fn]
proof fn dag_advance_spec_decreases(m: RunModel) {
    match m.strategy {
        StrategyModel::Dag { nodes, edges, queue, completed, outputs, active } => {
            if queue.len() > 0 {
                let c = queue[0];
                if 0 <= c < nodes.len() && c < completed.len() && !completed[c] {
                    match seq_index_of(m.pool, nodes[c].agent) {
                        Some(i) => {},
                        None => {
                            lemma_count_false_update(completed, c);
                        },
                    }
                }
            }
        },
        _ => {},
    }
}

/// Advancing a well-formed graph run yields a well-formed machine.
proof fn lemma_dag_advance_wf(m: RunModel)
    requires
        dag_pre(m),
    ensures
        wf_model(dag_advance_spec(m)),
    decreases dag_uncompleted(m), dag_queue_len(m),
{
    match m.strategy {
        StrategyModel::Dag { nodes, edges, queue, completed, outputs, active } => {
            if queue.len() == 0 {
            } else {
                let c = queue[0];
                let queue2 = queue.drop_first();
                assert(0 <= c < nodes.len() && !completed[c]);
                assert(queue2.no_duplicates());
                assert forall|q: int| 0 <= q < queue2.len() implies 0 <= #[trigger] queue2[q]
                    < nodes.len() && !completed[queue2[q]] by {
                    assert(queue2[q] == queue[q + 1]);
                }
                assert(!queue2.contains(c)) by {
                    if queue2.contains(c) {
                        let w = choose|w: int| 0 <= w < queue2.len() && queue2[w] == c;
                        assert(queue[w + 1] == c);
                        assert(queue[0] == c);
                    }
                }
                match seq_index_of(m.pool, nodes[c].agent) {
                    Some(i) => {},
                    None => {
                        let completed2 = completed.update(c, true);
                        lemma_count_false_update(completed, c);
                        assert forall|q: int| 0 <= q < queue2.len() implies 0
                            <= #[trigger] queue2[q] < nodes.len() && !completed2[queue2[q]] by {
                            assert(queue2[q] == queue[q + 1]);
                            assert(queue[q + 1] != c);
                        }
                        assert forall|q: int| 0 <= q < queue2.len() implies all_deps_completed(
                            nodes,
                            edges,
                            completed2,
                            nodes[#[trigger] queue2[q]].id,
                        ) by {
                            assert(queue2[q] == queue[q + 1]);
                            lemma_all_deps_monotone(
                                nodes,
                                edges,
                                completed,
                                completed2,
                                nodes[queue2[q]].id,
                            );
                        }
                        lemma_push_ready_ok(
                            nodes,
                            edges,
                            completed2,
                            queue2,
                            nodes[c].id,
                            edges.len() as int,
                        );
                        let queue3 = push_ready(
                            nodes,
                            edges,
                            completed2,
                            queue2,
                            nodes[c].id,
                            edges.len() as int,
                        );
                        let m2 = RunModel {
                            trace: m.trace.push(dag_no_agent_msg(nodes[c].agent, nodes[c].id)),
                            strategy: StrategyModel::Dag {
                                nodes,
                                edges,
                                queue: queue3,
                                completed: completed2,
                                outputs,
                                active,
                            },
                            ..m
                        };
                        assert(dag_pre(m2));
                        lemma_dag_advance_wf(m2);
                    },
                }
            }
        },
        _ => {},
    }
}

/// After a well-formed awaiting graph run records one step and marks its
/// active node completed, the scheduler can pick work again.
proof fn lemma_dag_step_pre(m: RunModel, out: Seq<char>)
    requires
        wf_model(m),
        m.pending is Invoke,
        m.strategy is Dag,
    ensures
        dag_pre(
            RunModel {
                trace: m.trace.push(
                    dag_label(
                        m.strategy->nodes[m.strategy->active].id,
                        m.pending->agent,
                        out,
                    ),
                ),
                steps: m.steps.push(
                    StepModel { agent: m.pending->agent, input: m.pending->input, output: out },
                ),
                strategy: StrategyModel::Dag {
                    nodes: m.strategy->nodes,
                    edges: m.strategy->edges,
                    queue: push_ready(
                        m.strategy->nodes,
                        m.strategy->edges,
                        m.strategy->completed.update(m.strategy->active, true),
                        m.strategy->queue,
                        m.strategy->nodes[m.strategy->active].id,
                        m.strategy->edges.len() as int,
                    ),
                    completed: m.strategy->completed.update(m.strategy->active, true),
                    outputs: m.strategy->outputs.update(m.strategy->active, Some(out)),
                    active: m.strategy->active,
                },
                ..m
            },
        ),
{
    let nodes = m.strategy->nodes;
    let edges = m.strategy->edges;
    let queue = m.strategy->queue;
    let completed = m.strategy->completed;
    let active = m.strategy->active;
    let completed2 = completed.update(active, true);
    assert forall|q: int| 0 <= q < queue.len() implies 0 <= #[trigger] queue[q] < nodes.len()
        && !completed2[queue[q]] by {
        assert(queue[q] != active);
    }
    assert forall|q: int| 0 <= q < queue.len() implies all_deps_completed(
        nodes,
        edges,
        completed2,
        nodes[#[trigger] queue[q]].id,
    ) by {
        lemma_all_deps_monotone(nodes, edges, completed, completed2, nodes[queue[q]].id);
    }
    lemma_push_ready_ok(nodes, edges, completed2, queue, nodes[active].id, edges.len() as int);
}

// ---------------------------------------------------------------------------
// Spec-level transitions
// ---------------------------------------------------------------------------

/// The agent names of a team, in declared order: the pool's iteration order.
pub open spec fn pool_of(team: TeamModel) -> Seq<Seq<char>> {
    team.agents.map(|i: int, a: TeamAgentModel| a.name)
}

/// The topology a run actually follows: the state-machine and graph
/// parameters kept beside the team override the ones embedded in the
/// workflow variant.
pub open spec fn resolve_workflow(team: TeamModel) -> WorkflowModel {
    match team.workflow {
        WorkflowModel::Fsm { states, transitions, initial_state } => match team.fsm {
            Some(c) => WorkflowModel::Fsm {
                states: c.states,
                transitions: c.transitions,
                initial_state: c.initial_state,
            },
            None => team.workflow,
        },
        WorkflowModel::Dag { nodes, edges } => match team.dag {
            Some(c) => WorkflowModel::Dag { nodes: c.nodes, edges: c.edges },
            None => team.workflow,
        },
        _ => team.workflow,
    }
}

/// Initial machine state for the strategies that walk the pool in order.
pub open spec fn sequence_start(pool: Seq<Seq<char>>, task: Seq<char>, chain: bool) -> RunModel {
    RunModel {
        pool: pool,
        task: task,
        trace: Seq::empty(),
        steps: Seq::empty(),
        strategy: if chain {
            StrategyModel::Chain { idx: 0 }
        } else {
            StrategyModel::Independent { idx: 0 }
        },
        pending: if pool.len() == 0 {
            ActionModel::Finished { result: Seq::empty() }
        } else {
            ActionModel::Invoke { agent: pool[0], input: task }
        },
    }
}

/// What a team must satisfy before a run can begin: a dependency-graph
/// topology must be statically well-formed (unique node ids, edges between
/// declared nodes, as the data model requires).
pub open spec fn start_ok(team: TeamModel) -> bool {
    match resolve_workflow(team) {
        WorkflowModel::Dag { nodes, edges } => dag_wf(nodes, edges),
        _ => true,
    }
}

/// The machine state a run begins in.
pub open spec fn start_spec(team: TeamModel, task: Seq<char>) -> RunModel {
    let pool = pool_of(team);
    match resolve_workflow(team) {
        WorkflowModel::RoundRobin => sequence_start(pool, task, false),
        WorkflowModel::Parallel => sequence_start(pool, task, false),
        WorkflowModel::ChainOfThought => sequence_start(pool, task, true),
        WorkflowModel::Fsm { states, transitions, initial_state } => fsm_enter_spec(
            RunModel {
                pool: pool,
                task: task,
                trace: Seq::empty(),
                steps: Seq::empty(),
                strategy: StrategyModel::Fsm {
                    states: states,
                    transitions: transitions,
                    current: initial_state,
                    visited: Seq::empty(),
                    iteration: 0,
                },
                pending: ActionModel::Finished { result: Seq::empty() },
            },
        ),
        WorkflowModel::Dag { nodes, edges } => dag_advance_spec(
            RunModel {
                pool: pool,
                task: task,
                trace: Seq::empty(),
                steps: Seq::empty(),
                strategy: StrategyModel::Dag {
                    nodes: nodes,
                    edges: edges,
                    queue: ready_init(nodes, edges),
                    completed: Seq::new(nodes.len(), |i: int| false),
                    outputs: Seq::new(nodes.len(), |i: int| None),
                    active: 0,
                },
                pending: ActionModel::Finished { result: Seq::empty() },
            },
        ),
    }
}

/// The effect of handing the machine the output of the invocation it asked
/// for. A finished machine is left unchanged.
pub open spec fn provide_spec(m: RunModel, out: Seq<char>) -> RunModel {
    match m.pending {
        ActionModel::Finished { .. } => m,
        ActionModel::Invoke { agent, input } => {
            let steps2 = m.steps.push(StepModel { agent: agent, input: input, output: out });
            match m.strategy {
                StrategyModel::Independent { idx } => {
                    let trace2 = m.trace.push(label_seq(agent, out));
                    RunModel {
                        trace: trace2,
                        steps: steps2,
                        strategy: StrategyModel::Independent { idx: idx + 1 },
                        pending: if idx + 1 < m.pool.len() {
                            ActionModel::Invoke { agent: m.pool[idx + 1], input: m.task }
                        } else {
                            ActionModel::Finished { result: join_seq(trace2, sep()) }
                        },
                        ..m
                    }
                },
                StrategyModel::Chain { idx } => {
                    let trace2 = m.trace.push(chain_label(idx + 1, agent, out));
                    RunModel {
                        trace: trace2,
                        steps: steps2,
                        strategy: StrategyModel::Chain { idx: idx + 1 },
                        pending: if idx + 1 < m.pool.len() {
                            ActionModel::Invoke { agent: m.pool[idx + 1], input: out }
                        } else {
                            ActionModel::Finished { result: out }
                        },
                        ..m
                    }
                },
                StrategyModel::Fsm { states, transitions, current, visited, iteration } => {
                    let trace2 = m.trace.push(fsm_label(current, agent, out));
                    match fsm_next(current, transitions, lower_of(out)) {
                        Some(next) => fsm_enter_spec(
                            RunModel {
                                trace: trace2,
                                steps: steps2,
                                strategy: StrategyModel::Fsm {
                                    states,
                                    transitions,
                                    current: next,
                                    visited,
                                    iteration,
                                },
                                ..m
                            },
                        ),
                        None => {
                            let trace3 = trace2.push(fsm_complete_msg(current));
                            RunModel {
                                trace: trace3,
                                steps: steps2,
                                pending: ActionModel::Finished {
                                    result: join_seq(trace3, sep()),
                                },
                                ..m
                            }
                        },
                    }
                },
                StrategyModel::Dag { nodes, edges, queue, completed, outputs, active } => {
                    let trace2 = m.trace.push(dag_label(nodes[active].id, agent, out));
                    let outputs2 = outputs.update(active, Some(out));
                    let completed2 = completed.update(active, true);
                    let queue2 = push_ready(
                        nodes,
                        edges,
                        completed2,
                        queue,
                        nodes[active].id,
                        edges.len() as int,
                    );
                    dag_advance_spec(
                        RunModel {
                            trace: trace2,
                            steps: steps2,
                            strategy: StrategyModel::Dag {
                                nodes,
                                edges,
                                queue: queue2,
                                completed: completed2,
                                outputs: outputs2,
                                active,
                            },
                            ..m
                        },
                    )
                },
            }
        },
    }
}

// ---------------------------------------------------------------------------
// Well-formedness of a machine state
// ---------------------------------------------------------------------------

/// Invariants every reachable machine state satisfies. Established by
/// [`TeamDispatcher::start`] and preserved by
/// [`DispatchRun::provide_output`].
pub open spec fn wf_model(m: RunModel) -> bool {
    match m.strategy {
        StrategyModel::Independent { idx } => {
            &&& 0 <= idx <= m.pool.len()
            &&& m.steps.len() == idx
            &&& m.trace.len() == idx
            &&& (forall|k: int|
                0 <= k < idx ==> (#[trigger] m.steps[k]).agent == m.pool[k] && m.steps[k].input
                    == m.task)
            &&& (forall|k: int|
                0 <= k < idx ==> #[trigger] m.trace[k] == label_seq(
                    m.pool[k],
                    m.steps[k].output,
                ))
            &&& match m.pending {
                ActionModel::Invoke { agent, input } => idx < m.pool.len() && agent == m.pool[idx]
                    && input == m.task,
                ActionModel::Finished { result } => idx == m.pool.len() && result == join_seq(
                    m.trace,
                    sep(),
                ),
            }
        },
        StrategyModel::Chain { idx } => {
            &&& 0 <= idx <= m.pool.len()
            &&& m.steps.len() == idx
            &&& m.trace.len() == idx
            &&& (forall|k: int| 0 <= k < idx ==> (#[trigger] m.steps[k]).agent == m.pool[k])
            &&& (forall|k: int|
                0 <= k < idx ==> (#[trigger] m.steps[k]).input == if k == 0 {
                    m.task
                } else {
                    m.steps[k - 1].output
                })
            &&& (forall|k: int|
                0 <= k < idx ==> #[trigger] m.trace[k] == chain_label(
                    k + 1,
                    m.pool[k],
                    m.steps[k].output,
                ))
            &&& match m.pending {
                ActionModel::Invoke { agent, input } => idx < m.pool.len() && agent == m.pool[idx]
                    && input == if idx == 0 {
                    m.task
                } else {
                    m.steps[idx - 1].output
                },
                ActionModel::Finished { result } => idx == m.pool.len() && result == if m.steps.len()
                    == 0 {
                    Seq::<char>::empty()
                } else {
                    m.steps.last().output
                },
            }
        },
        StrategyModel::Fsm { states, transitions, current, visited, iteration } => {
            &&& visited.no_duplicates()
            &&& (forall|k: int| 0 <= k < visited.len() ==> states.contains(#[trigger] visited[k]))
            &&& m.steps.len() <= visited.len() <= m.steps.len() + 1
            &&& (forall|k: int|
                0 <= k < m.steps.len() ==> (#[trigger] m.steps[k]).input == fsm_input(
                    visited[k],
                    m.task,
                ))
            &&& match m.pending {
                ActionModel::Invoke { agent, input } => {
                    &&& visited.len() == m.steps.len() + 1
                    &&& current == visited.last()
                    &&& iteration == visited.len()
                    &&& iteration <= 2 * states.len()
                    &&& input == fsm_input(current, m.task)
                    &&& first_match_agent(m.pool, current) is Some
                    &&& agent == m.pool[first_match_agent(m.pool, current)->0]
                },
                ActionModel::Finished { .. } => true,
            }
        },
        StrategyModel::Dag { nodes, edges, queue, completed, outputs, active } => {
            &&& dag_wf(nodes, edges)
            &&& completed.len() == nodes.len()
            &&& outputs.len() == nodes.len()
            &&& queue.no_duplicates()
            &&& queue_entries_ok(queue, nodes.len() as int, completed)
            &&& queue_deps_ok(nodes, edges, completed, queue)
            &&& match m.pending {
                ActionModel::Invoke { agent, input } => {
                    &&& 0 <= active < nodes.len()
                    &&& !completed[active]
                    &&& !queue.contains(active)
                    &&& all_deps_completed(nodes, edges, completed, nodes[active].id)
                    &&& agent == nodes[active].agent
                    &&& seq_index_of(m.pool, nodes[active].agent) is Some
                    &&& input == dag_input(
                        nodes[active].task,
                        dag_context(nodes, edges, outputs, nodes[active].id),
                        m.task,
                    )
                },
                ActionModel::Finished { .. } => true,
            }
        },
    }
}

/// Providing an output to a well-formed awaiting machine yields a
/// well-formed machine.
pub proof fn lemma_wf_preserved(m: RunModel, out: Seq<char>)
    requires
        wf_model(m),
    ensures
        wf_model(provide_spec(m, out)),
{
    match m.pending {
        ActionModel::Finished { .. } => {},
        ActionModel::Invoke { agent, input } => {
            match m.strategy {
                StrategyModel::Independent { idx } => {
                    let m2 = provide_spec(m, out);
                    assert(m2.steps =~= m.steps.push(
                        StepModel { agent: agent, input: input, output: out },
                    ));
                },
                StrategyModel::Chain { idx } => {},
                StrategyModel::Fsm { states, transitions, current, visited, iteration } => {
                    let steps2 = m.steps.push(
                        StepModel { agent: agent, input: input, output: out },
                    );
                    let trace2 = m.trace.push(fsm_label(current, agent, out));
                    match fsm_next(current, transitions, lower_of(out)) {
                        Some(next) => {
                            let mid = RunModel {
                                trace: trace2,
                                steps: steps2,
                                strategy: StrategyModel::Fsm {
                                    states,
                                    transitions,
                                    current: next,
                                    visited,
                                    iteration,
                                },
                                ..m
                            };
                            lemma_fsm_step_pre(m, out, next);
                            assert(fsm_pre(mid));
                            lemma_fsm_enter_wf(mid);
                        },
                        None => {
                            lemma_fsm_step_pre(m, out, current);
                            let mid = RunModel {
                                trace: trace2,
                                steps: steps2,
                                strategy: StrategyModel::Fsm {
                                    states,
                                    transitions,
                                    current,
                                    visited,
                                    iteration,
                                },
                                ..m
                            };
                            assert(fsm_pre(mid));
                            assert(forall|k: int|
                                0 <= k < steps2.len() ==> (#[trigger] steps2[k]) == mid.steps[k]);
                        },
                    }
                },
                StrategyModel::Dag { nodes, edges, queue, completed, outputs, active } => {
                    let steps2 = m.steps.push(
                        StepModel { agent: agent, input: input, output: out },
                    );
                    let trace2 = m.trace.push(dag_label(nodes[active].id, agent, out));
                    let outputs2 = outputs.update(active, Some(out));
                    let completed2 = completed.update(active, true);
                    assert forall|q: int| 0 <= q < queue.len() implies 0 <= #[trigger] queue[q]
                        < nodes.len() && !completed2[queue[q]] by {
                        assert(queue[q] != active);
                    }
                    assert forall|q: int| 0 <= q < queue.len() implies all_deps_completed(
                        nodes,
                        edges,
                        completed2,
                        nodes[#[trigger] queue[q]].id,
                    ) by {
                        lemma_all_deps_monotone(
                            nodes,
                            edges,
                            completed,
                            completed2,
                            nodes[queue[q]].id,
                        );
                    }
                    lemma_push_ready_ok(
                        nodes,
                        edges,
                        completed2,
                        queue,
                        nodes[active].id,
                        edges.len() as int,
                    );
                    let queue2 = push_ready(
                        nodes,
                        edges,
                        completed2,
                        queue,
                        nodes[active].id,
                        edges.len() as int,
                    );
                    let mid = RunModel {
                        trace: trace2,
                        steps: steps2,
                        strategy: StrategyModel::Dag {
                            nodes,
                            edges,
                            queue: queue2,
                            completed: completed2,
                            outputs: outputs2,
                            active,
                        },
                        ..m
                    };
                    assert(dag_pre(mid));
                    lemma_dag_advance_wf(mid);
                },
            }
        },
    }
}

// ---------------------------------------------------------------------------
// The executable machine
// ---------------------------------------------------------------------------

/// What the machine asks of its driver next: invoke an agent, or done.
#[derive(Debug)]
pub enum Action {
    /// Invoke the named agent with this input and hand the output back.
    Invoke { agent: String, input: String },
    /// The run is complete with this terminal result.
    Finished { result: String },
}

impl View for Action {
    type V = ActionModel;

    open spec fn view(&self) -> ActionModel {
        match self {
            Action::Invoke { agent, input } => ActionModel::Invoke {
                agent: agent@,
                input: input@,
            },
            Action::Finished { result } => ActionModel::Finished { result: result@ },
        }
    }
}

enum Strategy {
    Independent { idx: usize },
    Chain { idx: usize },
    Fsm {
        states: Vec<String>,
        transitions: Vec<StateTransition>,
        current: String,
        visited: Vec<String>,
        iteration: u128,
    },
    Dag {
        nodes: Vec<DAGNode>,
        edges: Vec<DAGEdge>,
        queue: Vec<usize>,
        completed: Vec<bool>,
        outputs: Vec<Option<String>>,
        active: usize,
    },
}

impl View for Strategy {
    type V = StrategyModel;

    closed spec fn view(&self) -> StrategyModel {
        match self {
            Strategy::Independent { idx } => StrategyModel::Independent { idx: *idx as int },
            Strategy::Chain { idx } => StrategyModel::Chain { idx: *idx as int },
            Strategy::Fsm { states, transitions, current, visited, iteration } =>
                StrategyModel::Fsm {
                states: states.deep_view(),
                transitions: transitions.deep_view(),
                current: current@,
                visited: visited.deep_view(),
                iteration: *iteration as int,
            },
            Strategy::Dag { nodes, edges, queue, completed, outputs, active } =>
                StrategyModel::Dag {
                nodes: nodes.deep_view(),
                edges: edges.deep_view(),
                queue: queue_view(queue@),
                completed: completed@,
                outputs: outputs.deep_view(),
                active: *active as int,
            },
        }
    }
}

/// One in-flight workflow execution: a step machine that alternates
/// between asking for one agent invocation and receiving its output.
pub struct DispatchRun {
    pool: Vec<String>,
    task: String,
    trace: Vec<String>,
    state: WorkflowState,
    strategy: Strategy,
    pending: Action,
    pending_since: u64,
}

impl View for DispatchRun {
    type V = RunModel;

    closed spec fn view(&self) -> RunModel {
        RunModel {
            pool: self.pool.deep_view(),
            task: self.task@,
            trace: self.trace.deep_view(),
            steps: steps_of(self.state@.step_results),
            strategy: self.strategy@,
            pending: self.pending@,
        }
    }
}

impl DispatchRun {
    /// The machine state is well-formed.
    pub open spec fn wf(&self) -> bool {
        wf_model(self@)
    }

    /// What to do next: the pending invocation, or the terminal result.
    pub fn next_action(&self) -> (a: Action)
        ensures
            a@ == self@.pending,
    {
        match &self.pending {
            Action::Invoke { agent, input } => Action::Invoke {
                agent: agent.clone(),
                input: input.clone(),
            },
            Action::Finished { result } => Action::Finished { result: result.clone() },
        }
    }

    /// The run has reached its terminal result.
    pub fn is_finished(&self) -> (r: bool)
        ensures
            r == (self@.pending is Finished),
    {
        match &self.pending {
            Action::Invoke { .. } => false,
            Action::Finished { .. } => true,
        }
    }

    /// The trace assembled so far, one entry per invocation plus any
    /// diagnostics.
    pub fn trace(&self) -> (r: &Vec<String>)
        ensures
            r.deep_view() == self@.trace,
    {
        &self.trace
    }

    /// The tracked record's run id. Closed: the record is not part of the
    /// run model — its id is random and its timing clock-read.
    pub closed spec fn spec_workflow_id(&self) -> Seq<char> {
        self.state.workflow_id@
    }

    /// The tracked record's current step index.
    pub closed spec fn spec_current_step(&self) -> int {
        self.state.current_step as int
    }

    /// The tracked record's current agent.
    pub closed spec fn spec_current_agent(&self) -> Option<Seq<char>> {
        match self.state.current_agent {
            Some(ref a) => Some(a@),
            None => None,
        }
    }

    /// A read-only health snapshot of this run: its id, current step and
    /// agent, elapsed wall-clock seconds, and whether the terminal result
    /// has been reached.
    pub fn status(&self) -> (r: WorkflowStatus)
        ensures
            r.workflow_id@ == self.spec_workflow_id(),
            r.current_step as int == self.spec_current_step(),
            opt_str_view(r.current_agent) == self.spec_current_agent(),
            r.is_complete == (self@.pending is Finished),
    {
        WorkflowStatus {
            workflow_id: self.state.workflow_id.clone(),
            current_step: self.state.current_step,
            current_agent: match &self.state.current_agent {
                Some(a) => Some(a.clone()),
                None => None,
            },
            execution_time: self.state.get_execution_time(),
            is_complete: self.is_finished(),
        }
    }

    /// Hand the machine the output of the invocation it asked for.
    #[verifier::rlimit(60)]
    pub fn provide_output(&mut self, output: String)
        requires
            old(self).wf(),
            old(self)@.pending is Invoke,
        ensures
            final(self)@ == provide_spec(old(self)@, output@),
            final(self).wf(),
            final(self).spec_workflow_id() == old(self).spec_workflow_id(),
            final(self).spec_current_step() == old(self)@.steps.len(),
            final(self).spec_current_agent() == Some(old(self)@.pending->agent),
    {
        let ghost m0 = self@;
        let ghost outv = output@;
        proof {
            lemma_wf_preserved(m0, outv);
            assert(m0.pool.len() == self.pool@.len());
        }
        let (agent, input) = match &self.pending {
            Action::Invoke { agent, input } => (agent.clone(), input.clone()),
            Action::Finished { .. } => {
                proof {
                    assert(false);
                }
                (String::new(), String::new())
            },
        };
        // record the step, with wall-clock timing
        let now = now_unix_secs();
        let waited = if now >= self.pending_since {
            now - self.pending_since
        } else {
            0
        };
        let duration_ms = if waited > u64::MAX / 1000 {
            u64::MAX
        } else {
            waited * 1000
        };
        let idx0 = self.state.step_results.len();
        self.state.set_current_step(idx0);
        self.state.set_current_agent(agent.as_str());
        let step = StepResult {
            step_index: idx0,
            agent: agent.clone(),
            input: input,
            output: output.clone(),
            timestamp: now,
            duration_ms,
        };
        let ghost oldresults = self.state@.step_results;
        let ghost stepv = step@;
        self.state.add_step_result(step);
        proof {
            lemma_steps_of_push(oldresults, stepv);
            assert(steps_of(self.state@.step_results) =~= m0.steps.push(
                StepModel { agent: stepv.agent, input: stepv.input, output: stepv.output },
            ));
        }
        // strategy-specific bookkeeping
        let pool_n = self.pool.len();
        proof {
            assert(pool_n as int == m0.pool.len());
        }
        let mut strat = Strategy::Independent { idx: 0 };
        core::mem::swap(&mut strat, &mut self.strategy);
        match strat {
            Strategy::Independent { idx } => {
                proof {
                    assert(m0.strategy == (StrategyModel::Independent { idx: idx as int }));
                    assert((idx as int) < m0.pool.len());
                }
                let entry = label_of(agent.as_str(), output.as_str());
                let ghost entryv = entry@;
                self.trace.push(entry);
                proof {
                    assert(self.trace.deep_view() =~= m0.trace.push(entryv));
                }
                let idx2 = idx + 1;
                if idx2 < self.pool.len() {
                    self.pending = Action::Invoke {
                        agent: self.pool[idx2].clone(),
                        input: self.task.clone(),
                    };
                } else {
                    let result = join_with(&self.trace, "\n\n");
                    self.pending = Action::Finished { result };
                }
                self.strategy = Strategy::Independent { idx: idx2 };
            },
            Strategy::Chain { idx } => {
                proof {
                    assert(m0.strategy == (StrategyModel::Chain { idx: idx as int }));
                    assert((idx as int) < m0.pool.len());
                }
                let entry = chain_label_of(idx + 1, agent.as_str(), output.as_str());
                let ghost entryv = entry@;
                self.trace.push(entry);
                proof {
                    assert(self.trace.deep_view() =~= m0.trace.push(entryv));
                }
                let idx2 = idx + 1;
                if idx2 < self.pool.len() {
                    self.pending = Action::Invoke {
                        agent: self.pool[idx2].clone(),
                        input: output,
                    };
                } else {
                    self.pending = Action::Finished { result: output };
                }
                self.strategy = Strategy::Chain { idx: idx2 };
            },
            Strategy::Fsm { states, transitions, current, visited, iteration } => {
                let ghost vv = visited.deep_view();
                let entry = fsm_label_of(current.as_str(), agent.as_str(), output.as_str());
                let ghost entryv = entry@;
                self.trace.push(entry);
                proof {
                    assert(self.trace.deep_view() =~= m0.trace.push(entryv));
                    assert(vv[vv.len() - 1] == vv.last());
                }
                let next = TeamDispatcher::determine_next_state(
                    current.as_str(),
                    &transitions,
                    output.as_str(),
                );
                match next {
                    Some(nx) => {
                        let ghost nxv = nx@;
                        self.strategy = Strategy::Fsm {
                            states,
                            transitions,
                            current: nx,
                            visited,
                            iteration,
                        };
                        proof {
                            lemma_fsm_step_pre(m0, outv, nxv);
                            assert(fsm_pre(self@));
                        }
                        self.fsm_enter();
                    },
                    None => {
                        let entry2 = fsm_complete_msg_of(current.as_str());
                        let ghost entry2v = entry2@;
                        let ghost t1 = self.trace.deep_view();
                        self.trace.push(entry2);
                        proof {
                            assert(self.trace.deep_view() =~= t1.push(entry2v));
                        }
                        let result = join_with(&self.trace, "\n\n");
                        self.pending = Action::Finished { result };
                        self.strategy = Strategy::Fsm {
                            states,
                            transitions,
                            current,
                            visited,
                            iteration,
                        };
                    },
                }
            },
            Strategy::Dag {
                nodes,
                edges,
                queue: mut queue,
                completed: mut completed,
                outputs: mut outputs,
                active,
            } => {
                proof {
                    assert(m0.strategy == (StrategyModel::Dag {
                        nodes: nodes.deep_view(),
                        edges: edges.deep_view(),
                        queue: queue_view(queue@),
                        completed: completed@,
                        outputs: outputs.deep_view(),
                        active: active as int,
                    }));
                    assert(0 <= (active as int) < nodes.deep_view().len());
                    assert(nodes.deep_view()[active as int] == nodes@[active as int]@);
                }
                let entry = dag_label_of(
                    nodes[active].id.as_str(),
                    agent.as_str(),
                    output.as_str(),
                );
                let ghost entryv = entry@;
                self.trace.push(entry);
                proof {
                    assert(self.trace.deep_view() =~= m0.trace.push(entryv));
                }
                let ghost obefore = outputs.deep_view();
                let ghost outvv = output@;
                outputs.set(active, Some(output));
                proof {
                    assert(outputs.deep_view() =~= obefore.update(active as int, Some(outvv)));
                }
                let ghost cbefore = completed@;
                completed.set(active, true);
                proof {
                    assert(completed@ =~= cbefore.update(active as int, true));
                }
                enqueue_ready(&nodes, &edges, &completed, &mut queue, nodes[active].id.as_str());
                self.strategy = Strategy::Dag {
                    nodes,
                    edges,
                    queue,
                    completed,
                    outputs,
                    active,
                };
                proof {
                    lemma_dag_step_pre(m0, outv);
                    assert(dag_pre(self@));
                }
                self.dag_advance();
            },
        }
        let now2 = now_unix_secs();
        self.pending_since = now2;
        proof {
            let mp = provide_spec(m0, outv);
            assert(self.pool.deep_view() == mp.pool);
            assert(self.trace.deep_view() =~= mp.trace);
            assert(steps_of(self.state@.step_results) =~= mp.steps);
            assert(self.strategy@ =~~= mp.strategy);
            assert(self.pending@ =~~= mp.pending);
            assert(self@ =~~= mp);
        }
    }

    /// Walk into the machine's current state: decide the next invocation,
    /// or halt with the applicable diagnostic.
    #[verifier::rlimit(60)]
    fn fsm_enter(&mut self)
        requires
            fsm_pre(old(self)@),
        ensures
            final(self)@ == fsm_enter_spec(old(self)@),
            final(self).wf(),
            final(self).state == old(self).state,
    {
        let ghost m0 = self@;
        proof {
            lemma_fsm_enter_wf(m0);
        }
        let mut strat = Strategy::Independent { idx: 0 };
        core::mem::swap(&mut strat, &mut self.strategy);
        match strat {
            Strategy::Fsm { states, transitions, current, visited, iteration } => {
                let ghost sv = states.deep_view();
                let ghost vv = visited.deep_view();
                proof {
                    lemma_seq_index_of(sv, current@);
                    lemma_seq_index_of(vv, current@);
                    assert(sv.len() == states@.len());
                    assert(vv.len() == visited@.len());
                }
                let in_states = match index_of_str(&states, current.as_str()) {
                    Some(_) => true,
                    None => false,
                };
                if !in_states {
                    proof {
                        assert(!sv.contains(current@));
                    }
                    let result = join_with(&self.trace, "\n\n");
                    self.pending = Action::Finished { result };
                    self.strategy = Strategy::Fsm {
                        states,
                        transitions,
                        current,
                        visited,
                        iteration,
                    };
                    proof {
                        assert(self@ =~~= fsm_enter_spec(m0));
                    }
                    return;
                }
                proof {
                    assert(sv.contains(current@));
                }
                let n = states.len();
                let vn = visited.len();
                proof {
                    assert(iteration as int == vn as int);
                }
                let it2 = iteration + 1;
                if it2 > (n as u128) * 2 {
                    let msg =
                        "⚠️ FSM: Maximum iterations reached, stopping to prevent infinite loop".to_owned();
                    let ghost t0 = self.trace.deep_view();
                    self.trace.push(msg);
                    proof {
                        assert(self.trace.deep_view() =~= t0.push(fsm_max_msg()));
                    }
                    let result = join_with(&self.trace, "\n\n");
                    self.pending = Action::Finished { result };
                    self.strategy = Strategy::Fsm {
                        states,
                        transitions,
                        current,
                        visited,
                        iteration: it2,
                    };
                    proof {
                        assert(self@ =~~= fsm_enter_spec(m0));
                    }
                    return;
                }
                let revisit = match index_of_str(&visited, current.as_str()) {
                    Some(_) => true,
                    None => false,
                };
                if revisit {
                    proof {
                        assert(vv.contains(current@));
                    }
                    let msg = fsm_visited_msg_of(current.as_str());
                    let ghost t0 = self.trace.deep_view();
                    self.trace.push(msg);
                    proof {
                        assert(self.trace.deep_view() =~= t0.push(fsm_visited_msg(current@)));
                    }
                    let result = join_with(&self.trace, "\n\n");
                    self.pending = Action::Finished { result };
                    self.strategy = Strategy::Fsm {
                        states,
                        transitions,
                        current,
                        visited,
                        iteration: it2,
                    };
                    proof {
                        assert(self@ =~~= fsm_enter_spec(m0));
                    }
                    return;
                }
                proof {
                    assert(!vv.contains(current@));
                }
                let mut visited2 = visited;
                visited2.push(current.clone());
                proof {
                    assert(visited2.deep_view() =~= vv.push(current@));
                }
                match find_match_agent(&self.pool, current.as_str()) {
                    Some(i) => {
                        let input = fsm_input_of(current.as_str(), self.task.as_str());
                        self.pending = Action::Invoke { agent: self.pool[i].clone(), input };
                        self.strategy = Strategy::Fsm {
                            states,
                            transitions,
                            current,
                            visited: visited2,
                            iteration: it2,
                        };
                        proof {
                            assert(self@ =~~= fsm_enter_spec(m0));
                        }
                    },
                    None => {
                        let msg = fsm_no_agent_msg_of(current.as_str());
                        let ghost t0 = self.trace.deep_view();
                        self.trace.push(msg);
                        proof {
                            assert(self.trace.deep_view() =~= t0.push(fsm_no_agent_msg(current@)));
                        }
                        let result = join_with(&self.trace, "\n\n");
                        self.pending = Action::Finished { result };
                        self.strategy = Strategy::Fsm {
                            states,
                            transitions,
                            current,
                            visited: visited2,
                            iteration: it2,
                        };
                        proof {
                            assert(self@ =~~= fsm_enter_spec(m0));
                        }
                    },
                }
            },
            _ => {
                proof {
                    assert(false);
                }
                self.strategy = strat;
            },
        }
    }

    /// Pop ready nodes until one needs an invocation or the queue runs dry.
    #[verifier::rlimit(100)]
    fn dag_advance(&mut self)
        requires
            dag_pre(old(self)@),
        ensures
            final(self)@ == dag_advance_spec(old(self)@),
            final(self).wf(),
            final(self).state == old(self).state,
    {
        let ghost m0 = self@;
        proof {
            lemma_dag_advance_wf(m0);
        }
        let mut strat = Strategy::Independent { idx: 0 };
        core::mem::swap(&mut strat, &mut self.strategy);
        match strat {
            Strategy::Dag {
                nodes,
                edges,
                queue: mut queue,
                completed: mut completed,
                outputs,
                active: mut active,
            } => {
                let ghost nv = nodes.deep_view();
                let ghost ev = edges.deep_view();
                let ghost ov = outputs.deep_view();
                proof {
                    assert(nv.len() == nodes@.len());
                    assert(ev.len() == edges@.len());
                    assert(ov.len() == outputs@.len());
                    assert(dag_run_model(
                        self.pool.deep_view(),
                        self.task@,
                        self.trace.deep_view(),
                        steps_of(self.state@.step_results),
                        self.pending@,
                        nv,
                        ev,
                        queue_view(queue@),
                        completed@,
                        ov,
                        active as int,
                    ) =~~= m0);
                }
                loop
                    invariant
                        m0 == old(self)@,
                        self.state == old(self).state,
                        nv == nodes.deep_view(),
                        ev == edges.deep_view(),
                        ov == outputs.deep_view(),
                        nv.len() == nodes@.len(),
                        ev.len() == edges@.len(),
                        ov.len() == outputs@.len(),
                        dag_pre(
                            dag_run_model(
                                self.pool.deep_view(),
                                self.task@,
                                self.trace.deep_view(),
                                steps_of(self.state@.step_results),
                                self.pending@,
                                nv,
                                ev,
                                queue_view(queue@),
                                completed@,
                                ov,
                                active as int,
                            ),
                        ),
                        dag_advance_spec(
                            dag_run_model(
                                self.pool.deep_view(),
                                self.task@,
                                self.trace.deep_view(),
                                steps_of(self.state@.step_results),
                                self.pending@,
                                nv,
                                ev,
                                queue_view(queue@),
                                completed@,
                                ov,
                                active as int,
                            ),
                        ) == dag_advance_spec(m0),
                    decreases count_false(completed@), queue@.len(),
                {
                    let ghost cur = dag_run_model(
                        self.pool.deep_view(),
                        self.task@,
                        self.trace.deep_view(),
                        steps_of(self.state@.step_results),
                        self.pending@,
                        nv,
                        ev,
                        queue_view(queue@),
                        completed@,
                        ov,
                        active as int,
                    );
                    if queue.len() == 0 {
                        let unc = count_false_exec(&completed);
                        if unc > 0 {
                            let mut ids: Vec<String> = Vec::new();
                            proof {
                                assert(ids.deep_view() =~= Seq::<Seq<char>>::empty());
                                assert(nv.take(0) =~= Seq::<NodeModel>::empty());
                            }
                            let mut i: usize = 0;
                            while i < nodes.len()
                                invariant
                                    nv == nodes.deep_view(),
                                    nv.len() == nodes@.len(),
                                    completed@.len() == nodes@.len(),
                                    i <= nodes@.len(),
                                    ids.deep_view() == stranded_ids(nv.take(i as int), completed@),
                                decreases nodes@.len() - i,
                            {
                                proof {
                                    assert(nv[i as int] == nodes@[i as int]@);
                                    assert(nv.take(i + 1).drop_last() =~= nv.take(i as int));
                                    assert(nv.take(i + 1).last() == nv[i as int]);
                                }
                                if !completed[i] {
                                    let ghost ibefore = ids.deep_view();
                                    ids.push(nodes[i].id.clone());
                                    proof {
                                        assert(ids.deep_view() =~= ibefore.push(nv[i as int].id));
                                    }
                                }
                                i += 1;
                            }
                            proof {
                                assert(nv.take(nv.len() as int) =~= nv);
                            }
                            let mut msg = "⚠️ DAG: Some nodes could not be completed: ".to_owned();
                            let listed = debug_list(&ids);
                            msg.append(listed.as_str());
                            let ghost t0 = self.trace.deep_view();
                            let ghost msgv = msg@;
                            self.trace.push(msg);
                            proof {
                                assert(self.trace.deep_view() =~= t0.push(msgv));
                            }
                            let result = join_with(&self.trace, "\n\n");
                            self.pending = Action::Finished { result };
                        } else {
                            let result = join_with(&self.trace, "\n\n");
                            self.pending = Action::Finished { result };
                        }
                        self.strategy = Strategy::Dag {
                            nodes,
                            edges,
                            queue,
                            completed,
                            outputs,
                            active,
                        };
                        proof {
                            assert(self@ =~~= dag_advance_spec(cur));
                        }
                        return;
                    }
                    let c = queue.remove(0);
                    proof {
                        assert(queue_view(queue@) =~= cur.strategy->queue.drop_first());
                        assert(cur.strategy->queue[0] == c as int);
                        assert(0 <= (c as int) < nv.len() && !completed@[c as int]);
                    }
                    let ctx = dag_context_of(&nodes, &edges, &outputs, nodes[c].id.as_str());
                    match index_of_str(&self.pool, nodes[c].agent.as_str()) {
                        Some(_) => {
                            let input = dag_input_of(
                                nodes[c].task.as_str(),
                                ctx.as_str(),
                                self.task.as_str(),
                            );
                            self.pending = Action::Invoke {
                                agent: nodes[c].agent.clone(),
                                input,
                            };
                            active = c;
                            self.strategy = Strategy::Dag {
                                nodes,
                                edges,
                                queue,
                                completed,
                                outputs,
                                active,
                            };
                            proof {
                                assert(self@ =~~= dag_advance_spec(cur));
                            }
                            return;
                        },
                        None => {
                            let msg = dag_no_agent_msg_of(
                                nodes[c].agent.as_str(),
                                nodes[c].id.as_str(),
                            );
                            let ghost t0 = self.trace.deep_view();
                            let ghost msgv = msg@;
                            self.trace.push(msg);
                            proof {
                                assert(self.trace.deep_view() =~= t0.push(msgv));
                            }
                            let ghost cbefore = completed@;
                            completed.set(c, true);
                            proof {
                                assert(completed@ =~= cbefore.update(c as int, true));
                            }
                            enqueue_ready(
                                &nodes,
                                &edges,
                                &completed,
                                &mut queue,
                                nodes[c].id.as_str(),
                            );
                            proof {
                                let next = dag_run_model(
                                    self.pool.deep_view(),
                                    self.task@,
                                    self.trace.deep_view(),
                                    steps_of(self.state@.step_results),
                                    self.pending@,
                                    nv,
                                    ev,
                                    queue_view(queue@),
                                    completed@,
                                    ov,
                                    active as int,
                                );
                                assert(dag_advance_spec(cur) == dag_advance_spec(next));
                                lemma_count_false_update(cbefore, c as int);
                                assert forall|q: int|
                                    0 <= q < cur.strategy->queue.drop_first().len() implies 0 <= (
                                    #[trigger] cur.strategy->queue.drop_first()[q]) < nv.len()
                                    && !completed@[cur.strategy->queue.drop_first()[q]] by {
                                    assert(cur.strategy->queue.drop_first()[q]
                                        == cur.strategy->queue[q + 1]);
                                    assert(cur.strategy->queue[q + 1] != c as int);
                                }
                                assert forall|q: int|
                                    0 <= q < cur.strategy->queue.drop_first().len()
                                    implies all_deps_completed(
                                    nv,
                                    ev,
                                    completed@,
                                    nv[#[trigger] cur.strategy->queue.drop_first()[q]].id,
                                ) by {
                                    assert(cur.strategy->queue.drop_first()[q]
                                        == cur.strategy->queue[q + 1]);
                                    lemma_all_deps_monotone(
                                        nv,
                                        ev,
                                        cbefore,
                                        completed@,
                                        nv[cur.strategy->queue.drop_first()[q]].id,
                                    );
                                }
                                lemma_push_ready_ok(
                                    nv,
                                    ev,
                                    completed@,
                                    cur.strategy->queue.drop_first(),
                                    nv[c as int].id,
                                    ev.len() as int,
                                );
                                assert(dag_pre(next));
                            }
                        },
                    }
                }
            },
            _ => {
                proof {
                    assert(false);
                }
                self.strategy = strat;
            },
        }
    }
}

/// Whether a condition tag fires on an output, case-folded.
fn cond_fires_exec(condition: &str, out_lower: &str) -> (r: bool)
    ensures
        r == cond_fires(condition@, out_lower@),
{
    if str_eq(condition, "customer_satisfied") {
        contains_sub(out_lower, "satisfied") || contains_sub(out_lower, "resolved")
            || contains_sub(out_lower, "happy")
    } else if str_eq(condition, "customer_unsatisfied") {
        contains_sub(out_lower, "unsatisfied") || contains_sub(out_lower, "not resolved")
            || contains_sub(out_lower, "still has issue")
    } else {
        true
    }
}

/// The first agent in pool order matching the state by substring
/// containment in either direction.
fn find_match_agent(pool: &Vec<String>, state: &str) -> (r: Option<usize>)
    ensures
        match r {
            Some(i) => first_match_agent(pool.deep_view(), state@) == Some(i as int) && (i as int)
                < pool.deep_view().len(),
            None => first_match_agent(pool.deep_view(), state@) is None,
        },
{
    let ghost dv = pool.deep_view();
    proof {
        lemma_first_match_agent(dv, state@);
        assert(dv.len() == pool@.len());
    }
    let mut i: usize = 0;
    while i < pool.len()
        invariant
            dv == pool.deep_view(),
            dv.len() == pool@.len(),
            i <= pool@.len(),
            forall|k: int| 0 <= k < i ==> !agent_matches(#[trigger] dv[k], state@),
            match first_match_agent(dv, state@) {
                Some(j) => 0 <= j < dv.len() && agent_matches(dv[j], state@) && forall|k: int|
                    0 <= k < j ==> !agent_matches(#[trigger] dv[k], state@),
                None => forall|k: int| 0 <= k < dv.len() ==> !agent_matches(#[trigger] dv[k], state@),
            },
        decreases pool@.len() - i,
    {
        proof {
            assert(dv[i as int] == pool@[i as int]@);
        }
        if contains_sub(pool[i].as_str(), state) || contains_sub(state, pool[i].as_str()) {
            return Some(i);
        }
        i += 1;
    }
    None
}

impl TeamDispatcher {
    /// Resolve the next state from the declared transitions and the agent's
    /// output, as [`fsm_next`] describes.
    pub fn determine_next_state(
        current: &str,
        transitions: &Vec<StateTransition>,
        agent_output: &str,
    ) -> (r: Option<String>)
        ensures
            r is Some ==> fsm_next(current@, transitions.deep_view(), lower_of(agent_output@))
                == Some((r->0)@),
            r is None ==> fsm_next(current@, transitions.deep_view(), lower_of(agent_output@))
                is None,
    {
        let lo = lowercase(agent_output);
        let ghost ol = lower_of(agent_output@);
        let ghost tv = transitions.deep_view();
        proof {
            lemma_first_from(tv, current@);
            lemma_first_firing(tv, current@, ol);
            assert(tv.len() == transitions@.len());
        }
        let mut ff: Option<usize> = None;
        let mut i: usize = 0;
        while i < transitions.len()
            invariant
                tv == transitions.deep_view(),
                tv.len() == transitions@.len(),
                lo@ == ol,
                ol == lower_of(agent_output@),
                i <= transitions@.len(),
                forall|k: int|
                    0 <= k < i ==> !((#[trigger] tv[k]).from == current@ && cond_fires(
                        tv[k].condition,
                        ol,
                    )),
                match ff {
                    Some(j) => 0 <= j < i && tv[j as int].from == current@ && forall|k: int|
                        0 <= k < j ==> (#[trigger] tv[k]).from != current@,
                    None => forall|k: int| 0 <= k < i ==> (#[trigger] tv[k]).from != current@,
                },
                match first_from(tv, current@) {
                    Some(j) => 0 <= j < tv.len() && tv[j].from == current@ && forall|k: int|
                        0 <= k < j ==> (#[trigger] tv[k]).from != current@,
                    None => forall|k: int| 0 <= k < tv.len() ==> (#[trigger] tv[k]).from != current@,
                },
                match first_firing(tv, current@, ol) {
                    Some(j) => 0 <= j < tv.len() && tv[j].from == current@ && cond_fires(
                        tv[j].condition,
                        ol,
                    ) && forall|k: int|
                        0 <= k < j ==> !((#[trigger] tv[k]).from == current@ && cond_fires(
                            tv[k].condition,
                            ol,
                        )),
                    None => forall|k: int|
                        0 <= k < tv.len() ==> !((#[trigger] tv[k]).from == current@ && cond_fires(
                            tv[k].condition,
                            ol,
                        )),
                },
            decreases transitions@.len() - i,
        {
            proof {
                assert(tv[i as int] == transitions@[i as int]@);
            }
            let t = &transitions[i];
            if str_eq(t.from.as_str(), current) {
                if cond_fires_exec(t.condition.as_str(), lo.as_str()) {
                    proof {
                        assert(tv[i as int].from == current@ && cond_fires(
                            tv[i as int].condition,
                            ol,
                        ));
                        assert(first_firing(tv, current@, ol) == Some(i as int));
                        assert(fsm_next(current@, tv, ol) == Some(tv[i as int].to));
                        assert(tv[i as int].to == transitions@[i as int].to@);
                    }
                    let next_to = t.to.clone();
                    proof {
                        assert(next_to@ == tv[i as int].to);
                        assert(fsm_next(current@, transitions.deep_view(), lower_of(agent_output@))
                            == Some(next_to@));
                    }
                    let res = Some(next_to);
                    proof {
                        assert(res is Some);
                        assert((res->0)@ == tv[i as int].to);
                    }
                    return res;
                }
                if ff.is_none() {
                    ff = Some(i);
                }
            }
            i += 1;
        }
        match ff {
            Some(j) => {
                proof {
                    assert(first_firing(tv, current@, ol) is None);
                    assert(first_from(tv, current@) == Some(j as int));
                }
                Some(transitions[j].to.clone())
            },
            None => {
                proof {
                    assert(first_firing(tv, current@, ol) is None);
                    assert(first_from(tv, current@) is None);
                }
                None
            },
        }
    }
}

/// `"State: <state>. Task: <task>"`.
fn fsm_input_of(state: &str, task: &str) -> (r: String)
    ensures
        r@ == fsm_input(state@, task@),
{
    let mut r = "State: ".to_owned();
    r.append(state);
    r.append(". Task: ");
    r.append(task);
    r
}

/// `"State <state> (<agent>): <out>"`.
fn fsm_label_of(state: &str, agent: &str, out: &str) -> (r: String)
    ensures
        r@ == fsm_label(state@, agent@, out@),
{
    let mut r = "State ".to_owned();
    r.append(state);
    r.append(" (");
    r.append(agent);
    r.append("): ");
    r.append(out);
    r
}

fn fsm_visited_msg_of(state: &str) -> (r: String)
    ensures
        r@ == fsm_visited_msg(state@),
{
    let mut r = "⚠️ FSM: State '".to_owned();
    r.append(state);
    r.append("' already visited, stopping loop");
    r
}

fn fsm_no_agent_msg_of(state: &str) -> (r: String)
    ensures
        r@ == fsm_no_agent_msg(state@),
{
    let mut r = "❌ FSM: No agent found for state: ".to_owned();
    r.append(state);
    r
}

fn fsm_complete_msg_of(state: &str) -> (r: String)
    ensures
        r@ == fsm_complete_msg(state@),
{
    let mut r = "✅ FSM: No more transitions from state '".to_owned();
    r.append(state);
    r.append("', workflow complete");
    r
}

/// The first node declared with this id.
fn node_index_exec(nodes: &Vec<DAGNode>, id: &str) -> (r: Option<usize>)
    ensures
        match r {
            Some(i) => node_index(nodes.deep_view(), id@) == Some(i as int) && (i as int)
                < nodes.deep_view().len(),
            None => node_index(nodes.deep_view(), id@) is None,
        },
{
    let ghost dv = nodes.deep_view();
    proof {
        lemma_node_index(dv, id@);
        assert(dv.len() == nodes@.len());
    }
    let mut i: usize = 0;
    while i < nodes.len()
        invariant
            dv == nodes.deep_view(),
            dv.len() == nodes@.len(),
            i <= nodes@.len(),
            forall|k: int| 0 <= k < i ==> (#[trigger] dv[k]).id != id@,
            match node_index(dv, id@) {
                Some(j) => 0 <= j < dv.len() && dv[j].id == id@ && forall|k: int|
                    0 <= k < j ==> (#[trigger] dv[k]).id != id@,
                None => forall|k: int| 0 <= k < dv.len() ==> (#[trigger] dv[k]).id != id@,
            },
        decreases nodes@.len() - i,
    {
        proof {
            assert(dv[i as int] == nodes@[i as int]@);
        }
        if str_eq(nodes[i].id.as_str(), id) {
            return Some(i);
        }
        i += 1;
    }
    None
}

/// Does any edge end at `id`?
fn has_incoming_exec(edges: &Vec<DAGEdge>, id: &str) -> (r: bool)
    ensures
        r == has_incoming(edges.deep_view(), id@),
{
    let ghost dv = edges.deep_view();
    proof {
        assert(dv.len() == edges@.len());
    }
    let mut j: usize = 0;
    while j < edges.len()
        invariant
            dv == edges.deep_view(),
            dv.len() == edges@.len(),
            j <= edges@.len(),
            forall|k: int| 0 <= k < j ==> (#[trigger] dv[k]).to != id@,
        decreases edges@.len() - j,
    {
        proof {
            assert(dv[j as int] == edges@[j as int]@);
        }
        if str_eq(edges[j].to.as_str(), id) {
            return true;
        }
        j += 1;
    }
    false
}

/// Every dependency of `id` is a declared node already completed.
fn all_deps_completed_exec(
    nodes: &Vec<DAGNode>,
    edges: &Vec<DAGEdge>,
    completed: &Vec<bool>,
    id: &str,
) -> (r: bool)
    requires
        completed@.len() == nodes@.len(),
    ensures
        r == all_deps_completed(nodes.deep_view(), edges.deep_view(), completed@, id@),
{
    let ghost nv = nodes.deep_view();
    let ghost ev = edges.deep_view();
    proof {
        assert(ev.len() == edges@.len());
        assert(nv.len() == nodes@.len());
    }
    let mut j: usize = 0;
    while j < edges.len()
        invariant
            nv == nodes.deep_view(),
            ev == edges.deep_view(),
            ev.len() == edges@.len(),
            nv.len() == nodes@.len(),
            completed@.len() == nodes@.len(),
            j <= edges@.len(),
            forall|k: int|
                0 <= k < j && (#[trigger] ev[k]).to == id@ ==> node_index(nv, ev[k].from) is Some
                    && completed@[node_index(nv, ev[k].from)->0],
        decreases edges@.len() - j,
    {
        proof {
            assert(ev[j as int] == edges@[j as int]@);
        }
        if str_eq(edges[j].to.as_str(), id) {
            match node_index_exec(nodes, edges[j].from.as_str()) {
                Some(i) => {
                    proof {
                        lemma_node_index(nv, ev[j as int].from);
                    }
                    if !completed[i] {
                        return false;
                    }
                },
                None => {
                    return false;
                },
            }
        }
        j += 1;
    }
    true
}

/// Is the node index already queued?
fn contains_idx(v: &Vec<usize>, x: usize) -> (r: bool)
    ensures
        r == queue_view(v@).contains(x as int),
{
    let mut k: usize = 0;
    while k < v.len()
        invariant
            k <= v@.len(),
            forall|l: int| 0 <= l < k ==> (#[trigger] v@[l]) != x,
        decreases v@.len() - k,
    {
        if v[k] == x {
            proof {
                assert(queue_view(v@)[k as int] == x as int);
            }
            return true;
        }
        k += 1;
    }
    proof {
        assert forall|l: int| 0 <= l < queue_view(v@).len() implies #[trigger] queue_view(v@)[l]
            != x as int by {
            assert(v@[l] != x);
        }
    }
    false
}

/// How many entries are still false.
fn count_false_exec(v: &Vec<bool>) -> (r: usize)
    ensures
        r as nat == count_false(v@),
{
    let mut acc: usize = 0;
    let mut i: usize = 0;
    proof {
        assert(v@.take(0) =~= Seq::<bool>::empty());
    }
    while i < v.len()
        invariant
            i <= v@.len(),
            acc <= i,
            acc as nat == count_false(v@.take(i as int)),
        decreases v@.len() - i,
    {
        proof {
            assert(v@.take(i + 1).drop_last() =~= v@.take(i as int));
            assert(v@.take(i + 1).last() == v@[i as int]);
        }
        if !v[i] {
            acc += 1;
        }
        i += 1;
    }
    proof {
        assert(v@.take(v@.len() as int) =~= v@);
    }
    acc
}

/// Scan the edges leaving `from_id` and enqueue each target whose
/// dependencies are now all completed, unless already queued or completed.
fn enqueue_ready(
    nodes: &Vec<DAGNode>,
    edges: &Vec<DAGEdge>,
    completed: &Vec<bool>,
    queue: &mut Vec<usize>,
    from_id: &str,
)
    requires
        completed@.len() == nodes@.len(),
    ensures
        queue_view(final(queue)@) == push_ready(
            nodes.deep_view(),
            edges.deep_view(),
            completed@,
            queue_view(old(queue)@),
            from_id@,
            edges.deep_view().len() as int,
        ),
{
    let ghost nv = nodes.deep_view();
    let ghost ev = edges.deep_view();
    let ghost q0 = queue_view(old(queue)@);
    proof {
        assert(ev.len() == edges@.len());
        assert(nv.len() == nodes@.len());
    }
    let mut j: usize = 0;
    while j < edges.len()
        invariant
            nv == nodes.deep_view(),
            ev == edges.deep_view(),
            ev.len() == edges@.len(),
            nv.len() == nodes@.len(),
            completed@.len() == nodes@.len(),
            j <= edges@.len(),
            queue_view(queue@) == push_ready(nv, ev, completed@, q0, from_id@, j as int),
        decreases edges@.len() - j,
    {
        proof {
            assert(ev[j as int] == edges@[j as int]@);
        }
        if str_eq(edges[j].from.as_str(), from_id) {
            match node_index_exec(nodes, edges[j].to.as_str()) {
                Some(t) => {
                    proof {
                        lemma_node_index(nv, ev[j as int].to);
                    }
                    if all_deps_completed_exec(nodes, edges, completed, edges[j].to.as_str())
                        && !contains_idx(queue, t) && !completed[t] {
                        let ghost qbefore = queue_view(queue@);
                        queue.push(t);
                        proof {
                            assert(queue_view(queue@) =~= qbefore.push(t as int));
                        }
                    }
                },
                None => {},
            }
        }
        j += 1;
    }
}

/// `"Task: <nodeTask>. Context: <ctx>. Original: <task>"`.
fn dag_input_of(node_task: &str, ctx: &str, task: &str) -> (r: String)
    ensures
        r@ == dag_input(node_task@, ctx@, task@),
{
    let mut r = "Task: ".to_owned();
    r.append(node_task);
    r.append(". Context: ");
    r.append(ctx);
    r.append(". Original: ");
    r.append(task);
    r
}

/// `"Node <id> (<agent>): <out>"`.
fn dag_label_of(id: &str, agent: &str, out: &str) -> (r: String)
    ensures
        r@ == dag_label(id@, agent@, out@),
{
    let mut r = "Node ".to_owned();
    r.append(id);
    r.append(" (");
    r.append(agent);
    r.append("): ");
    r.append(out);
    r
}

fn dag_no_agent_msg_of(agent: &str, id: &str) -> (r: String)
    ensures
        r@ == dag_no_agent_msg(agent@, id@),
{
    let mut r = "❌ DAG: Agent '".to_owned();
    r.append(agent);
    r.append("' not found for node ");
    r.append(id);
    r
}

/// The context handed to a node's agent, from its dependencies' outputs.
fn dag_context_of(
    nodes: &Vec<DAGNode>,
    edges: &Vec<DAGEdge>,
    outputs: &Vec<Option<String>>,
    id: &str,
) -> (r: String)
    requires
        outputs@.len() == nodes@.len(),
    ensures
        r@ == dag_context(nodes.deep_view(), edges.deep_view(), outputs.deep_view(), id@),
{
    let ghost nv = nodes.deep_view();
    let ghost ev = edges.deep_view();
    let ghost ov = outputs.deep_view();
    proof {
        assert(ev.len() == edges@.len());
        assert(nv.len() == nodes@.len());
        assert(ov.len() == outputs@.len());
        assert(ev.take(0) =~= Seq::<EdgeModel>::empty());
    }
    let mut parts: Vec<String> = Vec::new();
    let mut has_dep = false;
    proof {
        assert(parts.deep_view() =~= Seq::<Seq<char>>::empty());
    }
    let mut j: usize = 0;
    while j < edges.len()
        invariant
            nv == nodes.deep_view(),
            ev == edges.deep_view(),
            ov == outputs.deep_view(),
            ev.len() == edges@.len(),
            nv.len() == nodes@.len(),
            ov.len() == outputs@.len(),
            outputs@.len() == nodes@.len(),
            j <= edges@.len(),
            has_dep == (deps_of(ev.take(j as int), id@).len() > 0),
            parts.deep_view() == context_parts(nv, ev, ov, deps_of(ev.take(j as int), id@)),
        decreases edges@.len() - j,
    {
        let ghost depsj = deps_of(ev.take(j as int), id@);
        proof {
            assert(ev[j as int] == edges@[j as int]@);
            assert(ev.take(j + 1).drop_last() =~= ev.take(j as int));
            assert(ev.take(j + 1).last() == ev[j as int]);
        }
        if str_eq(edges[j].to.as_str(), id) {
            proof {
                assert(deps_of(ev.take(j + 1), id@) == depsj.push(j as int));
                assert(depsj.push(j as int).drop_last() =~= depsj);
            }
            match node_index_exec(nodes, edges[j].from.as_str()) {
                Some(i) => {
                    proof {
                        lemma_node_index(nv, ev[j as int].from);
                        assert(ov[i as int] == opt_output_view(outputs@[i as int]));
                    }
                    match &outputs[i] {
                        Some(o) => {
                            let part = label_of(edges[j].from.as_str(), o.as_str());
                            let ghost partv = part@;
                            let ghost pbefore = parts.deep_view();
                            parts.push(part);
                            proof {
                                assert(parts.deep_view() =~= pbefore.push(partv));
                            }
                        },
                        None => {},
                    }
                },
                None => {},
            }
            has_dep = true;
        } else {
            proof {
                assert(deps_of(ev.take(j + 1), id@) == depsj);
            }
        }
        j += 1;
    }
    proof {
        assert(ev.take(ev.len() as int) =~= ev);
    }
    if !has_dep {
        "No dependencies".to_owned()
    } else {
        join_with(&parts, " | ")
    }
}

/// The deep view of one recorded output.
pub open spec fn opt_output_view(o: Option<String>) -> Option<Seq<char>> {
    match o {
        Some(s) => Some(s@),
        None => None,
    }
}

/// `"Step <i> (<agent>): <out>"`, the chain-of-thought trace entry.
fn chain_label_of(i: usize, agent: &str, out: &str) -> (r: String)
    ensures
        r@ == chain_label(i as int, agent@, out@),
{
    let mut r = "Step ".to_owned();
    let n = fmt_u64(i as u64);
    r.append(n.as_str());
    r.append(" (");
    r.append(agent);
    r.append("): ");
    r.append(out);
    r
}

// ---------------------------------------------------------------------------
// The dispatcher
// ---------------------------------------------------------------------------

/// Dispatches one task to a team under the team's topology.
pub struct TeamDispatcher {
    team: Team,
}

impl View for TeamDispatcher {
    type V = TeamModel;

    closed spec fn view(&self) -> TeamModel {
        self.team@
    }
}

impl TeamDispatcher {
    /// A dispatcher for this team.
    pub fn new(team: Team) -> (r: TeamDispatcher)
        ensures
            r@ == team@,
    {
        TeamDispatcher { team }
    }

    /// Begin one run of the team on the given task.
    pub fn start(&self, task: &str) -> (r: DispatchRun)
        requires
            start_ok(self@),
        ensures
            r@ == start_spec(self@, task@),
            r.wf(),
            r.spec_workflow_id().len() == 36,
            r.spec_current_step() == 0,
            r.spec_current_agent() is None,
    {
        let ghost teamv = self.team@;
        let mut pool: Vec<String> = Vec::new();
        let mut i: usize = 0;
        while i < self.team.agents.len()
            invariant
                teamv == self.team@,
                i <= self.team.agents@.len(),
                pool@.len() == i,
                forall|k: int| 0 <= k < i ==> (#[trigger] pool@[k])@ == pool_of(teamv)[k],
                teamv.agents.len() == self.team.agents@.len(),
            decreases self.team.agents@.len() - i,
        {
            proof {
                assert(teamv.agents[i as int] == self.team.agents@[i as int]@);
                assert(pool_of(teamv)[i as int] == teamv.agents[i as int].name);
            }
            let nm = self.team.agents[i].name.clone();
            pool.push(nm);
            i += 1;
        }
        proof {
            assert(pool.deep_view() =~= pool_of(teamv));
        }
        let state = WorkflowState::new(fresh_run_id());
        let now = now_unix_secs();
        let task_s = task.to_owned();
        match &self.team.workflow {
            TeamWorkflow::RoundRobin | TeamWorkflow::Parallel => {
                sequence_run(pool, task_s, state, now, false)
            },
            TeamWorkflow::ChainOfThought => sequence_run(pool, task_s, state, now, true),
            TeamWorkflow::FSM { states, transitions, initial_state } => {
                let (st, tr, init) = match &self.team.fsm {
                    Some(c) => (
                        dup_vec(&c.states),
                        dup_vec(&c.transitions),
                        c.initial_state.clone(),
                    ),
                    None => (dup_vec(states), dup_vec(transitions), initial_state.clone()),
                };
                let visited0: Vec<String> = Vec::new();
                proof {
                    assert(visited0.deep_view() =~= Seq::<Seq<char>>::empty());
                }
                let mut r = DispatchRun {
                    pool,
                    task: task_s,
                    trace: Vec::new(),
                    state,
                    strategy: Strategy::Fsm {
                        states: st,
                        transitions: tr,
                        current: init,
                        visited: visited0,
                        iteration: 0,
                    },
                    pending: Action::Finished { result: String::new() },
                    pending_since: now,
                };
                proof {
                    assert(r.trace.deep_view() =~= Seq::<Seq<char>>::empty());
                    assert(steps_of(r.state@.step_results) =~= Seq::<StepModel>::empty());
                    assert(Seq::<Seq<char>>::empty().no_duplicates());
                    assert(fsm_pre(r@));
                }
                r.fsm_enter();
                proof {
                    assert(r@ =~~= start_spec(teamv, task@));
                }
                r
            },
            TeamWorkflow::DAG { nodes, edges } => {
                let (nd, ed) = match &self.team.dag {
                    Some(c) => (dup_vec(&c.nodes), dup_vec(&c.edges)),
                    None => (dup_vec(nodes), dup_vec(edges)),
                };
                let ghost nv = nd.deep_view();
                let ghost ev = ed.deep_view();
                let n = nd.len();
                let mut queue: Vec<usize> = Vec::new();
                let mut completed: Vec<bool> = Vec::new();
                let mut outputs: Vec<Option<String>> = Vec::new();
                proof {
                    assert(nv.len() == nd@.len());
                    assert(queue_view(queue@) =~= ready_init(nv.take(0), ev));
                    assert(completed@ =~= Seq::new(0, |i: int| false));
                    assert(outputs.deep_view() =~= Seq::new(0, |i: int| None::<Seq<char>>));
                }
                let mut i: usize = 0;
                while i < n
                    invariant
                        nv == nd.deep_view(),
                        ev == ed.deep_view(),
                        nv.len() == nd@.len(),
                        n == nd@.len(),
                        i <= n,
                        queue_view(queue@) == ready_init(nv.take(i as int), ev),
                        completed@ == Seq::new(i as nat, |k: int| false),
                        outputs.deep_view() == Seq::new(i as nat, |k: int| None::<Seq<char>>),
                    decreases n - i,
                {
                    proof {
                        assert(nv[i as int] == nd@[i as int]@);
                        assert(nv.take(i + 1).drop_last() =~= nv.take(i as int));
                        assert(nv.take(i + 1).last() == nv[i as int]);
                    }
                    if !has_incoming_exec(&ed, nd[i].id.as_str()) {
                        let ghost qbefore = queue_view(queue@);
                        queue.push(i);
                        proof {
                            assert(queue_view(queue@) =~= qbefore.push(i as int));
                        }
                    }
                    let ghost obefore = outputs.deep_view();
                    completed.push(false);
                    outputs.push(None);
                    proof {
                        assert(completed@ =~= Seq::new((i + 1) as nat, |k: int| false));
                        assert(outputs.deep_view() =~= obefore.push(None::<Seq<char>>));
                        assert(outputs.deep_view() =~= Seq::new(
                            (i + 1) as nat,
                            |k: int| None::<Seq<char>>,
                        ));
                    }
                    i += 1;
                }
                proof {
                    assert(nv.take(nv.len() as int) =~= nv);
                }
                let mut r = DispatchRun {
                    pool,
                    task: task_s,
                    trace: Vec::new(),
                    state,
                    strategy: Strategy::Dag {
                        nodes: nd,
                        edges: ed,
                        queue,
                        completed,
                        outputs,
                        active: 0,
                    },
                    pending: Action::Finished { result: String::new() },
                    pending_since: now,
                };
                proof {
                    assert(r.trace.deep_view() =~= Seq::<Seq<char>>::empty());
                    assert(steps_of(r.state@.step_results) =~= Seq::<StepModel>::empty());
                    lemma_ready_init(nv, ev);
                    assert(dag_pre(r@));
                }
                r.dag_advance();
                proof {
                    assert(r@ =~~= start_spec(teamv, task@));
                }
                r
            },
        }
    }
}

// ---------------------------------------------------------------------------
// Replay: a whole run as a function of the outputs provided
// ---------------------------------------------------------------------------

/// Drive a machine by handing it outputs in order, until it finishes or
/// the script runs out.
pub open spec fn replay(m: RunModel, outs: Seq<Seq<char>>) -> RunModel
    decreases outs.len(),
{
    if m.pending is Finished {
        m
    } else if outs.len() == 0 {
        m
    } else {
        replay(provide_spec(m, outs[0]), outs.drop_first())
    }
}

/// What a whole scripted run returns: the trace and terminal result once
/// the replay finishes, nothing when the script is too short.
pub open spec fn execute_spec(team: TeamModel, task: Seq<char>, outs: Seq<Seq<char>>) -> Option<
    (Seq<Seq<char>>, Seq<char>),
> {
    let m = replay(start_spec(team, task), outs);
    match m.pending {
        ActionModel::Finished { result } => Some((m.trace, result)),
        ActionModel::Invoke { .. } => None,
    }
}

/// A well-formed machine stays well-formed under replay.
pub proof fn lemma_replay_wf(m: RunModel, outs: Seq<Seq<char>>)
    requires
        wf_model(m),
    ensures
        wf_model(replay(m, outs)),
    decreases outs.len(),
{
    if !(m.pending is Finished) && outs.len() > 0 {
        lemma_wf_preserved(m, outs[0]);
        lemma_replay_wf(provide_spec(m, outs[0]), outs.drop_first());
    }
}

/// Advancing a graph run changes neither the pool, the task, nor the
/// strategy kind.
proof fn lemma_dag_advance_frame(m: RunModel)
    ensures
        dag_advance_spec(m).pool == m.pool,
        dag_advance_spec(m).task == m.task,
        m.strategy is Dag ==> dag_advance_spec(m).strategy is Dag,
    decreases dag_uncompleted(m), dag_queue_len(m),
{
    match m.strategy {
        StrategyModel::Dag { nodes, edges, queue, completed, outputs, active } => {
            if queue.len() > 0 {
                let c = queue[0];
                let queue2 = queue.drop_first();
                if !(0 <= c < nodes.len() && c < completed.len() && !completed[c]) {
                    lemma_dag_advance_frame(
                        RunModel {
                            strategy: StrategyModel::Dag {
                                nodes,
                                edges,
                                queue: queue2,
                                completed,
                                outputs,
                                active,
                            },
                            ..m
                        },
                    );
                } else {
                    match seq_index_of(m.pool, nodes[c].agent) {
                        Some(i) => {},
                        None => {
                            lemma_count_false_update(completed, c);
                            let completed2 = completed.update(c, true);
                            lemma_dag_advance_frame(
                                RunModel {
                                    trace: m.trace.push(dag_no_agent_msg(nodes[c].agent, nodes[c].id)),
                                    strategy: StrategyModel::Dag {
                                        nodes,
                                        edges,
                                        queue: push_ready(
                                            nodes,
                                            edges,
                                            completed2,
                                            queue2,
                                            nodes[c].id,
                                            edges.len() as int,
                                        ),
                                        completed: completed2,
                                        outputs,
                                        active,
                                    },
                                    ..m
                                },
                            );
                        },
                    }
                }
            }
        },
        _ => {},
    }
}

/// One provided output changes neither the pool, the task, nor the
/// strategy kind.
proof fn lemma_provide_frame(m: RunModel, out: Seq<char>)
    ensures
        provide_spec(m, out).pool == m.pool,
        provide_spec(m, out).task == m.task,
        (m.strategy is Independent ==> provide_spec(m, out).strategy is Independent),
        (m.strategy is Chain ==> provide_spec(m, out).strategy is Chain),
        (m.strategy is Fsm ==> provide_spec(m, out).strategy is Fsm),
        (m.strategy is Dag ==> provide_spec(m, out).strategy is Dag),
{
    match m.pending {
        ActionModel::Finished { .. } => {},
        ActionModel::Invoke { agent, input } => {
            match m.strategy {
                StrategyModel::Dag { nodes, edges, queue, completed, outputs, active } => {
                    let steps2 = m.steps.push(
                        StepModel { agent: agent, input: input, output: out },
                    );
                    let completed2 = completed.update(active, true);
                    lemma_dag_advance_frame(
                        RunModel {
                            trace: m.trace.push(dag_label(nodes[active].id, agent, out)),
                            steps: steps2,
                            strategy: StrategyModel::Dag {
                                nodes,
                                edges,
                                queue: push_ready(
                                    nodes,
                                    edges,
                                    completed2,
                                    queue,
                                    nodes[active].id,
                                    edges.len() as int,
                                ),
                                completed: completed2,
                                outputs: outputs.update(active, Some(out)),
                                active,
                            },
                            ..m
                        },
                    );
                },
                _ => {},
            }
        },
    }
}

/// Replaying outputs changes neither the pool, the task, nor the strategy
/// kind.
pub proof fn lemma_replay_frame(m: RunModel, outs: Seq<Seq<char>>)
    ensures
        replay(m, outs).pool == m.pool,
        replay(m, outs).task == m.task,
        (m.strategy is Independent ==> replay(m, outs).strategy is Independent),
        (m.strategy is Chain ==> replay(m, outs).strategy is Chain),
        (m.strategy is Fsm ==> replay(m, outs).strategy is Fsm),
        (m.strategy is Dag ==> replay(m, outs).strategy is Dag),
    decreases outs.len(),
{
    if !(m.pending is Finished) && outs.len() > 0 {
        lemma_provide_frame(m, outs[0]);
        lemma_replay_frame(provide_spec(m, outs[0]), outs.drop_first());
    }
}

/// The machine a run begins in carries the team's pool and task, under
/// the strategy its resolved topology names.
pub proof fn lemma_start_strategy(team: TeamModel, task: Seq<char>)
    ensures
        start_spec(team, task).pool == pool_of(team),
        start_spec(team, task).task == task,
        (resolve_workflow(team) is RoundRobin || resolve_workflow(team) is Parallel) ==> start_spec(
            team,
            task,
        ).strategy is Independent,
        resolve_workflow(team) is ChainOfThought ==> start_spec(team, task).strategy is Chain,
        resolve_workflow(team) is Fsm ==> start_spec(team, task).strategy is Fsm,
        resolve_workflow(team) is Dag ==> start_spec(team, task).strategy is Dag,
{
    match resolve_workflow(team) {
        WorkflowModel::Dag { nodes, edges } => {
            lemma_dag_advance_frame(
                RunModel {
                    pool: pool_of(team),
                    task: task,
                    trace: Seq::empty(),
                    steps: Seq::empty(),
                    strategy: StrategyModel::Dag {
                        nodes: nodes,
                        edges: edges,
                        queue: ready_init(nodes, edges),
                        completed: Seq::new(nodes.len(), |i: int| false),
                        outputs: Seq::new(nodes.len(), |i: int| None),
                        active: 0,
                    },
                    pending: ActionModel::Finished { result: Seq::empty() },
                },
            );
        },
        _ => {},
    }
}

/// The machine a run begins in is well formed.
pub proof fn lemma_start_wf(team: TeamModel, task: Seq<char>)
    requires
        start_ok(team),
    ensures
        wf_model(start_spec(team, task)),
{
    let pool = pool_of(team);
    match resolve_workflow(team) {
        WorkflowModel::RoundRobin => {},
        WorkflowModel::Parallel => {},
        WorkflowModel::ChainOfThought => {},
        WorkflowModel::Fsm { states, transitions, initial_state } => {
            let base = RunModel {
                pool: pool,
                task: task,
                trace: Seq::empty(),
                steps: Seq::empty(),
                strategy: StrategyModel::Fsm {
                    states: states,
                    transitions: transitions,
                    current: initial_state,
                    visited: Seq::empty(),
                    iteration: 0,
                },
                pending: ActionModel::Finished { result: Seq::empty() },
            };
            assert(Seq::<Seq<char>>::empty().no_duplicates());
            assert(fsm_pre(base));
            lemma_fsm_enter_wf(base);
        },
        WorkflowModel::Dag { nodes, edges } => {
            let base = RunModel {
                pool: pool,
                task: task,
                trace: Seq::empty(),
                steps: Seq::empty(),
                strategy: StrategyModel::Dag {
                    nodes: nodes,
                    edges: edges,
                    queue: ready_init(nodes, edges),
                    completed: Seq::new(nodes.len(), |i: int| false),
                    outputs: Seq::new(nodes.len(), |i: int| None),
                    active: 0,
                },
                pending: ActionModel::Finished { result: Seq::empty() },
            };
            lemma_ready_init(nodes, edges);
            assert(dag_pre(base));
            lemma_dag_advance_wf(base);
        },
    }
}

impl TeamDispatcher {
    /// Execute the task to completion against a scripted sequence of agent
    /// outputs: entry `k` of the script answers the `k`-th invocation the
    /// machine asks for. Returns the trace and the terminal result, or
    /// nothing when the script runs out before the run completes.
    pub fn execute(&self, task: &str, outputs: Vec<String>) -> (r: Option<(Vec<String>, String)>)
        requires
            start_ok(self@),
        ensures
            r is Some ==> execute_spec(self@, task@, outputs.deep_view()) == Some(
                (((r->0).0).deep_view(), ((r->0).1)@),
            ),
            r is None ==> execute_spec(self@, task@, outputs.deep_view()) is None,
    {
        let ghost outs = outputs.deep_view();
        let ghost target = replay(start_spec(self@, task@), outs);
        proof {
            assert(outs.len() == outputs@.len());
        }
        let mut run = self.start(task);
        proof {
            assert(outs.skip(0) =~= outs);
        }
        let mut i: usize = 0;
        while i < outputs.len()
            invariant
                run.wf(),
                outs == outputs.deep_view(),
                outs.len() == outputs@.len(),
                i <= outputs@.len(),
                target == replay(start_spec(self@, task@), outs),
                replay(run@, outs.skip(i as int)) == target,
            decreases outputs@.len() - i,
        {
            proof {
                assert(outs.skip(i as int).len() > 0);
                assert(outs.skip(i as int)[0] == outs[i as int]);
                assert(outs.skip(i as int).drop_first() =~= outs.skip(i + 1));
                assert(outs[i as int] == outputs@[i as int]@);
            }
            if !run.is_finished() {
                run.provide_output(outputs[i].clone());
            } else {
                proof {
                    assert(replay(run@, outs.skip(i + 1)) == run@);
                }
            }
            i += 1;
        }
        proof {
            assert(outs.skip(outs.len() as int) =~= Seq::<Seq<char>>::empty());
            assert(replay(run@, outs.skip(i as int)) == run@);
            assert(run@ == target);
        }
        if run.is_finished() {
            let DispatchRun { trace, pending, .. } = run;
            match pending {
                Action::Finished { result } => Some((trace, result)),
                Action::Invoke { .. } => {
                    proof {
                        assert(false);
                    }
                    None
                },
            }
        } else {
            None
        }
    }
}

/// Assemble the starting machine for the pool-walking strategies.
fn sequence_run(
    pool: Vec<String>,
    task: String,
    state: WorkflowState,
    now: u64,
    chain: bool,
) -> (r: DispatchRun)
    requires
        state@.step_results.len() == 0,
    ensures
        r@ == sequence_start(pool.deep_view(), task@, chain),
        r.wf(),
        r.state == state,
{
    let pending = if pool.len() == 0 {
        Action::Finished { result: String::new() }
    } else {
        Action::Invoke { agent: pool[0].clone(), input: task.clone() }
    };
    let strategy = if chain {
        Strategy::Chain { idx: 0 }
    } else {
        Strategy::Independent { idx: 0 }
    };
    let r = DispatchRun { pool, task, trace: Vec::new(), state, strategy, pending, pending_since: now };
    proof {
        assert(r.trace.deep_view() =~= Seq::<Seq<char>>::empty());
        assert(steps_of(r.state@.step_results) =~= Seq::<StepModel>::empty());
        assert(r@ =~~= sequence_start(r.pool.deep_view(), r.task@, chain));
    }
    r
}

} // verus!
