//! The laws every run of the dispatch engine satisfies, stated over the
//! spec-level run machine: what [`crate::team::dispatcher::start_spec`]
//! begins and [`crate::team::dispatcher::replay`] drives.

use vstd::prelude::*;
use crate::team::TeamModel;
use crate::team::dispatcher::{
    all_deps_completed, execute_spec, fsm_input, lemma_node_index, lemma_replay_frame,
    lemma_replay_wf, lemma_start_strategy, lemma_start_wf, node_index, pool_of, push_ready,
    replay, resolve_workflow, start_ok, start_spec,
};
use crate::team::{EdgeModel, NodeModel};

verus! {

/// Round-robin and parallel fan-out: a completed run invokes every agent
/// of the pool exactly once, in declared order, each receiving the
/// unmodified task.
pub proof fn lemma_independent_invocations(team: TeamModel, task: Seq<char>, outs: Seq<Seq<char>>)
    requires
        start_ok(team),
        resolve_workflow(team) is RoundRobin || resolve_workflow(team) is Parallel,
    ensures
        ({
            let fin = replay(start_spec(team, task), outs);
            fin.pending is Finished ==> {
                &&& fin.steps.len() == pool_of(team).len()
                &&& fin.trace.len() == pool_of(team).len()
                &&& (forall|k: int|
                    0 <= k < fin.steps.len() ==> (#[trigger] fin.steps[k]).input == task
                        && fin.steps[k].agent == pool_of(team)[k])
            }
        }),
{
    let m0 = start_spec(team, task);
    lemma_start_wf(team, task);
    lemma_replay_wf(m0, outs);
    lemma_replay_frame(m0, outs);
}

/// Chain of thought: a completed run hands agent `k` the output of agent
/// `k - 1` (the task for the first agent), and the terminal result is the
/// last agent's output.
pub proof fn lemma_chain_of_thought(team: TeamModel, task: Seq<char>, outs: Seq<Seq<char>>)
    requires
        start_ok(team),
        resolve_workflow(team) is ChainOfThought,
    ensures
        ({
            let fin = replay(start_spec(team, task), outs);
            fin.pending is Finished ==> {
                &&& fin.steps.len() == pool_of(team).len()
                &&& (forall|k: int|
                    0 <= k < fin.steps.len() ==> (#[trigger] fin.steps[k]).agent == pool_of(
                        team,
                    )[k])
                &&& (forall|k: int|
                    0 <= k < fin.steps.len() ==> (#[trigger] fin.steps[k]).input == if k == 0 {
                        task
                    } else {
                        fin.steps[k - 1].output
                    })
                &&& fin.pending->result == if fin.steps.len() == 0 {
                    Seq::<char>::empty()
                } else {
                    fin.steps.last().output
                }
            }
        }),
{
    let m0 = start_spec(team, task);
    lemma_start_wf(team, task);
    lemma_replay_wf(m0, outs);
    lemma_replay_frame(m0, outs);
    let fin = replay(m0, outs);
    if fin.pending is Finished && fin.steps.len() > 0 {
        assert(fin.steps.last() == fin.steps[fin.steps.len() - 1]);
    }
}

/// Loop protection: a state-machine walk never serves a state twice — the
/// visited states are pairwise distinct, and recorded step `k` carries the
/// input built from visited state `k`.
pub proof fn lemma_fsm_no_revisit(team: TeamModel, task: Seq<char>, outs: Seq<Seq<char>>)
    requires
        start_ok(team),
        resolve_workflow(team) is Fsm,
    ensures
        ({
            let fin = replay(start_spec(team, task), outs);
            {
                &&& fin.strategy is Fsm
                &&& fin.strategy->visited.no_duplicates()
                &&& fin.steps.len() <= fin.strategy->visited.len()
                &&& (forall|k: int|
                    0 <= k < fin.steps.len() ==> (#[trigger] fin.steps[k]).input == fsm_input(
                        fin.strategy->visited[k],
                        task,
                    ))
            }
        }),
{
    let m0 = start_spec(team, task);
    lemma_start_wf(team, task);
    lemma_replay_wf(m0, outs);
    lemma_replay_frame(m0, outs);
}

/// Loop protection, quantified: a state-machine walk records at most one
/// step per declared state — it can never loop indefinitely.
pub proof fn lemma_fsm_bounded_work(team: TeamModel, task: Seq<char>, outs: Seq<Seq<char>>)
    requires
        start_ok(team),
        resolve_workflow(team) is Fsm,
    ensures
        ({
            let fin = replay(start_spec(team, task), outs);
            fin.strategy is Fsm && fin.steps.len() <= fin.strategy->states.len()
        }),
{
    broadcast use vstd::seq_lib::seq_to_set_is_finite;

    let m0 = start_spec(team, task);
    lemma_start_wf(team, task);
    lemma_replay_wf(m0, outs);
    lemma_replay_frame(m0, outs);
    let fin = replay(m0, outs);
    let states = fin.strategy->states;
    let visited = fin.strategy->visited;
    visited.unique_seq_to_set();
    assert(visited.to_set().subset_of(states.to_set())) by {
        assert forall|x: Seq<char>| visited.to_set().contains(x) implies states.to_set().contains(
            x,
        ) by {
            let k = choose|k: int| 0 <= k < visited.len() && visited[k] == x;
            assert(states.contains(visited[k]));
        }
    }
    vstd::set_lib::lemma_len_subset(visited.to_set(), states.to_set());
    states.lemma_cardinality_of_set();
}

/// Dependency ordering: whenever a graph run asks for an invocation, every
/// edge into the node about to run has its origin already completed — a
/// node never runs before its dependencies.
pub proof fn lemma_dag_dependency_order(team: TeamModel, task: Seq<char>, outs: Seq<Seq<char>>)
    requires
        start_ok(team),
        resolve_workflow(team) is Dag,
    ensures
        ({
            let fin = replay(start_spec(team, task), outs);
            fin.pending is Invoke ==> fin.strategy is Dag && all_deps_completed(
                fin.strategy->nodes,
                fin.strategy->edges,
                fin.strategy->completed,
                fin.strategy->nodes[fin.strategy->active].id,
            )
        }),
{
    let m0 = start_spec(team, task);
    lemma_start_wf(team, task);
    lemma_start_strategy(team, task);
    lemma_replay_wf(m0, outs);
    lemma_replay_frame(m0, outs);
}

/// Idempotence: the whole outcome of a run — trace, step records, terminal
/// result — is a function of the topology, the pool, the task and the
/// sequence of agent outputs. Re-running with the same script yields the
/// identical outcome.
pub proof fn lemma_execute_idempotent(
    team: TeamModel,
    task: Seq<char>,
    outs1: Seq<Seq<char>>,
    outs2: Seq<Seq<char>>,
)
    requires
        outs1 == outs2,
    ensures
        execute_spec(team, task, outs1) == execute_spec(team, task, outs2),
        replay(start_spec(team, task), outs1) == replay(start_spec(team, task), outs2),
{
}

/// Shape stability for the pool-walking topologies: however the outputs
/// differ between two completed runs, both make exactly one invocation per
/// pool member.
pub proof fn lemma_independent_shape(
    team: TeamModel,
    task: Seq<char>,
    outs1: Seq<Seq<char>>,
    outs2: Seq<Seq<char>>,
)
    requires
        start_ok(team),
        resolve_workflow(team) is RoundRobin || resolve_workflow(team) is Parallel
            || resolve_workflow(team) is ChainOfThought,
        replay(start_spec(team, task), outs1).pending is Finished,
        replay(start_spec(team, task), outs2).pending is Finished,
    ensures
        replay(start_spec(team, task), outs1).steps.len() == replay(
            start_spec(team, task),
            outs2,
        ).steps.len(),
{
    if resolve_workflow(team) is ChainOfThought {
        lemma_chain_of_thought(team, task, outs1);
        lemma_chain_of_thought(team, task, outs2);
    } else {
        lemma_independent_invocations(team, task, outs1);
        lemma_independent_invocations(team, task, outs2);
    }
}

proof fn lemma_push_ready_monotone(
    nodes: Seq<NodeModel>,
    edges: Seq<EdgeModel>,
    completed: Seq<bool>,
    queue: Seq<int>,
    from_id: Seq<char>,
    k: int,
    t: int,
)
    requires
        queue.contains(t),
    ensures
        push_ready(nodes, edges, completed, queue, from_id, k).contains(t),
    decreases k,
{
    if k > 0 {
        lemma_push_ready_monotone(nodes, edges, completed, queue, from_id, k - 1, t);
        let q = push_ready(nodes, edges, completed, queue, from_id, k - 1);
        let w = choose|w: int| 0 <= w < q.len() && q[w] == t;
        assert forall|x: int| #[trigger] q.push(x).contains(t) by {
            assert(q.push(x)[w] == t);
        }
    }
}

proof fn lemma_push_ready_enqueues(
    nodes: Seq<NodeModel>,
    edges: Seq<EdgeModel>,
    completed: Seq<bool>,
    queue: Seq<int>,
    from_id: Seq<char>,
    k: int,
    j: int,
)
    requires
        0 <= j < k <= edges.len(),
        edges[j].from == from_id,
        node_index(nodes, edges[j].to) is Some,
        all_deps_completed(nodes, edges, completed, edges[j].to),
        0 <= node_index(nodes, edges[j].to)->0 < completed.len(),
        !completed[node_index(nodes, edges[j].to)->0],
    ensures
        push_ready(nodes, edges, completed, queue, from_id, k).contains(
            node_index(nodes, edges[j].to)->0,
        ),
    decreases k,
{
    let t = node_index(nodes, edges[j].to)->0;
    if k - 1 == j {
        let q = push_ready(nodes, edges, completed, queue, from_id, k - 1);
        if q.contains(t) {
            assert(push_ready(nodes, edges, completed, queue, from_id, k) == q);
        } else {
            let q2 = q.push(t);
            assert(q2[q.len() as int] == t);
            assert(q2.contains(t));
        }
    } else {
        lemma_push_ready_enqueues(nodes, edges, completed, queue, from_id, k - 1, j);
        let q = push_ready(nodes, edges, completed, queue, from_id, k - 1);
        let w = choose|w: int| 0 <= w < q.len() && q[w] == t;
        assert forall|x: int| #[trigger] q.push(x).contains(t) by {
            assert(q.push(x)[w] == t);
        }
    }
}

/// Fail-soft scheduling: when the node at the head of the ready queue names
/// an agent absent from the pool, the node is still marked completed, and a
/// successor whose dependencies are thereby all completed ends up completed
/// or queued — downstream work is never stranded by the missing agent. The
/// completed set and queue spoken of here are exactly the updates
/// [`crate::team::dispatcher::dag_advance_spec`] makes on its missing-agent
/// branch.
pub proof fn lemma_dag_missing_agent(
    nodes: Seq<NodeModel>,
    edges: Seq<EdgeModel>,
    completed: Seq<bool>,
    queue: Seq<int>,
    j: int,
)
    requires
        completed.len() == nodes.len(),
        queue.len() > 0,
        0 <= queue[0] < nodes.len(),
        !completed[queue[0]],
        0 <= j < edges.len(),
        edges[j].from == nodes[queue[0]].id,
        node_index(nodes, edges[j].to) is Some,
        all_deps_completed(nodes, edges, completed.update(queue[0], true), edges[j].to),
    ensures
        ({
            let c = queue[0];
            let completed2 = completed.update(c, true);
            let queue3 = push_ready(
                nodes,
                edges,
                completed2,
                queue.drop_first(),
                nodes[c].id,
                edges.len() as int,
            );
            let t = node_index(nodes, edges[j].to)->0;
            &&& completed2[c]
            &&& (completed2[t] || queue3.contains(t))
        }),
{
    let c = queue[0];
    let completed2 = completed.update(c, true);
    let t = node_index(nodes, edges[j].to)->0;
    lemma_node_index(nodes, edges[j].to);
    if !completed2[t] {
        lemma_push_ready_enqueues(
            nodes,
            edges,
            completed2,
            queue.drop_first(),
            nodes[c].id,
            edges.len() as int,
            j,
        );
    }
}

} // verus!
