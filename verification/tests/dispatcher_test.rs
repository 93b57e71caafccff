use helixor::team::dispatcher::{Action, TeamDispatcher};
use helixor::team::{DAGEdge, DAGNode, StateTransition, Team, TeamAgent, TeamWorkflow};

fn member(name: &str) -> TeamAgent {
    TeamAgent {
        name: name.to_string(),
        role: "member".to_string(),
        instructions: "work".to_string(),
        tools: vec![],
        model: "test".to_string(),
    }
}

fn team_of(names: &[&str], workflow: TeamWorkflow) -> Team {
    let mut team = Team::new("crew".to_string());
    for n in names {
        team.add_agent(member(n));
    }
    team.set_workflow(workflow);
    team
}

#[test]
fn round_robin_invokes_every_agent_once_with_the_task() {
    let d = TeamDispatcher::new(team_of(&["alpha", "beta"], TeamWorkflow::RoundRobin));
    let mut run = d.start("solve it");
    // every invocation carries the unmodified task, in declared order
    match run.next_action() {
        Action::Invoke { agent, input } => {
            assert_eq!(agent, "alpha");
            assert_eq!(input, "solve it");
        }
        Action::Finished { .. } => panic!("expected an invocation"),
    }
    run.provide_output("one".to_string());
    match run.next_action() {
        Action::Invoke { agent, input } => {
            assert_eq!(agent, "beta");
            assert_eq!(input, "solve it");
        }
        Action::Finished { .. } => panic!("expected a second invocation"),
    }
    run.provide_output("two".to_string());
    match run.next_action() {
        Action::Finished { result } => {
            assert_eq!(result, "alpha: one\n\nbeta: two");
        }
        Action::Invoke { .. } => panic!("expected completion after two invocations"),
    }
    assert_eq!(run.trace().len(), 2);
    assert_eq!(run.trace()[0], "alpha: one");
    assert_eq!(run.trace()[1], "beta: two");
    assert!(run.status().is_complete);
}

#[test]
fn parallel_matches_round_robin_data_semantics() {
    let d = TeamDispatcher::new(team_of(&["p", "q"], TeamWorkflow::Parallel));
    let out = d.execute("t", vec!["x".to_string(), "y".to_string()]);
    let (trace, result) = out.expect("two outputs complete the run");
    assert_eq!(trace, vec!["p: x".to_string(), "q: y".to_string()]);
    assert_eq!(result, "p: x\n\nq: y");
}

#[test]
fn chain_of_thought_feeds_each_output_forward() {
    let d = TeamDispatcher::new(team_of(&["first", "second"], TeamWorkflow::ChainOfThought));
    let mut run = d.start("the task");
    match run.next_action() {
        Action::Invoke { agent, input } => {
            assert_eq!(agent, "first");
            assert_eq!(input, "the task");
        }
        Action::Finished { .. } => panic!("expected an invocation"),
    }
    run.provide_output("draft".to_string());
    match run.next_action() {
        Action::Invoke { agent, input } => {
            assert_eq!(agent, "second");
            assert_eq!(input, "draft");
        }
        Action::Finished { .. } => panic!("expected a second invocation"),
    }
    run.provide_output("final answer".to_string());
    match run.next_action() {
        Action::Finished { result } => assert_eq!(result, "final answer"),
        Action::Invoke { .. } => panic!("expected completion"),
    }
    assert_eq!(run.trace()[0], "Step 1 (first): draft");
    assert_eq!(run.trace()[1], "Step 2 (second): final answer");
}

#[test]
fn fsm_walks_a_to_b_then_reports_no_more_transitions() {
    let workflow = TeamWorkflow::FSM {
        states: vec!["A".to_string(), "B".to_string()],
        transitions: vec![StateTransition {
            from: "A".to_string(),
            to: "B".to_string(),
            condition: "issue_received".to_string(),
        }],
        initial_state: "A".to_string(),
    };
    let d = TeamDispatcher::new(team_of(&["A", "B"], workflow));
    let mut run = d.start("ticket");
    match run.next_action() {
        Action::Invoke { agent, input } => {
            assert_eq!(agent, "A");
            assert_eq!(input, "State: A. Task: ticket");
        }
        Action::Finished { .. } => panic!("expected state A to be served"),
    }
    run.provide_output("looked at it".to_string());
    match run.next_action() {
        Action::Invoke { agent, input } => {
            assert_eq!(agent, "B");
            assert_eq!(input, "State: B. Task: ticket");
        }
        Action::Finished { .. } => panic!("expected state B to be served"),
    }
    run.provide_output("done".to_string());
    match run.next_action() {
        Action::Finished { .. } => {}
        Action::Invoke { .. } => panic!("expected the walk to halt at B"),
    }
    assert_eq!(run.trace().len(), 3);
    assert_eq!(run.trace()[0], "State A (A): looked at it");
    assert_eq!(run.trace()[1], "State B (B): done");
    assert_eq!(
        run.trace()[2],
        "✅ FSM: No more transitions from state 'B', workflow complete"
    );
}

#[test]
fn fsm_halts_after_one_revisit() {
    let workflow = TeamWorkflow::FSM {
        states: vec!["A".to_string()],
        transitions: vec![StateTransition {
            from: "A".to_string(),
            to: "A".to_string(),
            condition: "retry".to_string(),
        }],
        initial_state: "A".to_string(),
    };
    let d = TeamDispatcher::new(team_of(&["A"], workflow));
    let out = d.execute("job", vec!["attempt".to_string()]);
    let (trace, _result) = out.expect("one output completes the walk");
    assert_eq!(trace.len(), 2);
    assert_eq!(trace[0], "State A (A): attempt");
    assert_eq!(trace[1], "⚠️ FSM: State 'A' already visited, stopping loop");
}

#[test]
fn fsm_conditions_inspect_the_output() {
    let workflow = TeamWorkflow::FSM {
        states: vec!["support".to_string(), "closed".to_string(), "escalate".to_string()],
        transitions: vec![
            StateTransition {
                from: "support".to_string(),
                to: "closed".to_string(),
                condition: "customer_satisfied".to_string(),
            },
            StateTransition {
                from: "support".to_string(),
                to: "escalate".to_string(),
                condition: "customer_unsatisfied".to_string(),
            },
        ],
        initial_state: "support".to_string(),
    };
    let d = TeamDispatcher::new(team_of(&["support", "closed", "escalate"], workflow));
    let out = d.execute(
        "help",
        vec!["Customer STILL HAS ISSUE after the call".to_string(), "noted".to_string()],
    );
    let (trace, _result) = out.expect("two outputs complete the walk");
    // "still has issue" fires the dissatisfaction transition, case-folded
    assert_eq!(trace[1], "State escalate (escalate): noted");
}

#[test]
fn fsm_missing_agent_is_a_terminal_diagnostic() {
    let workflow = TeamWorkflow::FSM {
        states: vec!["orphan".to_string()],
        transitions: vec![],
        initial_state: "orphan".to_string(),
    };
    let d = TeamDispatcher::new(team_of(&["zz"], workflow));
    let out = d.execute("t", vec![]);
    let (trace, _result) = out.expect("the halt needs no outputs");
    assert_eq!(trace.len(), 1);
    assert_eq!(trace[0], "❌ FSM: No agent found for state: orphan");
}

#[test]
fn dag_orders_by_dependency_and_passes_context() {
    let workflow = TeamWorkflow::DAG {
        nodes: vec![
            DAGNode { id: "n1".to_string(), agent: "a".to_string(), task: "t1".to_string() },
            DAGNode { id: "n2".to_string(), agent: "b".to_string(), task: "t2".to_string() },
        ],
        edges: vec![DAGEdge { from: "n1".to_string(), to: "n2".to_string(), condition: None }],
    };
    let d = TeamDispatcher::new(team_of(&["a", "b"], workflow));
    let mut run = d.start("orig");
    match run.next_action() {
        Action::Invoke { agent, input } => {
            assert_eq!(agent, "a");
            assert_eq!(input, "Task: t1. Context: No dependencies. Original: orig");
        }
        Action::Finished { .. } => panic!("n1 must run first"),
    }
    run.provide_output("n1 output".to_string());
    match run.next_action() {
        Action::Invoke { agent, input } => {
            assert_eq!(agent, "b");
            // n2 becomes ready only after n1 completed, and sees its output
            assert_eq!(input, "Task: t2. Context: n1: n1 output. Original: orig");
        }
        Action::Finished { .. } => panic!("n2 must become ready after n1"),
    }
    run.provide_output("n2 output".to_string());
    match run.next_action() {
        Action::Finished { result } => {
            assert_eq!(result, "Node n1 (a): n1 output\n\nNode n2 (b): n2 output");
        }
        Action::Invoke { .. } => panic!("expected completion"),
    }
}

#[test]
fn dag_missing_agent_still_completes_and_unblocks_dependents() {
    let workflow = TeamWorkflow::DAG {
        nodes: vec![
            DAGNode { id: "n1".to_string(), agent: "ghost".to_string(), task: "t1".to_string() },
            DAGNode { id: "n2".to_string(), agent: "b".to_string(), task: "t2".to_string() },
        ],
        edges: vec![DAGEdge { from: "n1".to_string(), to: "n2".to_string(), condition: None }],
    };
    let d = TeamDispatcher::new(team_of(&["b"], workflow));
    let mut run = d.start("o");
    // n1's agent is absent: the node fails soft and n2, whose sole
    // dependency is n1, still becomes ready
    match run.next_action() {
        Action::Invoke { agent, input } => {
            assert_eq!(agent, "b");
            assert_eq!(input, "Task: t2. Context: . Original: o");
        }
        Action::Finished { .. } => panic!("n2 must still become ready"),
    }
    run.provide_output("ob".to_string());
    match run.next_action() {
        Action::Finished { result } => {
            assert_eq!(result, "❌ DAG: Agent 'ghost' not found for node n1\n\nNode n2 (b): ob");
        }
        Action::Invoke { .. } => panic!("expected completion"),
    }
}

#[test]
fn dag_unreachable_nodes_are_reported_stranded() {
    let workflow = TeamWorkflow::DAG {
        nodes: vec![
            DAGNode { id: "x".to_string(), agent: "a".to_string(), task: "tx".to_string() },
            DAGNode { id: "y".to_string(), agent: "a".to_string(), task: "ty".to_string() },
            DAGNode { id: "z".to_string(), agent: "a".to_string(), task: "tz".to_string() },
        ],
        // y and z depend on each other: neither can ever become ready
        edges: vec![
            DAGEdge { from: "y".to_string(), to: "z".to_string(), condition: None },
            DAGEdge { from: "z".to_string(), to: "y".to_string(), condition: None },
        ],
    };
    let d = TeamDispatcher::new(team_of(&["a"], workflow));
    let (trace, _result) = d.execute("t", vec!["ox".to_string()]).expect("one output suffices");
    assert_eq!(trace.len(), 2);
    assert_eq!(trace[0], "Node x (a): ox");
    assert_eq!(trace[1], "⚠️ DAG: Some nodes could not be completed: [\"y\", \"z\"]");
}

#[test]
fn fsm_config_on_the_team_overrides_the_workflow_parameters() {
    let mut team = team_of(
        &["A"],
        TeamWorkflow::FSM {
            states: vec![],
            transitions: vec![],
            initial_state: "start".to_string(),
        },
    );
    team.fsm = Some(helixor::team::FSMConfig {
        states: vec!["A".to_string()],
        initial_state: "A".to_string(),
        transitions: vec![],
    });
    let d = TeamDispatcher::new(team);
    let (trace, _result) = d.execute("t", vec!["oa".to_string()]).expect("complete");
    assert_eq!(trace.len(), 2);
    assert_eq!(trace[0], "State A (A): oa");
}

#[test]
fn empty_pool_finishes_immediately_with_empty_result() {
    let d = TeamDispatcher::new(team_of(&[], TeamWorkflow::RoundRobin));
    let (trace, result) = d.execute("t", vec![]).expect("nothing to do");
    assert_eq!(trace.len(), 0);
    assert_eq!(result, "");
}

#[test]
fn execute_reports_none_when_the_script_is_too_short() {
    let d = TeamDispatcher::new(team_of(&["a", "b"], TeamWorkflow::RoundRobin));
    assert!(d.execute("t", vec!["only one".to_string()]).is_none());
}

#[test]
fn execute_is_idempotent_for_a_fixed_script() {
    let mk = || {
        TeamDispatcher::new(team_of(&["a", "b"], TeamWorkflow::ChainOfThought))
    };
    let outs = vec!["o1".to_string(), "o2".to_string()];
    let first = mk().execute("t", outs.clone());
    let second = mk().execute("t", outs);
    let (t1, r1) = first.expect("complete");
    let (t2, r2) = second.expect("complete");
    assert_eq!(t1, t2);
    assert_eq!(r1, r2);
}

#[test]
fn determine_next_state_takes_first_firing_transition() {
    let transitions = vec![
        StateTransition {
            from: "s".to_string(),
            to: "happy_end".to_string(),
            condition: "customer_satisfied".to_string(),
        },
        StateTransition {
            from: "s".to_string(),
            to: "fallback".to_string(),
            condition: "anything".to_string(),
        },
    ];
    let next = TeamDispatcher::determine_next_state("s", &transitions, "All Resolved now");
    assert_eq!(next, Some("happy_end".to_string()));
    let next2 = TeamDispatcher::determine_next_state("s", &transitions, "no keywords here");
    assert_eq!(next2, Some("fallback".to_string()));
    let none = TeamDispatcher::determine_next_state("t", &transitions, "whatever");
    assert_eq!(none, None);
}

#[test]
fn fsm_with_undeclared_initial_state_finishes_silently() {
    let workflow = TeamWorkflow::FSM {
        states: vec![],
        transitions: vec![],
        initial_state: "ghost".to_string(),
    };
    let d = TeamDispatcher::new(team_of(&["a"], workflow));
    let (trace, result) = d.execute("t", vec![]).expect("halts before any invocation");
    assert_eq!(trace.len(), 0);
    assert_eq!(result, "");
}

#[test]
fn status_reports_progress_of_a_run() {
    let d = TeamDispatcher::new(team_of(&["solo"], TeamWorkflow::RoundRobin));
    let mut run = d.start("t");
    let before = run.status();
    assert!(!before.is_complete);
    assert_eq!(before.workflow_id.len(), 36);
    run.provide_output("done".to_string());
    let after = run.status();
    assert!(after.is_complete);
    assert_eq!(after.current_agent, Some("solo".to_string()));
}
