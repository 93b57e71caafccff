use helixor::workflow::runner::WorkflowRunner;
use helixor::workflow::state::{StepResult, WorkflowState};
use helixor::workflow::workflow_trait::{
    ChainOfThoughtWorkflow, Workflow, WorkflowStep, WorkflowType,
};

fn step(name: &str, agent: &str) -> WorkflowStep {
    WorkflowStep {
        name: name.to_string(),
        description: "d".to_string(),
        agent: agent.to_string(),
        tools: vec![],
    }
}

#[test]
fn cot_workflow_simulates_and_chains_steps() {
    let wf = ChainOfThoughtWorkflow::new(vec![step("s1", "alice"), step("s2", "bob")]);
    let mut state = WorkflowState::new("id".to_string());
    let result = wf.execute("go", &mut state).expect("always succeeds");
    let first = "Step 1 (alice): Processed 'go'";
    let second = "Step 2 (bob): Processed 'Step 1 (alice): Processed 'go''";
    assert_eq!(result, format!("{}\n\n{}", first, second));
    assert_eq!(state.current_step, 1);
    assert_eq!(state.current_agent, Some("bob".to_string()));
}

#[test]
fn cot_metadata_names_the_family() {
    let wf = ChainOfThoughtWorkflow::new(vec![]);
    let meta = wf.metadata();
    assert_eq!(meta.name, "Chain of Thought");
    assert_eq!(meta.description, "Sequential reasoning workflow");
    assert!(matches!(meta.workflow_type, WorkflowType::ChainOfThought));
}

#[test]
fn runner_executes_registered_workflows_by_name() {
    let mut runner = WorkflowRunner::new();
    runner.create_cot_workflow("plan", vec![step("s1", "alice")]);
    let result = runner.execute_workflow("plan", "input").expect("registered");
    assert_eq!(result, "Step 1 (alice): Processed 'input'");
    let statuses = runner.get_active_workflows();
    assert_eq!(statuses.len(), 1);
    // run ids are fresh hyphenated identifiers
    assert_eq!(statuses[0].workflow_id.len(), 36);
    assert!(!statuses[0].is_complete);
}

#[test]
fn runner_rejects_unknown_workflow_names() {
    let mut runner = WorkflowRunner::new();
    let err = runner.execute_workflow("nope", "x").unwrap_err();
    assert_eq!(err, "Workflow 'nope' not found");
    assert_eq!(runner.get_active_workflows().len(), 0);
}

#[test]
fn state_tracks_variables_metadata_and_steps() {
    let mut st = WorkflowState::new("wf-1".to_string());
    assert_eq!(st.workflow_id, "wf-1");
    assert_eq!(st.current_step, 0);
    assert!(st.get_variable("k").is_none());
    st.set_variable("k", "v1");
    st.set_variable("k", "v2");
    assert_eq!(st.get_variable("k"), Some(&"v2".to_string()));
    st.set_metadata("owner", "ops");
    assert_eq!(st.get_metadata("owner"), Some(&"ops".to_string()));
    st.set_current_step(3);
    st.set_current_agent("alice");
    st.add_step_result(StepResult {
        step_index: 0,
        agent: "alice".to_string(),
        input: "in".to_string(),
        output: "out".to_string(),
        timestamp: 1,
        duration_ms: 2,
    });
    assert_eq!(st.step_results.len(), 1);
    assert_eq!(st.step_results[0].output, "out");
    assert!(!st.is_complete());
}

#[test]
fn execution_time_saturates_at_zero() {
    assert_eq!(WorkflowState::execution_time_from(10, 3), 7);
    assert_eq!(WorkflowState::execution_time_from(3, 10), 0);
}
