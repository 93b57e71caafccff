use helixor::team::{Team, TeamAgent, TeamWorkflow};

#[test]
fn test_team_creation() {
    let mut team = Team::new("TestTeam".to_string());

    let agent1 = TeamAgent {
        name: "researcher".to_string(),
        role: "Data Researcher".to_string(),
        instructions: "Research data".to_string(),
        tools: vec!["search".to_string()],
        model: "openai:gpt-4-turbo".to_string(),
    };

    let agent2 = TeamAgent {
        name: "analyst".to_string(),
        role: "Analyst".to_string(),
        instructions: "Analyze data".to_string(),
        tools: vec!["math".to_string()],
        model: "openai:gpt-4-turbo".to_string(),
    };

    team.add_agent(agent1);
    team.add_agent(agent2);

    assert_eq!(team.name, "TestTeam");
    assert_eq!(team.agents.len(), 2);
    assert_eq!(team.agents[0].name, "researcher");
    assert_eq!(team.agents[1].name, "analyst");
}

#[test]
fn test_workflow_types() {
    let cot_workflow = TeamWorkflow::ChainOfThought;

    let fsm_workflow = TeamWorkflow::FSM {
        states: vec!["start".to_string(), "process".to_string(), "end".to_string()],
        transitions: vec![],
        initial_state: "start".to_string(),
    };

    let dag_workflow = TeamWorkflow::DAG { nodes: vec![], edges: vec![] };

    assert!(matches!(cot_workflow, TeamWorkflow::ChainOfThought));
    assert!(matches!(fsm_workflow, TeamWorkflow::FSM { .. }));
    assert!(matches!(dag_workflow, TeamWorkflow::DAG { .. }));
}

#[test]
fn builder_collects_agents_and_workflow() {
    let team = helixor::team::TeamBuilder::new("Builders".to_string())
        .with_agent(TeamAgent {
            name: "a".to_string(),
            role: "r".to_string(),
            instructions: "i".to_string(),
            tools: vec![],
            model: "m".to_string(),
        })
        .with_workflow(TeamWorkflow::Parallel)
        .with_shared_memory("mem.db".to_string())
        .build();
    assert_eq!(team.name, "Builders");
    assert_eq!(team.agents.len(), 1);
    assert!(matches!(team.workflow, TeamWorkflow::Parallel));
    assert_eq!(team.shared_memory, Some("mem.db".to_string()));
}

#[test]
fn builder_defaults_to_round_robin() {
    let team = helixor::team::TeamBuilder::new("T".to_string()).build();
    assert!(matches!(team.workflow, TeamWorkflow::RoundRobin));
}

#[test]
fn workflow_tags_parse_case_insensitively() {
    assert!(matches!(TeamWorkflow::from_tag("RoundRobin"), TeamWorkflow::RoundRobin));
    assert!(matches!(TeamWorkflow::from_tag("round_robin"), TeamWorkflow::RoundRobin));
    assert!(matches!(TeamWorkflow::from_tag("COT"), TeamWorkflow::ChainOfThought));
    assert!(matches!(TeamWorkflow::from_tag("chain_of_thought"), TeamWorkflow::ChainOfThought));
    assert!(matches!(TeamWorkflow::from_tag("Parallel"), TeamWorkflow::Parallel));
    match TeamWorkflow::from_tag("FSM") {
        TeamWorkflow::FSM { states, transitions, initial_state } => {
            assert_eq!(states.len(), 0);
            assert_eq!(transitions.len(), 0);
            assert_eq!(initial_state, "start");
        }
        _ => panic!("fsm tag not recognized"),
    }
    assert!(matches!(TeamWorkflow::from_tag("dag"), TeamWorkflow::DAG { .. }));
    assert!(matches!(TeamWorkflow::from_tag("something else"), TeamWorkflow::RoundRobin));
}
