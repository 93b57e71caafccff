use helixor::agent::AgentContext;
use helixor::memory::{InMemoryMemory, Memory};
use helixor::tool::{BuiltinTool, EchoTool, MathTool, SearchTool, Tool, ToolRegistry};

#[test]
fn echo_tool_repeats_its_input() {
    let tool = EchoTool::new();
    assert_eq!(tool.name(), "echo");
    assert_eq!(tool.call("hello"), "Echo: hello");
}

#[test]
fn math_tool_evaluates_expressions() {
    let tool = MathTool::new();
    assert_eq!(tool.name(), "math");
    assert_eq!(tool.call("2+2"), "🧮 Result: 4");
    assert_eq!(tool.call("2 + 3 * 4"), "🧮 Result: 14");
    assert_eq!(tool.call("10 / 4"), "🧮 Result: 2.5");
    assert!(tool.call("nonsense(").starts_with("❌ Math error: "));
}

#[test]
fn search_tool_builds_the_query_url() {
    let tool = SearchTool::new();
    assert_eq!(tool.name(), "search");
    assert_eq!(
        tool.query_url("  rust lang  "),
        "https://api.duckduckgo.com/?q=rust%20lang&format=json&no_redirect=1&no_html=1"
    );
}

#[test]
fn search_tool_summarizes_responses() {
    let tool = SearchTool::new();
    assert_eq!(tool.summarize("An answer.", &vec![]), "🔎 An answer.");
    assert_eq!(
        tool.summarize("", &vec![None, Some("first topic".to_string()), Some("second".to_string())]),
        "🔎 Related: first topic"
    );
    assert_eq!(tool.summarize("", &vec![None, None]), "🤷 No relevant result found.");
}

#[test]
fn registry_serves_the_builtins() {
    let registry = ToolRegistry::new();
    assert!(matches!(registry.get("math"), Some(BuiltinTool::Math(_))));
    assert!(matches!(registry.get("search"), Some(BuiltinTool::Search(_))));
    assert!(matches!(registry.get("echo"), Some(BuiltinTool::Echo(_))));
    assert!(registry.get("unknown").is_none());
    let names = registry.list_available();
    assert_eq!(names, vec!["math".to_string(), "search".to_string(), "echo".to_string()]);
}

#[test]
fn registry_register_shadows_older_entries() {
    let mut registry = ToolRegistry::new();
    registry.register("math", BuiltinTool::Echo(EchoTool::new()));
    assert!(matches!(registry.get("math"), Some(BuiltinTool::Echo(_))));
}

#[test]
fn load_tools_skips_unknown_names() {
    let tools = helixor::tool::load_tools(&vec![
        "math".to_string(),
        "bogus".to_string(),
        "echo".to_string(),
    ]);
    assert_eq!(tools.len(), 2);
    assert!(matches!(tools[0], BuiltinTool::Math(_)));
    assert!(matches!(tools[1], BuiltinTool::Echo(_)));
}

#[test]
fn in_memory_store_appends_and_recalls() {
    let mut mem = InMemoryMemory::new();
    assert!(mem.recall("user").is_none());
    mem.store("user", "hi");
    mem.store("assistant", "hello");
    mem.store("user", "again");
    assert_eq!(mem.recall("user"), Some("again".to_string()));
    let log = mem.load();
    assert_eq!(log.len(), 3);
    assert_eq!(log[0].role, "user");
    assert_eq!(log[0].content, "hi");
    assert_eq!(log[2].content, "again");
    assert!(mem.clear().is_ok());
    assert_eq!(mem.load().len(), 0);
    assert!(mem.recall("user").is_none());
}

#[test]
fn context_prompt_trims_and_orders_parts() {
    let mut ctx = AgentContext::new();
    ctx.add_message("User: earlier".to_string().as_str());
    ctx.add_message("Assistant: reply");
    let prompt = ctx.build_context_prompt("  be helpful \n", "  what now?  ");
    assert_eq!(
        prompt,
        vec![
            "System: be helpful".to_string(),
            "User: earlier".to_string(),
            "Assistant: reply".to_string(),
            "User: what now?".to_string(),
        ]
    );
}

#[test]
fn registry_lists_each_name_once_after_reregistration() {
    let mut registry = ToolRegistry::new();
    registry.register("math", BuiltinTool::Echo(EchoTool::new()));
    let names = registry.list_available();
    assert_eq!(names, vec!["math".to_string(), "search".to_string(), "echo".to_string()]);
}

#[test]
fn instruction_text_and_memory_path_helpers() {
    let text = helixor::agent::full_instructions("Answer briefly.");
    assert_eq!(
        text,
        "You are a helpful assistant.\nIf you want to use a tool, respond ONLY in JSON format:\n{ \"tool_call\": { \"name\": \"TOOL_NAME\", \"args\": \"ARGUMENT_STRING\" } }\nOtherwise, reply normally as a helpful assistant.\nAnswer briefly."
    );
    assert_eq!(helixor::agent::default_memory_path("researcher"), "memory_researcher.db");
}
