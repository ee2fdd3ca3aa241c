use local_agent::capability_router::{ActionType, AgentRouter, ResourceType, RouteResult, RoutingIntent};
use local_agent::json::JsonValue;
use local_agent::llm_interface::{
    bearer, chat_endpoint, chat_message, chat_reply_content, embedding_request, embeddings_endpoint,
    ollama_api_base, ollama_chat_base_url, ollama_chat_endpoint, ollama_reply_content, ollama_schema_prompt,
    ollama_structured_output, schema_response_format, structured_output, uses_ollama_api, with_system_prompt,
    EmbeddingConfig,
};

fn text(s: &str) -> JsonValue {
    JsonValue::Str(s.to_string())
}

fn object(members: Vec<(&str, JsonValue)>) -> JsonValue {
    JsonValue::Object(members.into_iter().map(|(k, v)| (k.to_string(), v)).collect())
}

fn embedding_config_ollama() {
    let config = EmbeddingConfig::ollama("localhost", "nomic-embed-text");
    assert_eq!(config.base_url, "http://localhost:11434");
    assert_eq!(config.model, "nomic-embed-text");
}

#[test]
fn llm_interface_test_embedding_config_ollama() {
    embedding_config_ollama();
}

#[test]
fn test_llm_interface_test_embedding_config_ollama() {
    embedding_config_ollama();
}

#[test]
fn embedding_config_fields() {
    let config = EmbeddingConfig::ollama("gpu-box", "m");
    assert_eq!(config.provider, "ollama-embedding");
    assert_eq!(config.base_url, "http://gpu-box:11434");
    assert_eq!(config.timeout, 30);
}

#[test]
fn embedding_config_settings_fall_back_to_defaults() {
    let config = EmbeddingConfig::with_settings(None, None);
    assert_eq!(config.base_url, "http://localhost:11434");
    assert_eq!(config.model, "nomic-embed-text");
    let config = EmbeddingConfig::with_settings(Some("http://h:1".into()), Some("e".into()));
    assert_eq!(config.base_url, "http://h:1");
    assert_eq!(config.model, "e");
}

#[test]
fn chat_base_url_for_host() {
    assert_eq!(ollama_chat_base_url("localhost"), "http://localhost:11434/v1");
    assert_eq!(ollama_chat_base_url("minadioro"), "http://minadioro:11434/v1");
}

#[test]
fn endpoints_and_headers() {
    assert_eq!(chat_endpoint("http://h:11434/v1"), "http://h:11434/v1/chat/completions");
    assert_eq!(bearer("k"), "Bearer k");
    assert_eq!(ollama_api_base("http://h:11434/v1"), "http://h:11434");
    assert_eq!(ollama_api_base("http://h:11434"), "http://h:11434");
    assert_eq!(ollama_api_base("/v"), "/v");
    assert_eq!(ollama_chat_endpoint("http://h:11434/v1"), "http://h:11434/api/chat");
    assert_eq!(embeddings_endpoint("http://h:11434"), "http://h:11434/api/embeddings");
    assert!(uses_ollama_api("ollama-local"));
    assert!(!uses_ollama_api("openai_compat"));
}

#[test]
fn system_prompt_goes_first() {
    let messages = vec![chat_message("user", "hi")];
    let list = with_system_prompt(messages, Some("be brief"));
    assert_eq!(list.len(), 2);
    assert_eq!(list[0].to_text(), "{\"content\":\"be brief\",\"role\":\"system\"}");
    assert_eq!(list[1].to_text(), "{\"content\":\"hi\",\"role\":\"user\"}");
    let list = with_system_prompt(vec![chat_message("user", "hi")], None);
    assert_eq!(list.len(), 1);
}

#[test]
fn completion_content_is_read() {
    let data = JsonValue::from_text("{\"choices\":[{\"message\":{\"content\":\"hello\"}}]}").unwrap();
    assert_eq!(chat_reply_content(&data), Ok("hello".to_string()));
    let data = JsonValue::from_text("{\"choices\":[]}").unwrap();
    assert_eq!(chat_reply_content(&data), Err("Invalid response format from LLM".to_string()));
    let data = JsonValue::from_text("{\"message\":{\"content\":\"x\"}}").unwrap();
    assert_eq!(ollama_reply_content(&data), Ok("x".to_string()));
    let data = JsonValue::from_text("{\"message\":{\"content\":3}}").unwrap();
    assert_eq!(ollama_reply_content(&data), Err("Invalid response format from Ollama".to_string()));
}

#[test]
fn response_format_wraps_schema() {
    let format = schema_response_format(object(vec![("type", text("object"))]));
    assert_eq!(
        format.to_text(),
        "{\"json_schema\":{\"name\":\"structured_output\",\"schema\":{\"type\":\"object\"},\"strict\":true},\"type\":\"json_schema\"}"
    );
}

#[test]
fn structured_output_errors_name_the_reply() {
    assert!(structured_output("{\"a\":1}").is_ok());
    assert!(structured_output("nope").unwrap_err().starts_with("Failed to parse structured output: "));
    let err = ollama_structured_output("nope").unwrap_err();
    assert!(err.starts_with("Failed to parse structured output: "));
    assert!(err.ends_with("; content=\"nope\""));
}

#[test]
fn schema_prompt_appends_schema() {
    let schema = object(vec![("type", text("object"))]);
    let prompt = ollama_schema_prompt(Some("sys"), &schema);
    assert_eq!(
        prompt,
        "sys\n\nReturn exactly one JSON object and no other text. The JSON must conform to this schema:\n{\"type\":\"object\"}"
    );
    assert!(ollama_schema_prompt(None, &schema).starts_with("\n\nReturn exactly one JSON object"));
}

#[test]
fn embedding_request_body() {
    assert_eq!(embedding_request("m", "t").to_text(), "{\"model\":\"m\",\"prompt\":\"t\"}");
}

fn route_known_action() {
    let router = AgentRouter::new();
    let intent = RoutingIntent {
        action: ActionType::Find,
        resource: ResourceType::SalesReport,
        parameters: object(vec![("date_range", text("Q1-2026"))]),
    };
    let result = router.route_request(&intent);
    assert_eq!(
        result,
        RouteResult::Routed {
            agent_name: "SalesAgent".into(),
            parameters: object(vec![("date_range", text("Q1-2026"))]),
        }
    );
    assert_eq!(result.agent_name(), Some("SalesAgent"));
}

#[test]
fn capability_router_test_route_known_action() {
    route_known_action();
}

#[test]
fn test_capability_router_test_route_known_action() {
    route_known_action();
}

fn route_unknown_action() {
    let router = AgentRouter::new();
    let intent =
        RoutingIntent { action: ActionType::Analyze, resource: ResourceType::ServerLog, parameters: object(vec![]) };
    let result = router.route_request(&intent);
    assert!(matches!(result, RouteResult::NotFound { .. }));
    assert!(!result.is_routed());
}

#[test]
fn capability_router_test_route_unknown_action() {
    route_unknown_action();
}

#[test]
fn test_capability_router_test_route_unknown_action() {
    route_unknown_action();
}

#[test]
fn default_capability_graph() {
    let router = AgentRouter::new();
    let cases = [
        (ActionType::Find, ResourceType::SalesReport, Some("SalesAgent")),
        (ActionType::Analyze, ResourceType::SalesReport, Some("SalesAgent")),
        (ActionType::Find, ResourceType::Document, Some("ComplianceAgent")),
        (ActionType::Create, ResourceType::ServerLog, Some("DevOpsAgent")),
        (ActionType::Create, ResourceType::LoanApplication, Some("LoanOrchestratorAgent")),
        (ActionType::Create, ResourceType::SalesReport, None),
        (ActionType::Find, ResourceType::ServerLog, None),
        (ActionType::Create, ResourceType::Document, None),
    ];
    for (a, r, agent) in cases {
        let result = router.route_request(&RoutingIntent { action: a, resource: r, parameters: object(vec![]) });
        assert_eq!(result.agent_name(), agent);
    }
}

#[test]
fn route_display_texts() {
    let routed = RouteResult::Routed { agent_name: "SalesAgent".into(), parameters: JsonValue::Null };
    assert_eq!(routed.display(), "Routed to SalesAgent");
    let missing = RouteResult::NotFound { action: "create".into(), resource: "document".into() };
    assert_eq!(missing.display(), "No agent exists that can 'create' a 'document'");
}

#[test]
fn names_read_back() {
    for a in [ActionType::Find, ActionType::Analyze, ActionType::Create] {
        assert_eq!(ActionType::from_name(a.as_str()), Some(a));
    }
    for r in [ResourceType::SalesReport, ResourceType::ServerLog, ResourceType::Document, ResourceType::LoanApplication] {
        assert_eq!(ResourceType::from_name(r.as_str()), Some(r));
    }
    assert_eq!(ActionType::from_name("delete"), None);
    assert_eq!(ResourceType::as_str(&ResourceType::LoanApplication), "loan_application");
}

#[test]
fn json_text_reads_back() {
    let value = object(vec![("a", JsonValue::Array(vec![text("x"), JsonValue::Bool(true), JsonValue::Null]))]);
    let written = value.to_text();
    assert_eq!(written, "{\"a\":[\"x\",true,null]}");
    assert_eq!(JsonValue::from_text(&written).unwrap(), value);
}

#[test]
fn routing_line_names_agent_and_parameters() {
    let router = AgentRouter::new();
    let intent = RoutingIntent {
        action: ActionType::Find,
        resource: ResourceType::SalesReport,
        parameters: object(vec![("quarter", text("Q1"))]),
    };
    let result = router.route_request(&intent);
    assert_eq!(result.routing_line().unwrap(), "Routing to SalesAgent with params: {\"quarter\":\"Q1\"}");
    let lost = RoutingIntent { action: ActionType::Create, resource: ResourceType::SalesReport, parameters: object(vec![]) };
    let missed = router.route_request(&lost);
    assert!(!missed.is_routed());
    assert!(missed.routing_line().is_none());
}
