use local_agent::capability_router::{ActionType, AgentRouter, ResourceType, RouteResult, RoutingIntent};
use local_agent::intent_extractor::{
    action_from_value, resource_from_value, extraction_message, intent_from_fallback, intent_from_response, build_intent_schema, system_prompt, IntentCache,
    IntentExtractor,
};
use local_agent::json::{JsonNumber, JsonValue};
use local_agent::llm_interface::LLMClientTrait;
use local_agent::loan_orchestrator::{LoanOrchestratorAgent, MockCreditChecker, MockDocumentValidator, MockRiskAssessor};
use local_agent::supervisor::WorkflowStatus;

fn text(s: &str) -> JsonValue {
    JsonValue::Str(s.to_string())
}

fn number(n: u64) -> JsonValue {
    JsonValue::Number(JsonNumber::PosInt(n))
}

fn object(members: Vec<(&str, JsonValue)>) -> JsonValue {
    JsonValue::Object(members.into_iter().map(|(k, v)| (k.to_string(), v)).collect())
}

fn field_text(v: &JsonValue, key: &str) -> Option<String> {
    v.get(key).and_then(|x| x.as_str()).cloned()
}

struct MockLLMClient {
    structured_response: Result<JsonValue, String>,
    chat_response: Result<String, String>,
}

impl MockLLMClient {
    fn new_valid_intent() -> Self {
        Self {
            structured_response: Ok(object(vec![
                ("action", text("find")),
                ("resource", text("sales_report")),
                ("parameters", object(vec![("quarter", text("Q1"))])),
            ])),
            chat_response: Err("should not reach chat fallback".into()),
        }
    }

    fn new_error() -> Self {
        Self { structured_response: Err("LLM error".into()), chat_response: Err("chat also fails".into()) }
    }

    fn new_fallback_valid() -> Self {
        let reply = object(vec![
            ("action", text("analyze")),
            ("parameters", object(vec![("date", text("2024-01-01"))])),
            ("resource", text("server_log")),
        ]);
        Self {
            structured_response: Err("structured fails, try fallback".into()),
            chat_response: Ok(reply.to_text()),
        }
    }

    fn new_invalid_action() -> Self {
        Self {
            structured_response: Ok(object(vec![
                ("action", text("unknown_action")),
                ("resource", text("sales_report")),
                ("parameters", object(vec![])),
            ])),
            chat_response: Err("should not reach chat fallback".into()),
        }
    }

    fn new_invalid_resource() -> Self {
        Self {
            structured_response: Ok(object(vec![
                ("action", text("find")),
                ("resource", text("unknown_resource")),
                ("parameters", object(vec![])),
            ])),
            chat_response: Err("should not reach chat fallback".into()),
        }
    }
}

impl LLMClientTrait for MockLLMClient {
    fn chat(
        &self,
        _messages: Vec<JsonValue>,
        _system_prompt: Option<&str>,
        _response_format: Option<JsonValue>,
    ) -> Result<String, String> {
        self.chat_response.clone()
    }

    fn structured_chat(
        &self,
        _messages: Vec<JsonValue>,
        _schema: JsonValue,
        _system_prompt: Option<&str>,
    ) -> Result<JsonValue, String> {
        match &self.structured_response {
            Ok(v) => Ok(v.duplicate()),
            Err(e) => Err(e.clone()),
        }
    }
}

/// A cache that finds an intent only for the very request it was stored for.
struct ExactCache {
    entries: Vec<(String, RoutingIntent)>,
}

impl IntentCache for ExactCache {
    fn lookup(&mut self, query: &str) -> Result<Option<RoutingIntent>, String> {
        for (q, intent) in &self.entries {
            if q == query {
                return Ok(Some(RoutingIntent {
                    action: intent.action,
                    resource: intent.resource,
                    parameters: intent.parameters.duplicate(),
                }));
            }
        }
        Ok(None)
    }

    fn store(&mut self, query: &str, intent: &RoutingIntent) -> Result<(), String> {
        self.entries.push((
            query.to_string(),
            RoutingIntent { action: intent.action, resource: intent.resource, parameters: intent.parameters.duplicate() },
        ));
        Ok(())
    }
}

fn extractor(client: MockLLMClient) -> IntentExtractor {
    IntentExtractor::new(Box::new(client), None)
}

fn schema_has_required_fields() {
    let schema = build_intent_schema();
    let properties = schema.get("properties").unwrap();
    assert!(properties.get("action").is_some());
    assert!(properties.get("resource").is_some());
    assert!(properties.get("parameters").is_some());
    let required = schema.get("required").unwrap();
    assert_eq!(required.at(0).and_then(|v| v.as_str()).map(|s| s.as_str()), Some("action"));
    assert_eq!(required.at(1).and_then(|v| v.as_str()).map(|s| s.as_str()), Some("resource"));
    assert!(required.at(2).is_none());
}

#[test]
fn intent_extractor_test_intent_schema_has_required_fields() {
    schema_has_required_fields();
}

#[test]
fn test_intent_extractor_test_intent_schema_has_required_fields() {
    schema_has_required_fields();
}

fn system_prompt_exists() {
    let _ = IntentExtractor::new(Box::new(MockLLMClient::new_valid_intent()), None);
    assert!(system_prompt().starts_with("You are an intent extraction assistant."));
}

#[test]
fn intent_extractor_test_system_prompt_exists() {
    system_prompt_exists();
}

#[test]
fn test_intent_extractor_test_system_prompt_exists() {
    system_prompt_exists();
}

#[test]
fn test_extract_valid_intent() {
    let mut extractor = extractor(MockLLMClient::new_valid_intent());
    let intent = extractor.extract("Find the Q1 sales report").unwrap();
    assert_eq!(intent.action, ActionType::Find);
    assert_eq!(intent.resource, ResourceType::SalesReport);
    assert_eq!(field_text(&intent.parameters, "quarter"), Some("Q1".to_string()));
}

#[test]
fn test_extract_llm_error_propagates() {
    let mut extractor = extractor(MockLLMClient::new_error());
    let result = extractor.extract("Find the Q1 sales report");
    assert!(result.is_err());
    assert!(result.unwrap_err().contains("chat also fails"));
}

#[test]
fn test_extract_fallback_to_chat() {
    let mut extractor = extractor(MockLLMClient::new_fallback_valid());
    let intent = extractor.extract("Analyze the server log").unwrap();
    assert_eq!(intent.action, ActionType::Analyze);
    assert_eq!(intent.resource, ResourceType::ServerLog);
    assert_eq!(field_text(&intent.parameters, "date"), Some("2024-01-01".to_string()));
}

#[test]
fn test_extract_invalid_action() {
    let mut extractor = extractor(MockLLMClient::new_invalid_action());
    let result = extractor.extract("Find the Q1 sales report");
    assert!(result.is_err());
    assert!(result.unwrap_err().contains("Invalid action"));
}

#[test]
fn test_extract_invalid_resource() {
    let mut extractor = extractor(MockLLMClient::new_invalid_resource());
    let result = extractor.extract("Find the Q1 sales report");
    assert!(result.is_err());
    assert!(result.unwrap_err().contains("Invalid resource"));
}

#[test]
fn test_extract_cache_hit_returns_cached_intent() {
    let cached_intent = RoutingIntent {
        action: ActionType::Create,
        resource: ResourceType::Document,
        parameters: object(vec![("topic", text("audit"))]),
    };
    let mut cache = ExactCache { entries: Vec::new() };
    cache.store("Create an audit document", &cached_intent).unwrap();
    let mut extractor = IntentExtractor::new(Box::new(MockLLMClient::new_valid_intent()), Some(Box::new(cache)));
    let intent = extractor.extract("Create an audit document").unwrap();
    assert_eq!(intent.action, ActionType::Create);
    assert_eq!(intent.resource, ResourceType::Document);
    assert_eq!(field_text(&intent.parameters, "topic"), Some("audit".to_string()));
}

#[test]
fn test_extract_cache_miss_calls_llm_and_stores() {
    let mut cache = ExactCache { entries: Vec::new() };
    cache
        .store(
            "Different query",
            &RoutingIntent { action: ActionType::Find, resource: ResourceType::ServerLog, parameters: object(vec![]) },
        )
        .unwrap();
    let mut extractor = IntentExtractor::new(Box::new(MockLLMClient::new_valid_intent()), Some(Box::new(cache)));
    let intent = extractor.extract("Find the Q1 sales report").unwrap();
    assert_eq!(intent.action, ActionType::Find);
    assert_eq!(intent.resource, ResourceType::SalesReport);
    let again = extractor.extract("Find the Q1 sales report").unwrap();
    assert_eq!(again.resource, ResourceType::SalesReport);
}

#[test]
fn test_extract_no_cache_calls_llm() {
    let mut extractor = extractor(MockLLMClient::new_valid_intent());
    let intent = extractor.extract("Find the Q1 sales report").unwrap();
    assert_eq!(intent.action, ActionType::Find);
    assert_eq!(intent.resource, ResourceType::SalesReport);
}

struct MockLLMClientNoParams;

impl LLMClientTrait for MockLLMClientNoParams {
    fn chat(&self, _m: Vec<JsonValue>, _s: Option<&str>, _r: Option<JsonValue>) -> Result<String, String> {
        Err("should not reach chat fallback".into())
    }

    fn structured_chat(&self, _m: Vec<JsonValue>, _s: JsonValue, _p: Option<&str>) -> Result<JsonValue, String> {
        Ok(object(vec![("action", text("find")), ("resource", text("document"))]))
    }
}

#[test]
fn test_extract_missing_parameters_defaults_to_empty() {
    let mut extractor = IntentExtractor::new(Box::new(MockLLMClientNoParams), None);
    let intent = extractor.extract("Find the document").unwrap();
    assert_eq!(intent.action, ActionType::Find);
    assert_eq!(intent.resource, ResourceType::Document);
    assert_eq!(intent.parameters, object(vec![]));
}

struct MockLLMClientFallbackParseError;

impl LLMClientTrait for MockLLMClientFallbackParseError {
    fn chat(&self, _m: Vec<JsonValue>, _s: Option<&str>, _r: Option<JsonValue>) -> Result<String, String> {
        Ok("not valid json at all".into())
    }

    fn structured_chat(&self, _m: Vec<JsonValue>, _s: JsonValue, _p: Option<&str>) -> Result<JsonValue, String> {
        Err("structured fails".into())
    }
}

#[test]
fn test_extract_fallback_parse_error() {
    let mut extractor = IntentExtractor::new(Box::new(MockLLMClientFallbackParseError), None);
    let result = extractor.extract("Find the Q1 sales report");
    assert!(result.is_err());
    assert!(result.unwrap_err().contains("Fallback parse failed"));
}

struct MockLoanLLMClient {
    action: &'static str,
    resource: &'static str,
    applicant_id: &'static str,
    loan_amount: u64,
    loan_type: &'static str,
}

impl LLMClientTrait for MockLoanLLMClient {
    fn chat(&self, _m: Vec<JsonValue>, _s: Option<&str>, _r: Option<JsonValue>) -> Result<String, String> {
        Err("should not reach chat fallback".into())
    }

    fn structured_chat(&self, _m: Vec<JsonValue>, _s: JsonValue, _p: Option<&str>) -> Result<JsonValue, String> {
        Ok(object(vec![
            ("action", text(self.action)),
            (
                "parameters",
                object(vec![
                    ("applicant_id", text(self.applicant_id)),
                    ("loan_amount", number(self.loan_amount)),
                    ("loan_type", text(self.loan_type)),
                ]),
            ),
            ("resource", text(self.resource)),
        ]))
    }
}

fn loan_client(applicant_id: &'static str, loan_amount: u64, loan_type: &'static str) -> MockLoanLLMClient {
    MockLoanLLMClient { action: "create", resource: "loan_application", applicant_id, loan_amount, loan_type }
}

fn build_application_from_params(params: &JsonValue) -> String {
    let applicant = params.get("applicant_id").and_then(|v| v.as_str()).cloned().unwrap_or("APP-UNKNOWN".into());
    let amount = params.get("loan_amount").and_then(|v| v.as_u64()).unwrap_or(0);
    let loan_type = params.get("loan_type").and_then(|v| v.as_str()).cloned().unwrap_or("unknown".into());
    let application = JsonValue::Object(vec![
        ("applicant_id".to_string(), JsonValue::Str(applicant)),
        (
            "documents".to_string(),
            JsonValue::Array(vec![text("tax_return_2024"), text("pay_stub"), text("bank_statement")]),
        ),
        ("loan_amount".to_string(), number(amount)),
        ("loan_type".to_string(), JsonValue::Str(loan_type)),
    ]);
    application.to_text()
}

fn routed_parameters(route: &RouteResult) -> JsonValue {
    match route {
        RouteResult::Routed { parameters, .. } => parameters.duplicate(),
        _ => panic!("Expected Routed"),
    }
}

fn extract_loan_intent() {
    let mut extractor = IntentExtractor::new(Box::new(loan_client("APP-E2E-001", 300000, "mortgage")), None);
    let intent = extractor.extract("Apply for a mortgage loan").unwrap();
    assert_eq!(intent.action, ActionType::Create);
    assert_eq!(intent.resource, ResourceType::LoanApplication);
}

#[test]
fn intent_extractor_test_extract_loan_intent() {
    extract_loan_intent();
}

#[test]
fn test_loan_pipeline_test_extract_loan_intent() {
    extract_loan_intent();
}

fn loan_route_to_orchestrator() {
    let mut extractor = IntentExtractor::new(Box::new(loan_client("APP-E2E-001", 300000, "mortgage")), None);
    let route_result = extractor.process("I want to apply for a home loan of 300000").unwrap();
    assert!(matches!(route_result, RouteResult::Routed { .. }));
    assert_eq!(route_result.agent_name(), Some("LoanOrchestratorAgent"));
}

#[test]
fn intent_extractor_test_loan_route_to_orchestrator() {
    loan_route_to_orchestrator();
}

#[test]
fn test_loan_pipeline_test_loan_route_to_orchestrator() {
    loan_route_to_orchestrator();
}

fn loan_full_pipeline_approved() {
    let mut extractor = IntentExtractor::new(Box::new(loan_client("APP-E2E-001", 300000, "mortgage")), None);
    let route_result = extractor.process("I want to apply for a home loan").unwrap();
    assert_eq!(route_result.agent_name(), Some("LoanOrchestratorAgent"));
    let params = routed_parameters(&route_result);
    let orchestrator = LoanOrchestratorAgent::new(
        MockDocumentValidator::new("doc_validator", true),
        MockCreditChecker::new("credit_checker", 750),
        MockRiskAssessor::new("risk_assessor", "low"),
    );
    let application = build_application_from_params(&params);
    let result = orchestrator.process(&application);
    assert_eq!(result.status, WorkflowStatus::Completed);
    assert_eq!(result.audit_entries.len(), 3);
    let decision = LoanOrchestratorAgent::decision_string(&result);
    assert!(decision.contains("approved"));
}

#[test]
fn intent_extractor_test_loan_full_pipeline_approved() {
    loan_full_pipeline_approved();
}

#[test]
fn test_loan_pipeline_test_loan_full_pipeline_approved() {
    loan_full_pipeline_approved();
}

fn loan_pipeline_rejected_invalid_docs() {
    let mut extractor = IntentExtractor::new(Box::new(loan_client("APP-E2E-002", 150000, "personal")), None);
    let route_result = extractor.process("Apply for a personal loan").unwrap();
    assert_eq!(route_result.agent_name(), Some("LoanOrchestratorAgent"));
    let params = routed_parameters(&route_result);
    let orchestrator = LoanOrchestratorAgent::new(
        MockDocumentValidator::new("doc_validator", false),
        MockCreditChecker::new("credit_checker", 750),
        MockRiskAssessor::new("risk_assessor", "low"),
    );
    let application = build_application_from_params(&params);
    let result = orchestrator.process(&application);
    assert_eq!(result.status, WorkflowStatus::Halted);
    let decision = LoanOrchestratorAgent::decision_string(&result);
    assert!(decision.contains("Invalid Documents"));
}

#[test]
fn intent_extractor_test_loan_pipeline_rejected_invalid_docs() {
    loan_pipeline_rejected_invalid_docs();
}

#[test]
fn test_loan_pipeline_test_loan_pipeline_rejected_invalid_docs() {
    loan_pipeline_rejected_invalid_docs();
}

fn loan_pipeline_rejected_low_credit() {
    let mut extractor = IntentExtractor::new(Box::new(loan_client("APP-E2E-003", 500000, "commercial")), None);
    let route_result = extractor.process("I need a commercial loan for my business").unwrap();
    assert_eq!(route_result.agent_name(), Some("LoanOrchestratorAgent"));
    let params = routed_parameters(&route_result);
    let orchestrator = LoanOrchestratorAgent::new(
        MockDocumentValidator::new("doc_validator", true),
        MockCreditChecker::new("credit_checker", 550),
        MockRiskAssessor::new("risk_assessor", "high"),
    );
    let application = build_application_from_params(&params);
    let result = orchestrator.process(&application);
    assert_eq!(result.status, WorkflowStatus::Halted);
    let decision = LoanOrchestratorAgent::decision_string(&result);
    assert!(decision.contains("Low Credit Score"));
}

#[test]
fn intent_extractor_test_loan_pipeline_rejected_low_credit() {
    loan_pipeline_rejected_low_credit();
}

#[test]
fn test_loan_pipeline_test_loan_pipeline_rejected_low_credit() {
    loan_pipeline_rejected_low_credit();
}

#[test]
fn extraction_message_wraps_input() {
    assert_eq!(extraction_message("hi"), "Extract the intent from this request:\n\nhi");
}

#[test]
fn response_without_action_names_invalid_action() {
    let reply = object(vec![("resource", text("document"))]);
    let err = intent_from_response(&reply).unwrap_err();
    assert_eq!(err, "Invalid action: invalid type: unit value, expected string or map");
}

#[test]
fn response_with_unknown_resource_names_the_variant() {
    let reply = object(vec![("action", text("create")), ("resource", text("memo"))]);
    let err = intent_from_response(&reply).unwrap_err();
    assert_eq!(
        err,
        "Invalid resource: unknown variant `memo`, expected one of `sales_report`, `server_log`, `document`, `loan_application`"
    );
}

#[test]
fn fallback_passes_chat_error_on() {
    let err = intent_from_fallback(Err("down".to_string())).unwrap_err();
    assert_eq!(err, "down");
}

#[test]
fn fallback_parses_reply() {
    let intent = intent_from_fallback(Ok("{\"action\":\"find\",\"resource\":\"document\"}".to_string())).unwrap();
    assert_eq!(intent.action, ActionType::Find);
    assert_eq!(intent.resource, ResourceType::Document);
    assert_eq!(intent.parameters, object(vec![]));
}

#[test]
fn schema_is_written_with_sorted_members() {
    let text = build_intent_schema().to_text();
    assert!(text.starts_with("{\"properties\":{\"action\":{\"description\":\"The action to perform.\",\"enum\":[\"find\",\"analyze\",\"create\"],\"type\":\"string\"}"));
    assert!(text.ends_with("\"required\":[\"action\",\"resource\"],\"type\":\"object\"}"));
}

#[test]
fn process_reports_not_found_for_unserved_pair() {
    struct Client;
    impl LLMClientTrait for Client {
        fn chat(&self, _m: Vec<JsonValue>, _s: Option<&str>, _r: Option<JsonValue>) -> Result<String, String> {
            Err("no".into())
        }
        fn structured_chat(&self, _m: Vec<JsonValue>, _s: JsonValue, _p: Option<&str>) -> Result<JsonValue, String> {
            Ok(object(vec![("action", text("analyze")), ("resource", text("server_log"))]))
        }
    }
    let mut extractor = IntentExtractor::new(Box::new(Client), None);
    let route = extractor.process("look at logs").unwrap();
    assert!(!route.is_routed());
    assert_eq!(route.display(), "No agent exists that can 'analyze' a 'server_log'");
    let _ = AgentRouter::new();
}

struct CountingClient {
    calls: std::sync::Arc<std::sync::atomic::AtomicUsize>,
}

impl LLMClientTrait for CountingClient {
    fn chat(&self, _m: Vec<JsonValue>, _s: Option<&str>, _r: Option<JsonValue>) -> Result<String, String> {
        Err("no chat".into())
    }

    fn structured_chat(&self, _m: Vec<JsonValue>, _s: JsonValue, _p: Option<&str>) -> Result<JsonValue, String> {
        self.calls.fetch_add(1, std::sync::atomic::Ordering::SeqCst);
        Ok(object(vec![("action", text("find")), ("resource", text("sales_report"))]))
    }
}

#[test]
fn cache_spares_the_model_for_a_repeated_request() {
    let calls = std::sync::Arc::new(std::sync::atomic::AtomicUsize::new(0));
    let cache = ExactCache { entries: Vec::new() };
    let mut extractor =
        IntentExtractor::new(Box::new(CountingClient { calls: calls.clone() }), Some(Box::new(cache)));
    let first = extractor.extract("Find the Q1 sales report").unwrap();
    let second = extractor.extract("Find the Q1 sales report").unwrap();
    assert_eq!(calls.load(std::sync::atomic::Ordering::SeqCst), 1);
    assert_eq!(first.action, second.action);
    assert_eq!(first.resource, second.resource);
}

struct FailingCache;

impl IntentCache for FailingCache {
    fn lookup(&mut self, _query: &str) -> Result<Option<RoutingIntent>, String> {
        Err("embedding failed".into())
    }

    fn store(&mut self, _query: &str, _intent: &RoutingIntent) -> Result<(), String> {
        Ok(())
    }
}

#[test]
fn cache_error_is_passed_on() {
    let mut extractor = IntentExtractor::new(Box::new(MockLLMClient::new_valid_intent()), Some(Box::new(FailingCache)));
    assert_eq!(extractor.extract("x").unwrap_err(), "embedding failed");
    assert_eq!(extractor.process("x").unwrap_err(), "embedding failed");
}

#[test]
fn action_in_a_single_member_object_is_read() {
    let v = object(vec![("find", JsonValue::Null)]);
    assert_eq!(action_from_value(&v), Ok(ActionType::Find));
}

#[test]
fn action_with_content_is_refused() {
    let v = object(vec![("find", number(1))]);
    assert_eq!(action_from_value(&v).unwrap_err(), "invalid type: integer `1`, expected unit");
}

#[test]
fn action_object_with_two_members_is_refused() {
    let v = object(vec![("find", JsonValue::Null), ("create", JsonValue::Null)]);
    assert_eq!(action_from_value(&v).unwrap_err(), "invalid value: map, expected map with a single key");
}

#[test]
fn action_of_other_kinds_is_refused_by_kind() {
    assert_eq!(action_from_value(&number(5)).unwrap_err(), "invalid type: integer `5`, expected string or map");
    assert_eq!(
        action_from_value(&JsonValue::Number(JsonNumber::NegInt(-7))).unwrap_err(),
        "invalid type: integer `-7`, expected string or map"
    );
    assert_eq!(action_from_value(&JsonValue::Bool(true)).unwrap_err(), "invalid type: boolean `true`, expected string or map");
    assert_eq!(action_from_value(&JsonValue::Array(vec![])).unwrap_err(), "invalid type: sequence, expected string or map");
}

#[test]
fn resource_content_string_is_quoted() {
    let v = object(vec![("document", text("x"))]);
    assert_eq!(resource_from_value(&v).unwrap_err(), "invalid type: string \"x\", expected unit");
    assert_eq!(resource_from_value(&object(vec![("memo", JsonValue::Null)])).unwrap_err(),
        "unknown variant `memo`, expected one of `sales_report`, `server_log`, `document`, `loan_application`");
}
