use local_agent::json::{JsonNumber, JsonValue};
use local_agent::loan_orchestrator::{
    credit_report, credit_sufficient, document_report, documents_valid, risk_report, LoanOrchestratorAgent,
    MockCreditChecker, MockDocumentValidator, MockRiskAssessor,
};
use local_agent::supervisor::{WorkerAgent, WorkflowStatus};

fn build_valid_loan_orchestrator() -> LoanOrchestratorAgent {
    LoanOrchestratorAgent::new(
        MockDocumentValidator::new("doc_validator", true),
        MockCreditChecker::new("credit_checker", 750),
        MockRiskAssessor::new("risk_assessor", "low"),
    )
}

fn build_invalid_doc_loan_orchestrator() -> LoanOrchestratorAgent {
    LoanOrchestratorAgent::new(
        MockDocumentValidator::new("doc_validator", false),
        MockCreditChecker::new("credit_checker", 750),
        MockRiskAssessor::new("risk_assessor", "low"),
    )
}

fn build_low_credit_loan_orchestrator() -> LoanOrchestratorAgent {
    LoanOrchestratorAgent::new(
        MockDocumentValidator::new("doc_validator", true),
        MockCreditChecker::new("credit_checker", 550),
        MockRiskAssessor::new("risk_assessor", "high"),
    )
}

fn text(s: &str) -> JsonValue {
    JsonValue::Str(s.to_string())
}

fn application(applicant_id: &str, loan_amount: u64, loan_type: Option<&str>, documents: Option<Vec<&str>>) -> String {
    let mut members = vec![("applicant_id".to_string(), text(applicant_id))];
    if let Some(docs) = documents {
        members.push(("documents".to_string(), JsonValue::Array(docs.into_iter().map(text).collect())));
    }
    members.push(("loan_amount".to_string(), JsonValue::Number(JsonNumber::PosInt(loan_amount))));
    if let Some(t) = loan_type {
        members.push(("loan_type".to_string(), text(t)));
    }
    JsonValue::Object(members).to_text()
}

#[test]
fn test_loan_approval_full_workflow() {
    let orchestrator = build_valid_loan_orchestrator();
    let application = application(
        "APP-12345",
        250000,
        Some("mortgage"),
        Some(vec!["tax_return_2024", "pay_stub", "bank_statement"]),
    );
    let result = orchestrator.process(&application);
    assert_eq!(result.status, WorkflowStatus::Completed);
    assert_eq!(result.audit_entries.len(), 3);
    assert_eq!(result.audit_entries[0].step_name, "document_validation");
    assert_eq!(result.audit_entries[1].step_name, "credit_check");
    assert_eq!(result.audit_entries[2].step_name, "risk_assessment");
    assert!(result.audit_entries[0].success);
    assert!(result.audit_entries[1].success);
    assert!(result.audit_entries[2].success);
    let decision = LoanOrchestratorAgent::decision_string(&result);
    assert!(decision.contains("approved"));
    assert!(decision.contains("low"));
}

#[test]
fn test_loan_rejected_invalid_documents() {
    let orchestrator = build_invalid_doc_loan_orchestrator();
    let application = application("APP-67890", 150000, Some("personal"), Some(vec!["missing_documents"]));
    let result = orchestrator.process(&application);
    assert_eq!(result.status, WorkflowStatus::Halted);
    assert_eq!(result.audit_entries.len(), 2);
    assert!(result.audit_entries[0].success);
    assert!(!result.audit_entries[1].success);
    assert_eq!(result.audit_entries[1].step_name, "credit_check");
    assert!(result.audit_entries[1].output.contains("Condition not met"));
    let decision = LoanOrchestratorAgent::decision_string(&result);
    assert!(decision.contains("Invalid Documents"));
}

#[test]
fn test_loan_rejected_low_credit_score() {
    let orchestrator = build_low_credit_loan_orchestrator();
    let application = application("APP-11111", 500000, Some("commercial"), Some(vec!["full_documentation"]));
    let result = orchestrator.process(&application);
    assert_eq!(result.status, WorkflowStatus::Halted);
    assert_eq!(result.audit_entries.len(), 3);
    assert!(result.audit_entries[0].success);
    assert!(result.audit_entries[1].success);
    assert!(!result.audit_entries[2].success);
    assert_eq!(result.audit_entries[2].step_name, "risk_assessment");
    let decision = LoanOrchestratorAgent::decision_string(&result);
    assert!(decision.contains("Low Credit Score"));
}

#[test]
fn test_loan_workflow_audit_trail() {
    let orchestrator = build_valid_loan_orchestrator();
    let application = application("APP-AUDIT", 100000, None, None);
    let result = orchestrator.process(&application);
    for entry in &result.audit_entries {
        assert!(!entry.step_name.is_empty());
        assert!(!entry.worker_name.is_empty());
        assert!(!entry.input.is_empty());
        assert!(!entry.output.is_empty());
    }
    for entry in &result.audit_entries {
        if let Some(output) = result.step_outputs.get(&entry.step_name) {
            let parsed = JsonValue::from_text(output).unwrap();
            assert!(matches!(parsed, JsonValue::Object(_)));
        }
    }
}

#[test]
fn test_loan_workflow_sequential_delegation() {
    let orchestrator = build_valid_loan_orchestrator();
    let application = application("APP-SEQ", 300000, None, None);
    let result = orchestrator.process(&application);
    assert!(result.audit_entries[0].input.contains("APP-SEQ"));
    assert!(result.audit_entries[1].input.contains("valid"));
    assert!(result.audit_entries[2].input.contains("credit_score"));
}

#[test]
fn approved_decision_text_is_exact() {
    let result = build_valid_loan_orchestrator().process(&application("A", 1, None, None));
    assert_eq!(LoanOrchestratorAgent::decision_string(&result), "Loan approved: risk_level=low, risk_score=15");
}

#[test]
fn rejected_decision_texts_are_exact() {
    let result = build_invalid_doc_loan_orchestrator().process(&application("A", 1, None, None));
    assert_eq!(LoanOrchestratorAgent::decision_string(&result), "Application Rejected: Invalid Documents");
    let result = build_low_credit_loan_orchestrator().process(&application("A", 1, None, None));
    assert_eq!(LoanOrchestratorAgent::decision_string(&result), "Application Rejected: Low Credit Score");
}

#[test]
fn medium_risk_is_rejected_with_its_score() {
    let orchestrator = LoanOrchestratorAgent::new(
        MockDocumentValidator::new("d", true),
        MockCreditChecker::new("c", 600),
        MockRiskAssessor::new("r", "medium"),
    );
    let result = orchestrator.process(&application("APP-M", 5, None, None));
    assert_eq!(result.status, WorkflowStatus::Completed);
    assert_eq!(LoanOrchestratorAgent::decision_string(&result), "Loan rejected: risk_level=medium, risk_score=45");
    let output = result.step_outputs.get("risk_assessment").unwrap();
    assert!(output.contains("\"applicant_id\":\"unknown\""));
}

#[test]
fn worker_reports() {
    assert_eq!(
        document_report(true),
        "{\"checked\":[\"income_statement\",\"id_verification\",\"bank_statements\"],\"status\":\"valid\"}"
    );
    assert_eq!(credit_report(550), "{\"bureau\":\"Equifax\",\"credit_score\":550,\"delinquencies\":3}");
    assert_eq!(credit_report(600), "{\"bureau\":\"Equifax\",\"credit_score\":600,\"delinquencies\":0}");
    assert_eq!(
        risk_report("other", "not json"),
        "{\"applicant_id\":\"unknown\",\"decision\":\"rejected\",\"risk_level\":\"other\",\"risk_score\":50}"
    );
    assert!(documents_valid(&document_report(true)));
    assert!(!documents_valid(&document_report(false)));
    assert!(credit_sufficient(&credit_report(600)));
    assert!(!credit_sufficient(&credit_report(599)));
    assert!(!credit_sufficient("garbage"));
}

#[test]
fn mock_workers_answer_as_workers() {
    let v = MockDocumentValidator::new("dv", false);
    assert_eq!(v.name(), "dv");
    assert_eq!(v.execute("x").unwrap(), document_report(false));
    let c = MockCreditChecker::new("cc", 700);
    assert_eq!(c.execute("x").unwrap(), credit_report(700));
    let r = MockRiskAssessor::new("ra", "high");
    assert!(r.execute("{\"applicant_id\":\"Z\"}").unwrap().contains("\"risk_score\":82"));
}
