use local_agent::json::JsonValue;
use local_agent::supervisor::{Supervisor, WorkerAgent, WorkflowStatus, WorkflowStep};
use std::sync::atomic::{AtomicUsize, Ordering};
use std::sync::Arc;

struct EchoWorker {
    name: String,
}
impl WorkerAgent for EchoWorker {
    fn name(&self) -> &str {
        &self.name
    }
    fn execute(&self, input: &str) -> Result<String, String> {
        Ok(format!("echoed: {input}"))
    }
}

struct PrefixWorker {
    name: String,
    prefix: String,
}
impl WorkerAgent for PrefixWorker {
    fn name(&self) -> &str {
        &self.name
    }
    fn execute(&self, input: &str) -> Result<String, String> {
        Ok(format!("{}{}", self.prefix, input))
    }
}

struct FailWorker {
    name: String,
    error_msg: String,
}
impl WorkerAgent for FailWorker {
    fn name(&self) -> &str {
        &self.name
    }
    fn execute(&self, _input: &str) -> Result<String, String> {
        Err(self.error_msg.clone())
    }
}

struct CountWorker {
    name: String,
    count: Arc<AtomicUsize>,
}
impl WorkerAgent for CountWorker {
    fn name(&self) -> &str {
        &self.name
    }
    fn execute(&self, input: &str) -> Result<String, String> {
        let n = self.count.fetch_add(1, Ordering::SeqCst) + 1;
        Ok(format!("{input} (call #{n})"))
    }
}

fn echo(name: &str) -> Box<dyn WorkerAgent> {
    Box::new(EchoWorker { name: name.into() })
}

fn output_of(result: &local_agent::supervisor::WorkflowResult, step: &str) -> String {
    result.step_outputs.get(step).expect("step output").clone()
}

fn creates_with_workers() {
    let result = Supervisor::builder("process loan")
        .add_worker(echo("validator"))
        .unwrap()
        .add_worker(echo("checker"))
        .unwrap()
        .build();
    assert!(result.is_ok());
}

#[test]
fn supervisor_test_supervisor_creates_with_workers() {
    creates_with_workers();
}

#[test]
fn test_supervisor_test_supervisor_creates_with_workers() {
    creates_with_workers();
}

fn rejects_no_workers() {
    let result = Supervisor::builder("goal").build();
    assert!(result.is_err());
    assert!(result.err().unwrap().contains("at least one worker"));
}

#[test]
fn supervisor_test_supervisor_rejects_no_workers() {
    rejects_no_workers();
}

#[test]
fn test_supervisor_test_supervisor_rejects_no_workers() {
    rejects_no_workers();
}

fn rejects_duplicate_workers() {
    let result = Supervisor::builder("goal").add_worker(echo("same")).unwrap().add_worker(echo("same"));
    assert!(result.is_err());
    assert!(result.err().unwrap().contains("Duplicate"));
}

#[test]
fn supervisor_test_supervisor_rejects_duplicate_workers() {
    rejects_duplicate_workers();
}

#[test]
fn test_supervisor_test_supervisor_rejects_duplicate_workers() {
    rejects_duplicate_workers();
}

fn sequential_two_steps() {
    let mut sup = Supervisor::builder("initial")
        .add_worker(echo("step1"))
        .unwrap()
        .add_worker(Box::new(PrefixWorker { name: "step2".into(), prefix: "[PREFIX]".into() }))
        .unwrap()
        .add_step(WorkflowStep::new("validate", "step1"))
        .add_step(WorkflowStep::new("prefix", "step2"))
        .build()
        .unwrap();
    let result = sup.execute();
    assert_eq!(result.status, WorkflowStatus::Completed);
    assert_eq!(output_of(&result, "validate"), "echoed: initial");
    assert_eq!(output_of(&result, "prefix"), "[PREFIX]echoed: initial");
}

#[test]
fn supervisor_test_supervisor_sequential_two_steps() {
    sequential_two_steps();
}

#[test]
fn test_supervisor_test_supervisor_sequential_two_steps() {
    sequential_two_steps();
}

fn sequential_three_steps() {
    let count = Arc::new(AtomicUsize::new(0));
    let mut sup = Supervisor::builder("start")
        .add_worker(echo("w1"))
        .unwrap()
        .add_worker(Box::new(CountWorker { name: "w2".into(), count: count.clone() }))
        .unwrap()
        .add_worker(echo("w3"))
        .unwrap()
        .add_step(WorkflowStep::new("s1", "w1"))
        .add_step(WorkflowStep::new("s2", "w2"))
        .add_step(WorkflowStep::new("s3", "w3"))
        .build()
        .unwrap();
    let result = sup.execute();
    assert_eq!(result.status, WorkflowStatus::Completed);
    assert_eq!(result.audit_entries.len(), 3);
    assert_eq!(result.audit_entries[0].step_name, "s1");
    assert_eq!(result.audit_entries[1].step_name, "s2");
    assert_eq!(result.audit_entries[2].step_name, "s3");
    assert_eq!(count.load(Ordering::SeqCst), 1);
}

#[test]
fn supervisor_test_supervisor_sequential_three_steps() {
    sequential_three_steps();
}

#[test]
fn test_supervisor_test_supervisor_sequential_three_steps() {
    sequential_three_steps();
}

fn final_result() {
    let mut sup = Supervisor::builder("goal")
        .add_worker(Box::new(PrefixWorker { name: "worker".into(), prefix: "DONE:".into() }))
        .unwrap()
        .add_step(WorkflowStep::new("final_step", "worker"))
        .build()
        .unwrap();
    let result = sup.execute();
    assert_eq!(result.status, WorkflowStatus::Completed);
    assert_eq!(result.final_output, "DONE:goal");
}

#[test]
fn supervisor_test_supervisor_final_result() {
    final_result();
}

#[test]
fn test_supervisor_test_supervisor_final_result() {
    final_result();
}

fn condition_met_continues() {
    let mut sup = Supervisor::builder("valid data")
        .add_worker(echo("validator"))
        .unwrap()
        .add_worker(echo("processor"))
        .unwrap()
        .add_step(WorkflowStep::new("validate", "validator"))
        .add_step(WorkflowStep::new("process", "processor").with_condition(|output: &str| output.contains("echoed")))
        .build()
        .unwrap();
    let result = sup.execute();
    assert_eq!(result.status, WorkflowStatus::Completed);
    assert_eq!(result.audit_entries.len(), 2);
}

#[test]
fn supervisor_test_supervisor_condition_met_continues() {
    condition_met_continues();
}

#[test]
fn test_supervisor_test_supervisor_condition_met_continues() {
    condition_met_continues();
}

fn condition_not_met_halts() {
    let mut sup = Supervisor::builder("initial")
        .add_worker(echo("validator"))
        .unwrap()
        .add_worker(echo("processor"))
        .unwrap()
        .add_step(WorkflowStep::new("validate", "validator"))
        .add_step(WorkflowStep::new("process", "processor").with_condition(|_output: &str| false))
        .build()
        .unwrap();
    let result = sup.execute();
    assert_eq!(result.status, WorkflowStatus::Halted);
    assert_eq!(result.audit_entries.len(), 2);
    assert!(result.audit_entries[1].output.contains("Condition not met"));
}

#[test]
fn supervisor_test_supervisor_condition_not_met_halts() {
    condition_not_met_halts();
}

#[test]
fn test_supervisor_test_supervisor_condition_not_met_halts() {
    condition_not_met_halts();
}

fn terminal_halt() {
    let mut sup = Supervisor::builder("initial")
        .add_worker(echo("w1"))
        .unwrap()
        .add_worker(echo("w2"))
        .unwrap()
        .add_worker(echo("w3"))
        .unwrap()
        .add_step(WorkflowStep::new("s1", "w1"))
        .add_step(WorkflowStep::new("s2", "w2").with_condition(|_: &str| false))
        .add_step(WorkflowStep::new("s3", "w3"))
        .build()
        .unwrap();
    let result = sup.execute();
    assert_eq!(result.status, WorkflowStatus::Halted);
    assert!(!result.step_outputs.contains_key("s3"));
}

#[test]
fn supervisor_test_supervisor_terminal_halt() {
    terminal_halt();
}

#[test]
fn test_supervisor_test_supervisor_terminal_halt() {
    terminal_halt();
}

fn retry_failed_worker() {
    let mut sup = Supervisor::builder("goal")
        .add_worker(Box::new(FailWorker { name: "flaky".into(), error_msg: "temporary failure".into() }))
        .unwrap()
        .add_worker(echo("recovery"))
        .unwrap()
        .add_step(WorkflowStep::new("flaky_step", "flaky").non_critical())
        .add_step(WorkflowStep::new("recover", "recovery"))
        .build()
        .unwrap();
    let result = sup.execute();
    assert_ne!(result.status, WorkflowStatus::Failed);
    assert_eq!(result.status, WorkflowStatus::Completed);
    assert!(!result.audit_entries[0].success);
    assert!(result.audit_entries[1].success);
}

#[test]
fn supervisor_test_supervisor_retry_failed_worker() {
    retry_failed_worker();
}

#[test]
fn test_supervisor_test_supervisor_retry_failed_worker() {
    retry_failed_worker();
}

fn non_critical_failure_partial_results() {
    let mut sup = Supervisor::builder("goal")
        .add_worker(echo("good"))
        .unwrap()
        .add_worker(Box::new(FailWorker { name: "bad".into(), error_msg: "oops".into() }))
        .unwrap()
        .add_step(WorkflowStep::new("good_step", "good"))
        .add_step(WorkflowStep::new("bad_step", "bad").non_critical())
        .build()
        .unwrap();
    let result = sup.execute();
    assert_eq!(result.status, WorkflowStatus::Completed);
    assert!(result.step_outputs.contains_key("good_step"));
    assert!(!result.step_outputs.contains_key("bad_step"));
}

#[test]
fn supervisor_test_supervisor_non_critical_failure_partial_results() {
    non_critical_failure_partial_results();
}

#[test]
fn test_supervisor_test_supervisor_non_critical_failure_partial_results() {
    non_critical_failure_partial_results();
}

fn critical_failure_aborts() {
    let mut sup = Supervisor::builder("goal")
        .add_worker(echo("good"))
        .unwrap()
        .add_worker(Box::new(FailWorker { name: "bad".into(), error_msg: "critical error".into() }))
        .unwrap()
        .add_worker(echo("never_runs"))
        .unwrap()
        .add_step(WorkflowStep::new("good_step", "good"))
        .add_step(WorkflowStep::new("bad_step", "bad"))
        .add_step(WorkflowStep::new("final_step", "never_runs"))
        .build()
        .unwrap();
    let result = sup.execute();
    assert_eq!(result.status, WorkflowStatus::Failed);
    assert!(!result.step_outputs.contains_key("final_step"));
    assert_eq!(result.audit_entries.len(), 2);
}

#[test]
fn supervisor_test_supervisor_critical_failure_aborts() {
    critical_failure_aborts();
}

#[test]
fn test_supervisor_test_supervisor_critical_failure_aborts() {
    critical_failure_aborts();
}

struct StructuredWorker;
impl WorkerAgent for StructuredWorker {
    fn name(&self) -> &str {
        "structured"
    }
    fn execute(&self, input: &str) -> Result<String, String> {
        let mut obj = serde_json::Map::new();
        obj.insert("status".into(), serde_json::Value::String("ok".into()));
        obj.insert("data".into(), serde_json::Value::String(input.into()));
        Ok(serde_json::Value::Object(obj).to_string())
    }
}

fn field_text(v: &JsonValue, key: &str) -> Option<String> {
    v.get(key).and_then(|x| x.as_str()).cloned()
}

fn worker_output_is_structured() {
    let mut sup = Supervisor::builder("query")
        .add_worker(Box::new(StructuredWorker))
        .unwrap()
        .add_step(WorkflowStep::new("analyze", "structured"))
        .build()
        .unwrap();
    let result = sup.execute();
    let output = output_of(&result, "analyze");
    let parsed = JsonValue::from_text(&output).unwrap();
    assert_eq!(field_text(&parsed, "status"), Some("ok".to_string()));
    assert_eq!(field_text(&parsed, "data"), Some("query".to_string()));
}

#[test]
fn supervisor_test_supervisor_worker_output_is_structured() {
    worker_output_is_structured();
}

#[test]
fn test_supervisor_test_supervisor_worker_output_is_structured() {
    worker_output_is_structured();
}

struct JsonPassWorker {
    name: String,
}
impl WorkerAgent for JsonPassWorker {
    fn name(&self) -> &str {
        &self.name
    }
    fn execute(&self, input: &str) -> Result<String, String> {
        let mut obj: serde_json::Value = serde_json::from_str(input).unwrap_or_else(|_| {
            let mut m = serde_json::Map::new();
            m.insert("steps".into(), serde_json::Value::Array(Vec::new()));
            serde_json::Value::Object(m)
        });
        obj["steps"].as_array_mut().unwrap().push(serde_json::Value::String(self.name.clone()));
        Ok(obj.to_string())
    }
}

fn empty_steps_json() -> String {
    let mut m = serde_json::Map::new();
    m.insert("steps".into(), serde_json::Value::Array(Vec::new()));
    serde_json::Value::Object(m).to_string()
}

fn structured_context_passing() {
    let mut sup = Supervisor::builder(empty_steps_json().as_str())
        .add_worker(Box::new(JsonPassWorker { name: "first".into() }))
        .unwrap()
        .add_worker(Box::new(JsonPassWorker { name: "second".into() }))
        .unwrap()
        .add_step(WorkflowStep::new("s1", "first"))
        .add_step(WorkflowStep::new("s2", "second"))
        .build()
        .unwrap();
    let result = sup.execute();
    let final_json: serde_json::Value = serde_json::from_str(&result.final_output).unwrap();
    let steps = final_json["steps"].as_array().unwrap();
    assert_eq!(steps.len(), 2);
    assert_eq!(steps[0], "first");
    assert_eq!(steps[1], "second");
}

#[test]
fn supervisor_test_supervisor_structured_context_passing() {
    structured_context_passing();
}

#[test]
fn test_supervisor_test_supervisor_structured_context_passing() {
    structured_context_passing();
}

fn audit_trail_records_details() {
    let mut sup = Supervisor::builder("my goal")
        .add_worker(echo("worker"))
        .unwrap()
        .add_step(WorkflowStep::new("my_step", "worker"))
        .build()
        .unwrap();
    let result = sup.execute();
    assert_eq!(result.audit_entries.len(), 1);
    let entry = &result.audit_entries[0];
    assert_eq!(entry.step_name, "my_step");
    assert_eq!(entry.worker_name, "worker");
    assert_eq!(entry.input, "my goal");
    assert!(entry.success);
}

#[test]
fn supervisor_test_supervisor_audit_trail_records_details() {
    audit_trail_records_details();
}

#[test]
fn test_supervisor_test_supervisor_audit_trail_records_details() {
    audit_trail_records_details();
}

fn audit_in_result() {
    let mut sup = Supervisor::builder("goal")
        .add_worker(echo("w"))
        .unwrap()
        .add_step(WorkflowStep::new("s1", "w"))
        .add_step(WorkflowStep::new("s2", "w"))
        .build()
        .unwrap();
    let result = sup.execute();
    assert_eq!(result.audit_entries.len(), 2);
    assert_eq!(result.audit_entries[0].step_name, "s1");
    assert_eq!(result.audit_entries[1].step_name, "s2");
}

#[test]
fn supervisor_test_supervisor_audit_in_result() {
    audit_in_result();
}

#[test]
fn test_supervisor_test_supervisor_audit_in_result() {
    audit_in_result();
}

struct DomainWorker;
impl WorkerAgent for DomainWorker {
    fn name(&self) -> &str {
        "domain"
    }
    fn execute(&self, input: &str) -> Result<String, String> {
        Ok(format!("processed-domain-{}", input))
    }
}

fn no_domain_logic() {
    let mut sup = Supervisor::builder("data")
        .add_worker(Box::new(DomainWorker))
        .unwrap()
        .add_step(WorkflowStep::new("process", "domain"))
        .build()
        .unwrap();
    let result = sup.execute();
    assert_eq!(output_of(&result, "process"), "processed-domain-data");
}

#[test]
fn supervisor_test_supervisor_no_domain_logic() {
    no_domain_logic();
}

#[test]
fn test_supervisor_test_supervisor_no_domain_logic() {
    no_domain_logic();
}

fn worker_independent() {
    let worker = EchoWorker { name: "standalone".into() };
    let output = worker.execute("hello").unwrap();
    assert_eq!(output, "echoed: hello");
    assert_eq!(worker.name(), "standalone");
}

#[test]
fn supervisor_test_worker_independent_of_supervisor() {
    worker_independent();
}

#[test]
fn test_supervisor_test_worker_independent_of_supervisor() {
    worker_independent();
}

fn rejects_unregistered_worker() {
    let result = Supervisor::builder("goal")
        .add_worker(echo("real"))
        .unwrap()
        .add_step(WorkflowStep::new("step", "nonexistent"))
        .build();
    assert!(result.is_err());
    assert!(result.err().unwrap().contains("unregistered"));
}

#[test]
fn supervisor_test_builder_rejects_unregistered_worker() {
    rejects_unregistered_worker();
}

#[test]
fn test_supervisor_test_builder_rejects_unregistered_worker() {
    rejects_unregistered_worker();
}

fn empty_steps_completes() {
    let mut sup = Supervisor::builder("goal").add_worker(echo("w")).unwrap().build().unwrap();
    let result = sup.execute();
    assert_eq!(result.status, WorkflowStatus::Completed);
    assert!(result.step_outputs.is_empty());
    assert!(result.audit_entries.is_empty());
}

#[test]
fn supervisor_test_supervisor_empty_steps_completes() {
    empty_steps_completes();
}

#[test]
fn test_supervisor_test_supervisor_empty_steps_completes() {
    empty_steps_completes();
}

fn first_step_receives_goal() {
    let mut sup = Supervisor::builder("my goal text")
        .add_worker(echo("w"))
        .unwrap()
        .add_step(WorkflowStep::new("s1", "w"))
        .build()
        .unwrap();
    let result = sup.execute();
    assert_eq!(result.audit_entries[0].input, "my goal text");
}

#[test]
fn supervisor_test_first_step_receives_goal() {
    first_step_receives_goal();
}

#[test]
fn test_supervisor_test_first_step_receives_goal() {
    first_step_receives_goal();
}

#[test]
fn halted_step_records_condition_message_and_keeps_earlier_outputs() {
    let mut sup = Supervisor::builder("x")
        .add_worker(echo("a"))
        .unwrap()
        .add_worker(echo("b"))
        .unwrap()
        .add_step(WorkflowStep::new("first", "a"))
        .add_step(WorkflowStep::new("second", "b").with_condition(|_: &str| false))
        .build()
        .unwrap();
    let result = sup.execute();
    assert_eq!(result.status, WorkflowStatus::Halted);
    assert_eq!(output_of(&result, "first"), "echoed: x");
    assert_eq!(result.final_output, "echoed: x");
    assert_eq!(result.audit_entries[1].input, "echoed: x");
    assert!(!result.audit_entries[1].success);
}

#[test]
fn failed_critical_step_records_error_in_audit() {
    let mut sup = Supervisor::builder("g")
        .add_worker(Box::new(FailWorker { name: "bad".into(), error_msg: "boom".into() }))
        .unwrap()
        .add_step(WorkflowStep::new("only", "bad"))
        .build()
        .unwrap();
    let result = sup.execute();
    assert_eq!(result.status, WorkflowStatus::Failed);
    assert_eq!(result.audit_entries.len(), 1);
    assert!(result.audit_entries[0].output.contains("boom"));
    assert!(!result.audit_entries[0].success);
    assert!(result.step_outputs.is_empty());
}

#[test]
fn context_passes_through_every_step() {
    let mut sup = Supervisor::builder("g")
        .add_worker(Box::new(PrefixWorker { name: "p".into(), prefix: "a".into() }))
        .unwrap()
        .add_step(WorkflowStep::new("s1", "p"))
        .add_step(WorkflowStep::new("s2", "p"))
        .add_step(WorkflowStep::new("s3", "p"))
        .build()
        .unwrap();
    let result = sup.execute();
    assert_eq!(result.audit_entries[1].input, "ag");
    assert_eq!(result.audit_entries[2].input, "aag");
    assert_eq!(result.final_output, "aaag");
}
