use vstd::prelude::*;
use vstd::pervasive::unreached;
use vstd::string::*;

use crate::json::{
    array_view, lemma_array_view, lemma_members_view, members_view, canonical, nests_within, parse_depth, field, json_from_text, json_text, json_to_text, parse_json, parsed_as, precedes, text_of, u64_of, Json,
    JsonNumber, JsonValue, NumberView,
};
use crate::supervisor::{
    all_registered, finalize, fresh_state, halt_message, records, registered, run, AuditRecord, Outcome, StepOutcome,
    StepPlan, Supervisor, WorkerAgent, WorkflowResult, WorkflowStatus, WorkflowStep,
};
use crate::text::{decimal, occurs_at, occurs_in, str_contains, str_eq, u64_to_decimal};

verus! {

/// The report of the document validator.
pub open spec fn document_json(valid: bool) -> Json {
    Json::Object(
        seq![
            ("checked"@, Json::Array(seq![Json::Str("income_statement"@), Json::Str("id_verification"@), Json::Str("bank_statements"@)])),
            ("status"@, Json::Str(if valid { "valid"@ } else { "invalid"@ })),
        ],
    )
}

/// The number of delinquencies the credit checker reports for `score`.
pub open spec fn delinquencies(score: u32) -> u64 {
    if score < 600 {
        3
    } else {
        0
    }
}

/// The report of the credit checker.
pub open spec fn credit_json(score: u32) -> Json {
    Json::Object(
        seq![
            ("bureau"@, Json::Str("Equifax"@)),
            ("credit_score"@, Json::Number(NumberView::PosInt(score as u64))),
            ("delinquencies"@, Json::Number(NumberView::PosInt(delinquencies(score)))),
        ],
    )
}

/// The risk score for a risk level.
pub open spec fn risk_score_of(level: Seq<char>) -> u64 {
    if level == "low"@ {
        15
    } else if level == "medium"@ {
        45
    } else if level == "high"@ {
        82
    } else {
        50
    }
}

/// The decision for a risk level: only a low risk is approved.
pub open spec fn decision_of(level: Seq<char>) -> Seq<char> {
    if level == "low"@ {
        "approved"@
    } else {
        "rejected"@
    }
}

/// The applicant named in a JSON input, or "unknown".
pub open spec fn applicant_of(input: Seq<char>) -> Seq<char> {
    match json_from_text(input) {
        Ok(v) => match field(v, "applicant_id"@) {
            Some(Json::Str(s)) => s,
            _ => "unknown"@,
        },
        Err(_) => "unknown"@,
    }
}

/// The report of the risk assessor.
pub open spec fn risk_json(level: Seq<char>, input: Seq<char>) -> Json {
    Json::Object(
        seq![
            ("applicant_id"@, Json::Str(applicant_of(input))),
            ("decision"@, Json::Str(decision_of(level))),
            ("risk_level"@, Json::Str(level)),
            ("risk_score"@, Json::Number(NumberView::PosInt(risk_score_of(level)))),
        ],
    )
}

fn text_value(s: &str) -> (r: JsonValue)
    ensures
        r.view() == Json::Str(s@),
{
    JsonValue::Str(String::from_str(s))
}

fn member(key: &str, value: JsonValue) -> (r: (String, JsonValue))
    ensures
        r.0@ == key@,
        r.1.view() == value.view(),
{
    (String::from_str(key), value)
}

/// The document validator's report, as JSON text.
pub fn document_report(valid: bool) -> (r: String)
    ensures
        r@ == json_text(document_json(valid)),
        json_from_text(r@) == parsed_as(document_json(valid)),
{
    let mut checked: Vec<JsonValue> = Vec::new();
    checked.push(text_value("income_statement"));
    checked.push(text_value("id_verification"));
    checked.push(text_value("bank_statements"));
    let status = if valid { text_value("valid") } else { text_value("invalid") };
    let mut members: Vec<(String, JsonValue)> = Vec::new();
    members.push(member("checked", JsonValue::Array(checked)));
    members.push(member("status", status));
    let v = JsonValue::Object(members);
    proof {
        lemma_array_view(checked@);
        lemma_members_view(members@);
        let items = seq![Json::Str("income_statement"@), Json::Str("id_verification"@), Json::Str("bank_statements"@)];
        assert(array_view(checked@) =~= items);
        let st = Json::Str(if valid { "valid"@ } else { "invalid"@ });
        assert(members_view(members@) =~= seq![("checked"@, Json::Array(items)), ("status"@, st)]);
        assert(v.view() == document_json(valid));
        reveal_strlit("checked");
        reveal_strlit("status");
        assert("checked"@[0] == 'c' && "status"@[0] == 's');
        assert(precedes("checked"@, "status"@));
        assert(forall|i: int| 0 <= i < items.len() ==> canonical(#[trigger] items[i]));
        assert(canonical(Json::Array(items)));
        let ms = seq![("checked"@, Json::Array(items)), ("status"@, st)];
        assert forall|i: int| 0 <= i < ms.len() implies canonical(#[trigger] ms[i].1) by {}
        assert forall|i: int| 0 <= i < ms.len() - 1 implies precedes(#[trigger] ms[i].0, ms[i + 1].0) by {}
        assert(canonical(document_json(valid)));
        assert forall|i: int| 0 <= i < items.len() implies nests_within(#[trigger] items[i], 98) by {}
        assert forall|i: int| 0 <= i < ms.len() implies nests_within(#[trigger] ms[i].1, 99) by {}
        assert(nests_within(document_json(valid), parse_depth()));
    }
    json_to_text(&v)
}

/// The credit checker's report, as JSON text.
pub fn credit_report(score: u32) -> (r: String)
    ensures
        r@ == json_text(credit_json(score)),
        json_from_text(r@) == parsed_as(credit_json(score)),
{
    let d: u64 = if score < 600 { 3 } else { 0 };
    let mut members: Vec<(String, JsonValue)> = Vec::new();
    members.push(member("bureau", text_value("Equifax")));
    members.push(member("credit_score", JsonValue::Number(JsonNumber::PosInt(score as u64))));
    members.push(member("delinquencies", JsonValue::Number(JsonNumber::PosInt(d))));
    let v = JsonValue::Object(members);
    proof {
        lemma_members_view(members@);
        assert(members_view(members@) =~= seq![
            ("bureau"@, Json::Str("Equifax"@)),
            ("credit_score"@, Json::Number(NumberView::PosInt(score as u64))),
            ("delinquencies"@, Json::Number(NumberView::PosInt(delinquencies(score)))),
        ]);
        assert(v.view() == credit_json(score));
        reveal_strlit("bureau");
        reveal_strlit("credit_score");
        reveal_strlit("delinquencies");
        assert("bureau"@[0] == 'b' && "credit_score"@[0] == 'c' && "delinquencies"@[0] == 'd');
        assert(precedes("bureau"@, "credit_score"@));
        assert(precedes("credit_score"@, "delinquencies"@));
        let ms = seq![
            ("bureau"@, Json::Str("Equifax"@)),
            ("credit_score"@, Json::Number(NumberView::PosInt(score as u64))),
            ("delinquencies"@, Json::Number(NumberView::PosInt(delinquencies(score)))),
        ];
        assert forall|i: int| 0 <= i < ms.len() implies canonical(#[trigger] ms[i].1) by {}
        assert forall|i: int| 0 <= i < ms.len() - 1 implies precedes(#[trigger] ms[i].0, ms[i + 1].0) by {
            if i == 0 {
                assert(precedes("bureau"@, "credit_score"@));
            } else {
                assert(precedes("credit_score"@, "delinquencies"@));
            }
        }
        assert(canonical(credit_json(score)));
        assert forall|i: int| 0 <= i < ms.len() implies nests_within(#[trigger] ms[i].1, 99) by {}
        assert(nests_within(credit_json(score), parse_depth()));
    }
    json_to_text(&v)
}

/// The applicant named in a JSON input, or "unknown".
fn applicant(input: &str) -> (r: String)
    ensures
        r@ == applicant_of(input@),
{
    match parse_json(input) {
        Ok(v) => match v.get("applicant_id") {
            Some(x) => match x.as_str() {
                Some(s) => s.clone(),
                None => String::from_str("unknown"),
            },
            None => String::from_str("unknown"),
        },
        Err(_) => String::from_str("unknown"),
    }
}

/// The risk score for a risk level.
fn risk_score(level: &str) -> (r: u64)
    ensures
        r == risk_score_of(level@),
{
    if str_eq(level, "low") {
        15
    } else if str_eq(level, "medium") {
        45
    } else if str_eq(level, "high") {
        82
    } else {
        50
    }
}

proof fn lemma_risk_keys_ordered()
    ensures
        precedes("risk_level"@, "risk_score"@),
{
    reveal_strlit("risk_level");
    reveal_strlit("risk_score");
    let a = "risk_level"@;
    let b = "risk_score"@;
    assert(a.drop_first() =~= seq!['i', 's', 'k', '_', 'l', 'e', 'v', 'e', 'l']);
    assert(b.drop_first() =~= seq!['i', 's', 'k', '_', 's', 'c', 'o', 'r', 'e']);
    reveal_with_fuel(precedes, 6);
    assert(precedes(seq!['l', 'e', 'v', 'e', 'l'], seq!['s', 'c', 'o', 'r', 'e']));
    assert(seq!['i', 's', 'k', '_', 'l', 'e', 'v', 'e', 'l'].drop_first() =~= seq!['s', 'k', '_', 'l', 'e', 'v', 'e', 'l']);
    assert(seq!['s', 'k', '_', 'l', 'e', 'v', 'e', 'l'].drop_first() =~= seq!['k', '_', 'l', 'e', 'v', 'e', 'l']);
    assert(seq!['k', '_', 'l', 'e', 'v', 'e', 'l'].drop_first() =~= seq!['_', 'l', 'e', 'v', 'e', 'l']);
    assert(seq!['_', 'l', 'e', 'v', 'e', 'l'].drop_first() =~= seq!['l', 'e', 'v', 'e', 'l']);
    assert(seq!['i', 's', 'k', '_', 's', 'c', 'o', 'r', 'e'].drop_first() =~= seq!['s', 'k', '_', 's', 'c', 'o', 'r', 'e']);
    assert(seq!['s', 'k', '_', 's', 'c', 'o', 'r', 'e'].drop_first() =~= seq!['k', '_', 's', 'c', 'o', 'r', 'e']);
    assert(seq!['k', '_', 's', 'c', 'o', 'r', 'e'].drop_first() =~= seq!['_', 's', 'c', 'o', 'r', 'e']);
    assert(seq!['_', 's', 'c', 'o', 'r', 'e'].drop_first() =~= seq!['s', 'c', 'o', 'r', 'e']);
}

/// The risk assessor's report on `input`, as JSON text.
pub fn risk_report(level: &str, input: &str) -> (r: String)
    ensures
        r@ == json_text(risk_json(level@, input@)),
        json_from_text(r@) == parsed_as(risk_json(level@, input@)),
{
    let decision = if str_eq(level, "low") { text_value("approved") } else { text_value("rejected") };
    let mut members: Vec<(String, JsonValue)> = Vec::new();
    members.push(member("applicant_id", JsonValue::Str(applicant(input))));
    members.push(member("decision", decision));
    members.push(member("risk_level", text_value(level)));
    members.push(member("risk_score", JsonValue::Number(JsonNumber::PosInt(risk_score(level)))));
    let v = JsonValue::Object(members);
    proof {
        lemma_members_view(members@);
        assert(members_view(members@) =~= seq![
            ("applicant_id"@, Json::Str(applicant_of(input@))),
            ("decision"@, Json::Str(decision_of(level@))),
            ("risk_level"@, Json::Str(level@)),
            ("risk_score"@, Json::Number(NumberView::PosInt(risk_score_of(level@)))),
        ]);
        assert(v.view() == risk_json(level@, input@));
        reveal_strlit("applicant_id");
        reveal_strlit("decision");
        reveal_strlit("risk_level");
        reveal_strlit("risk_score");
        assert("applicant_id"@[0] == 'a' && "decision"@[0] == 'd' && "risk_level"@[0] == 'r');
        assert(precedes("applicant_id"@, "decision"@));
        assert(precedes("decision"@, "risk_level"@));
        lemma_risk_keys_ordered();
        let ms = seq![
            ("applicant_id"@, Json::Str(applicant_of(input@))),
            ("decision"@, Json::Str(decision_of(level@))),
            ("risk_level"@, Json::Str(level@)),
            ("risk_score"@, Json::Number(NumberView::PosInt(risk_score_of(level@)))),
        ];
        assert forall|i: int| 0 <= i < ms.len() implies canonical(#[trigger] ms[i].1) by {}
        assert forall|i: int| 0 <= i < ms.len() - 1 implies precedes(#[trigger] ms[i].0, ms[i + 1].0) by {
            if i == 0 {
                assert(precedes("applicant_id"@, "decision"@));
            } else if i == 1 {
                assert(precedes("decision"@, "risk_level"@));
            } else {
                assert(precedes("risk_level"@, "risk_score"@));
            }
        }
        assert(canonical(risk_json(level@, input@)));
        assert forall|i: int| 0 <= i < ms.len() implies nests_within(#[trigger] ms[i].1, 99) by {}
        assert(nests_within(risk_json(level@, input@), parse_depth()));
    }
    json_to_text(&v)
}

/// Whether a report says its documents are valid: it is JSON whose "status" is "valid".
pub open spec fn documents_valid_in(output: Seq<char>) -> bool {
    match json_from_text(output) {
        Ok(v) => field(v, "status"@) == Some(Json::Str("valid"@)),
        Err(_) => false,
    }
}

/// The credit score a report gives: its "credit_score" when that is a non-negative integer, else 0.
pub open spec fn credit_score_in(v: Json) -> u64 {
    match field(v, "credit_score"@) {
        Some(x) => match u64_of(x) {
            Some(n) => n,
            None => 0,
        },
        None => 0,
    }
}

/// Whether a report gives a credit score of at least 600.
pub open spec fn credit_sufficient_in(output: Seq<char>) -> bool {
    match json_from_text(output) {
        Ok(v) => credit_score_in(v) >= 600,
        Err(_) => false,
    }
}

/// Whether the previous report says the documents are valid.
pub fn documents_valid(output: &str) -> (r: bool)
    ensures
        r == documents_valid_in(output@),
{
    match parse_json(output) {
        Ok(v) => match v.get("status") {
            Some(x) => match x.as_str() {
                Some(t) => str_eq(t.as_str(), "valid"),
                None => false,
            },
            None => false,
        },
        Err(_) => false,
    }
}

/// Whether the previous report gives a credit score of at least 600.
pub fn credit_sufficient(output: &str) -> (r: bool)
    ensures
        r == credit_sufficient_in(output@),
{
    match parse_json(output) {
        Ok(v) => {
            let score = match v.get("credit_score") {
                Some(x) => match x.as_u64() {
                    Some(n) => n,
                    None => 0,
                },
                None => 0,
            };
            score >= 600
        },
        Err(_) => false,
    }
}

/// Mock document validation worker.
pub struct MockDocumentValidator {
    name: String,
    valid: bool,
}

impl MockDocumentValidator {
    /// The name the worker reports.
    pub closed spec fn agent_name(self) -> Seq<char> {
        self.name@
    }

    /// Whether the worker finds the documents valid.
    pub closed spec fn finds_valid(self) -> bool {
        self.valid
    }

    pub fn new(name: &str, valid: bool) -> (r: Self)
        ensures
            r.agent_name() == name@,
            r.finds_valid() == valid,
    {
        MockDocumentValidator { name: String::from_str(name), valid }
    }
}

impl WorkerAgent for MockDocumentValidator {
    /// The worker reports the name it was made with.
    open spec fn reports_name(&self, n: Seq<char>) -> bool {
        n == self.agent_name()
    }

    /// The worker always gives its report.
    open spec fn may_return(&self, input: Seq<char>, r: Result<Seq<char>, Seq<char>>) -> bool {
        r == Ok::<Seq<char>, Seq<char>>(json_text(document_json(self.finds_valid())))
    }

    fn name(&self) -> (r: &str)
        ensures
            r@ == self.agent_name(),
    {
        self.name.as_str()
    }

    fn execute(&self, _input: &str) -> (r: Result<String, String>)
        ensures
            r is Ok && r->Ok_0@ == json_text(document_json(self.finds_valid())),
            r is Ok && json_from_text(r->Ok_0@) == parsed_as(document_json(self.finds_valid())),
    {
        Ok(document_report(self.valid))
    }
}

/// Mock credit check worker.
pub struct MockCreditChecker {
    name: String,
    credit_score: u32,
}

impl MockCreditChecker {
    /// The name the worker reports.
    pub closed spec fn agent_name(self) -> Seq<char> {
        self.name@
    }

    /// The credit score the worker reports.
    pub closed spec fn score(self) -> u32 {
        self.credit_score
    }

    pub fn new(name: &str, credit_score: u32) -> (r: Self)
        ensures
            r.agent_name() == name@,
            r.score() == credit_score,
    {
        MockCreditChecker { name: String::from_str(name), credit_score }
    }
}

impl WorkerAgent for MockCreditChecker {
    /// The worker reports the name it was made with.
    open spec fn reports_name(&self, n: Seq<char>) -> bool {
        n == self.agent_name()
    }

    /// The worker always gives its report.
    open spec fn may_return(&self, input: Seq<char>, r: Result<Seq<char>, Seq<char>>) -> bool {
        r == Ok::<Seq<char>, Seq<char>>(json_text(credit_json(self.score())))
    }

    fn name(&self) -> (r: &str)
        ensures
            r@ == self.agent_name(),
    {
        self.name.as_str()
    }

    fn execute(&self, _input: &str) -> (r: Result<String, String>)
        ensures
            r is Ok && r->Ok_0@ == json_text(credit_json(self.score())),
            r is Ok && json_from_text(r->Ok_0@) == parsed_as(credit_json(self.score())),
    {
        Ok(credit_report(self.credit_score))
    }
}

/// Mock risk assessment worker.
pub struct MockRiskAssessor {
    name: String,
    risk_level: String,
}

impl MockRiskAssessor {
    /// The name the worker reports.
    pub closed spec fn agent_name(self) -> Seq<char> {
        self.name@
    }

    /// The risk level the worker reports.
    pub closed spec fn level(self) -> Seq<char> {
        self.risk_level@
    }

    pub fn new(name: &str, risk_level: &str) -> (r: Self)
        ensures
            r.agent_name() == name@,
            r.level() == risk_level@,
    {
        MockRiskAssessor { name: String::from_str(name), risk_level: String::from_str(risk_level) }
    }
}

impl WorkerAgent for MockRiskAssessor {
    /// The worker reports the name it was made with.
    open spec fn reports_name(&self, n: Seq<char>) -> bool {
        n == self.agent_name()
    }

    /// The worker always gives its report.
    open spec fn may_return(&self, input: Seq<char>, r: Result<Seq<char>, Seq<char>>) -> bool {
        r == Ok::<Seq<char>, Seq<char>>(json_text(risk_json(self.level(), input)))
    }

    fn name(&self) -> (r: &str)
        ensures
            r@ == self.agent_name(),
    {
        self.name.as_str()
    }

    fn execute(&self, input: &str) -> (r: Result<String, String>)
        ensures
            r is Ok && r->Ok_0@ == json_text(risk_json(self.level(), input@)),
            r is Ok && json_from_text(r->Ok_0@) == parsed_as(risk_json(self.level(), input@)),
    {
        Ok(risk_report(self.risk_level.as_str(), input))
    }
}

/// The steps of the loan approval workflow.
pub open spec fn loan_plan() -> Seq<StepPlan> {
    seq![
        StepPlan { name: "document_validation"@, worker_name: "doc_validator"@, gated: false, critical: true },
        StepPlan { name: "credit_check"@, worker_name: "credit_checker"@, gated: true, critical: true },
        StepPlan { name: "risk_assessment"@, worker_name: "risk_assessor"@, gated: true, critical: true },
    ]
}

/// The names under which the loan workers are registered.
pub open spec fn loan_workers() -> Seq<Seq<char>> {
    seq!["doc_validator"@, "credit_checker"@, "risk_assessor"@]
}

/// What comes of each step of the loan workflow: the documents are validated; the credit is
/// checked only when they are valid; the risk is assessed, on the credit report, only when the
/// credit score is at least 600.
pub open spec fn loan_outcomes(valid: bool, score: u32, level: Seq<char>) -> Seq<Outcome> {
    let documents = json_text(document_json(valid));
    let credit = json_text(credit_json(score));
    if !valid {
        seq![Outcome::Output(documents), Outcome::ConditionNotMet]
    } else if score < 600 {
        seq![Outcome::Output(documents), Outcome::Output(credit), Outcome::ConditionNotMet]
    } else {
        seq![Outcome::Output(documents), Outcome::Output(credit), Outcome::Output(json_text(risk_json(level, credit)))]
    }
}

/// The reason a halted loan workflow gives for the step it halted at.
pub open spec fn halt_reason(step_name: Seq<char>) -> Seq<char> {
    if step_name == "credit_check"@ {
        "Invalid Documents"@
    } else if step_name == "risk_assessment"@ {
        "Low Credit Score"@
    } else {
        "Unknown"@
    }
}

/// A text field of a JSON object, or "unknown".
pub open spec fn text_field_or_unknown(v: Json, key: Seq<char>) -> Seq<char> {
    match field(v, key) {
        Some(x) => match text_of(x) {
            Some(s) => s,
            None => "unknown"@,
        },
        None => "unknown"@,
    }
}

/// A non-negative integer field of a JSON object, or 0.
pub open spec fn count_field_or_zero(v: Json, key: Seq<char>) -> u64 {
    match field(v, key) {
        Some(x) => match u64_of(x) {
            Some(n) => n,
            None => 0,
        },
        None => 0,
    }
}

/// The human-readable decision for a workflow's status, final output and audit.
pub open spec fn decision_text(status: WorkflowStatus, final_output: Seq<char>, audit: Seq<AuditRecord>) -> Seq<char> {
    match status {
        WorkflowStatus::Completed => {
            let v = match json_from_text(final_output) {
                Ok(v) => v,
                Err(_) => Json::Null,
            };
            "Loan "@ + text_field_or_unknown(v, "decision"@) + ": risk_level="@ + text_field_or_unknown(v, "risk_level"@)
                + ", risk_score="@ + decimal(count_field_or_zero(v, "risk_score"@) as nat)
        },
        WorkflowStatus::Halted => if audit.len() == 0 {
            "Application Rejected: No audit entries"@
        } else if occurs_in(audit.last().output, "Condition not met"@) {
            "Application Rejected: "@ + halt_reason(audit.last().step_name)
        } else {
            "Application Rejected: Unknown halt reason"@
        },
        WorkflowStatus::Failed => "Application Rejected: Critical workflow failure"@,
        WorkflowStatus::Running => "Application: Still processing"@,
    }
}

/// The decision the loan workflow reaches.
pub open spec fn loan_decision(valid: bool, score: u32, level: Seq<char>) -> Seq<char> {
    if !valid {
        "Application Rejected: "@ + "Invalid Documents"@
    } else if score < 600 {
        "Application Rejected: "@ + "Low Credit Score"@
    } else {
        "Loan "@ + decision_of(level) + ": risk_level="@ + level + ", risk_score="@ + decimal(risk_score_of(level) as nat)
    }
}

proof fn lemma_run2(plan: Seq<StepPlan>, goal: Seq<char>, s: crate::supervisor::RunState, a: Outcome, b: Outcome)
    ensures
        run(plan, goal, s, seq![a, b]) == crate::supervisor::transition(plan, goal, crate::supervisor::transition(plan, goal, s, a), b),
{
    assert(seq![a, b].drop_last() =~= seq![a]);
    assert(seq![a].drop_last() =~= Seq::<Outcome>::empty());
    assert(run(plan, goal, s, Seq::<Outcome>::empty()) == s);
    assert(run(plan, goal, s, seq![a]) == crate::supervisor::transition(plan, goal, s, a));
}

proof fn lemma_run3(plan: Seq<StepPlan>, goal: Seq<char>, s: crate::supervisor::RunState, a: Outcome, b: Outcome, c: Outcome)
    ensures
        run(plan, goal, s, seq![a, b, c]) == crate::supervisor::transition(
            plan,
            goal,
            crate::supervisor::transition(plan, goal, crate::supervisor::transition(plan, goal, s, a), b),
            c,
        ),
{
    assert(seq![a, b, c].drop_last() =~= seq![a, b]);
    lemma_run2(plan, goal, s, a, b);
}

proof fn lemma_halt_mentions_condition()
    ensures
        occurs_in(halt_message(), "Condition not met"@),
{
    reveal_strlit("Condition not met, workflow halted");
    reveal_strlit("Condition not met");
    assert(halt_message().subrange(0, 17) =~= "Condition not met"@);
    assert(occurs_at(halt_message(), "Condition not met"@, 0));
}

proof fn lemma_document_status(valid: bool)
    ensures
        field(document_json(valid), "status"@) == Some(Json::Str(if valid { "valid"@ } else { "invalid"@ })),
        json_from_text(json_text(document_json(valid))) == parsed_as(document_json(valid)) ==> documents_valid_in(
            json_text(document_json(valid)),
        ) == valid,
{
    reveal_strlit("valid");
    reveal_strlit("invalid");
    assert("valid"@.len() == 5 && "invalid"@.len() == 7);
    let ms = seq![
        ("checked"@, Json::Array(seq![Json::Str("income_statement"@), Json::Str("id_verification"@), Json::Str("bank_statements"@)])),
        ("status"@, Json::Str(if valid { "valid"@ } else { "invalid"@ })),
    ];
    assert(ms.last().0 == "status"@);
}

proof fn lemma_credit_score(score: u32)
    ensures
        credit_score_in(credit_json(score)) == score,
{
    reveal_strlit("credit_score");
    reveal_strlit("delinquencies");
    assert("credit_score"@.len() == 12 && "delinquencies"@.len() == 13);
    let ms = seq![
        ("bureau"@, Json::Str("Equifax"@)),
        ("credit_score"@, Json::Number(NumberView::PosInt(score as u64))),
        ("delinquencies"@, Json::Number(NumberView::PosInt(delinquencies(score)))),
    ];
    assert(ms.drop_last() =~= seq![ms[0], ms[1]]);
    assert(crate::json::member(ms, "credit_score"@) == crate::json::member(ms.drop_last(), "credit_score"@));
}

proof fn lemma_risk_fields(level: Seq<char>, input: Seq<char>)
    ensures
        field(risk_json(level, input), "decision"@) == Some(Json::Str(decision_of(level))),
        field(risk_json(level, input), "risk_level"@) == Some(Json::Str(level)),
        field(risk_json(level, input), "risk_score"@) == Some(Json::Number(NumberView::PosInt(risk_score_of(level)))),
{
    reveal_strlit("decision");
    reveal_strlit("risk_level");
    reveal_strlit("risk_score");
    assert("decision"@.len() == 8 && "risk_level"@.len() == 10 && "risk_score"@.len() == 10);
    assert("risk_score"@[5] != "risk_level"@[5]);
    let ms = seq![
        ("applicant_id"@, Json::Str(applicant_of(input))),
        ("decision"@, Json::Str(decision_of(level))),
        ("risk_level"@, Json::Str(level)),
        ("risk_score"@, Json::Number(NumberView::PosInt(risk_score_of(level)))),
    ];
    assert(ms.drop_last() =~= seq![ms[0], ms[1], ms[2]]);
    assert(ms.drop_last().drop_last() =~= seq![ms[0], ms[1]]);
    assert(crate::json::member(ms, "risk_level"@) == crate::json::member(ms.drop_last(), "risk_level"@));
    assert(crate::json::member(ms, "decision"@) == crate::json::member(ms.drop_last(), "decision"@));
    assert(crate::json::member(ms.drop_last(), "decision"@) == crate::json::member(ms.drop_last().drop_last(), "decision"@));
}

/// Orchestrates the loan approval workflow using a Supervisor:
/// 1. the document validator validates documents;
/// 2. the credit checker checks credit (only if the documents are valid);
/// 3. the risk assessor assesses risk (only if the credit score is at least 600);
/// 4. the final decision is assembled from the risk assessment.
pub struct LoanOrchestratorAgent {
    doc_validator: MockDocumentValidator,
    credit_checker: MockCreditChecker,
    risk_assessor: MockRiskAssessor,
}

impl LoanOrchestratorAgent {
    /// Whether the document validator finds the documents valid.
    pub closed spec fn documents_ok(self) -> bool {
        self.doc_validator.finds_valid()
    }

    /// The credit score the credit checker reports.
    pub closed spec fn score(self) -> u32 {
        self.credit_checker.score()
    }

    /// The risk level the risk assessor reports.
    pub closed spec fn level(self) -> Seq<char> {
        self.risk_assessor.level()
    }

    pub fn new(doc_validator: MockDocumentValidator, credit_checker: MockCreditChecker, risk_assessor: MockRiskAssessor) -> (r: Self)
        ensures
            r.documents_ok() == doc_validator.finds_valid(),
            r.score() == credit_checker.score(),
            r.level() == risk_assessor.level(),
    {
        LoanOrchestratorAgent { doc_validator, credit_checker, risk_assessor }
    }

    fn registered_worker(b: crate::supervisor::SupervisorBuilder, name: &str, worker: Box<dyn WorkerAgent>) -> (r: crate::supervisor::SupervisorBuilder)
        requires
            !b.worker_names().contains(name@),
        ensures
            r.worker_names() == b.worker_names().push(name@),
            r.plan() == b.plan(),
            r.goal() == b.goal(),
    {
        match b.register(String::from_str(name), worker) {
            Ok(next) => next,
            Err(_) => unreached(),
        }
    }

    /// The supervisor for the loan workflow on `application_data`.
    fn supervisor(&self, application_data: &str) -> (r: Supervisor)
        ensures
            r.plan() == loan_plan(),
            r.goal() == application_data@,
            r.worker_names() == loan_workers(),
            r.state() == fresh_state(),
    {
        proof {
            reveal_strlit("doc_validator");
            reveal_strlit("credit_checker");
            reveal_strlit("risk_assessor");
        }
        let b = Supervisor::builder(application_data);
        let validator: Box<dyn WorkerAgent> = Box::new(MockDocumentValidator::new("doc_validator", self.doc_validator.valid));
        let b = Self::registered_worker(b, "doc_validator", validator);
        let checker: Box<dyn WorkerAgent> = Box::new(MockCreditChecker::new("credit_checker", self.credit_checker.credit_score));
        assert(b.worker_names() =~= seq!["doc_validator"@]);
        assert("credit_checker"@.len() != "doc_validator"@.len());
        let b = Self::registered_worker(b, "credit_checker", checker);
        let assessor: Box<dyn WorkerAgent> = Box::new(MockRiskAssessor::new("risk_assessor", self.risk_assessor.risk_level.as_str()));
        assert(b.worker_names() =~= seq!["doc_validator"@, "credit_checker"@]);
        assert("risk_assessor"@[0] != "doc_validator"@[0]);
        assert("risk_assessor"@.len() != "credit_checker"@.len());
        let b = Self::registered_worker(b, "risk_assessor", assessor);
        assert(b.worker_names() =~= loan_workers());
        let b = b.add_step(WorkflowStep::new("document_validation", "doc_validator"));
        let b = b.add_step(WorkflowStep::new("credit_check", "credit_checker").with_condition(|output: &str| documents_valid(output)));
        let b = b.add_step(WorkflowStep::new("risk_assessment", "risk_assessor").with_condition(|output: &str| credit_sufficient(output)));
        assert(b.plan() =~= loan_plan());
        assert(registered(loan_workers(), loan_workers()[0]));
        assert(registered(loan_workers(), loan_workers()[1]));
        assert(registered(loan_workers(), loan_workers()[2]));
        assert(all_registered(loan_workers(), loan_plan()));
        match b.build() {
            Ok(s) => s,
            Err(_) => unreached(),
        }
    }

    /// Runs the full loan approval workflow on the given application data, step by step: each
    /// worker's report is recorded as its step's outcome, and a step whose gate does not hold on
    /// the previous report halts the workflow.
    pub fn process(&self, application_data: &str) -> (r: WorkflowResult)
        ensures
            r.reports(
                finalize(
                    loan_plan(),
                    run(loan_plan(), application_data@, fresh_state(), loan_outcomes(self.documents_ok(), self.score(), self.level())),
                ),
            ),
            r.status == if self.documents_ok() && self.score() >= 600 {
                WorkflowStatus::Completed
            } else {
                WorkflowStatus::Halted
            },
            r.audit_entries@.len() == if self.documents_ok() { 3int } else { 2int },
            decision_text(r.status, r.final_output@, records(r.audit_entries@)) == loan_decision(
                self.documents_ok(),
                self.score(),
                self.level(),
            ),
    {
        let ghost valid = self.documents_ok();
        let ghost score = self.score();
        let ghost level = self.level();
        let ghost app = application_data@;
        let ghost plan = loan_plan();
        let mut sup = self.supervisor(application_data);
        let documents = match self.doc_validator.execute(application_data) {
            Ok(out) => out,
            Err(_) => unreached(),
        };
        let ghost d = documents@;
        let ghost s0 = sup.state();
        sup.record_outcome(StepOutcome::Output(documents.clone()));
        let ghost s1 = sup.state();
        proof {
            lemma_document_status(valid);
        }
        if documents_valid(documents.as_str()) {
            let credit = match self.credit_checker.execute(documents.as_str()) {
                Ok(out) => out,
                Err(_) => unreached(),
            };
            let ghost c = credit@;
            sup.record_outcome(StepOutcome::Output(credit.clone()));
            let ghost s2 = sup.state();
            proof {
                lemma_credit_score(score);
            }
            if credit_sufficient(credit.as_str()) {
                let risk = match self.risk_assessor.execute(credit.as_str()) {
                    Ok(out) => out,
                    Err(_) => unreached(),
                };
                let ghost k = risk@;
                sup.record_outcome(StepOutcome::Output(risk));
                proof {
                    lemma_run3(plan, app, s0, Outcome::Output(d), Outcome::Output(c), Outcome::Output(k));
                    lemma_risk_fields(level, c);
                }
            } else {
                sup.record_outcome(StepOutcome::ConditionNotMet);
                proof {
                    lemma_run3(plan, app, s0, Outcome::Output(d), Outcome::Output(c), Outcome::ConditionNotMet);
                    lemma_halt_mentions_condition();
                    reveal_strlit("risk_assessment");
                    reveal_strlit("credit_check");
                    assert("risk_assessment"@.len() != "credit_check"@.len());
                }
            }
        } else {
            sup.record_outcome(StepOutcome::ConditionNotMet);
            proof {
                lemma_run2(plan, app, s0, Outcome::Output(d), Outcome::ConditionNotMet);
                lemma_halt_mentions_condition();
            }
        }
        sup.finish()
    }

    /// Returns a human-readable decision string from a workflow result.
    pub fn decision_string(result: &WorkflowResult) -> (r: String)
        ensures
            r@ == decision_text(result.status, result.final_output@, records(result.audit_entries@)),
    {
        match result.status {
            WorkflowStatus::Completed => {
                let parsed = parse_json(result.final_output.as_str());
                let v = match parsed {
                    Ok(v) => v,
                    Err(_) => JsonValue::Null,
                };
                let decision = Self::text_field(&v, "decision");
                let level = Self::text_field(&v, "risk_level");
                let score = match v.get("risk_score") {
                    Some(x) => match x.as_u64() {
                        Some(n) => n,
                        None => 0,
                    },
                    None => 0,
                };
                String::from_str("Loan ").concat(decision.as_str()).concat(": risk_level=").concat(level.as_str()).concat(
                    ", risk_score=",
                ).concat(u64_to_decimal(score).as_str())
            },
            WorkflowStatus::Halted => {
                let n = result.audit_entries.len();
                if n == 0 {
                    String::from_str("Application Rejected: No audit entries")
                } else {
                    let entry = &result.audit_entries[n - 1];
                    assert(records(result.audit_entries@).last() == entry@);
                    if str_contains(entry.output.as_str(), "Condition not met") {
                        let reason = if str_eq(entry.step_name.as_str(), "credit_check") {
                            "Invalid Documents"
                        } else if str_eq(entry.step_name.as_str(), "risk_assessment") {
                            "Low Credit Score"
                        } else {
                            "Unknown"
                        };
                        String::from_str("Application Rejected: ").concat(reason)
                    } else {
                        String::from_str("Application Rejected: Unknown halt reason")
                    }
                }
            },
            WorkflowStatus::Failed => String::from_str("Application Rejected: Critical workflow failure"),
            WorkflowStatus::Running => String::from_str("Application: Still processing"),
        }
    }

    /// A text field of a JSON object, or "unknown".
    fn text_field(v: &JsonValue, key: &str) -> (r: String)
        ensures
            r@ == text_field_or_unknown(v.view(), key@),
    {
        match v.get(key) {
            Some(x) => match x.as_str() {
                Some(s) => s.clone(),
                None => String::from_str("unknown"),
            },
            None => String::from_str("unknown"),
        }
    }
}

/// Law of the loan decision: once the documents are valid and the credit score is at least 600,
/// the loan is approved exactly when the risk level is "low", and the risk assessor's report
/// says so.
pub proof fn law_approved_only_at_low_risk(score: u32, level: Seq<char>, input: Seq<char>)
    requires
        score >= 600,
    ensures
        level == "low"@ ==> loan_decision(true, score, level).subrange(0, 13) == "Loan approved"@,
        level != "low"@ ==> loan_decision(true, score, level).subrange(0, 13) == "Loan rejected"@,
        field(risk_json(level, input), "decision"@) == Some(
            Json::Str(
                if level == "low"@ {
                    "approved"@
                } else {
                    "rejected"@
                },
            ),
        ),
{
    reveal_strlit("Loan ");
    reveal_strlit("approved");
    reveal_strlit("rejected");
    reveal_strlit("Loan approved");
    reveal_strlit("Loan rejected");
    lemma_risk_fields(level, input);
    let d = loan_decision(true, score, level);
    let rest = ": risk_level="@ + level + ", risk_score="@ + decimal(risk_score_of(level) as nat);
    assert(d =~= "Loan "@ + decision_of(level) + rest);
    assert(d.subrange(0, 13) =~= ("Loan "@ + decision_of(level)));
}

} // verus!
