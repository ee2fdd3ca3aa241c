use vstd::prelude::*;
use vstd::string::*;

use crate::capability_router::{default_route, ActionType, AgentRouter, ResourceType, RouteResult, RoutingIntent};
use crate::json::{array_view, field, item, json_from_text, parse_json, Json, JsonNumber, JsonValue, NumberView};
use crate::llm_interface::{debug_text, quoted};
use crate::text::{decimal, u64_to_decimal};
use crate::llm_interface::{chat_message, message_json, reply_view, structured_view, LLMClientTrait};

verus! {

/// The system prompt that asks a model for an intent.
pub fn system_prompt() -> (r: &'static str)
    ensures
        r@ == intent_system_prompt(),
{
    "You are an intent extraction assistant.\n\nGiven a natural language request, extract:\n- action: one of find, analyze, create\n- resource: one of sales_report, server_log, document, loan_application\n- parameters: any relevant details as a dict\n\nIf the request doesn't match any action/resource combination,\nstill extract the closest action and resource you can infer."
}

/// The text of the system prompt that asks a model for an intent.
pub open spec fn intent_system_prompt() -> Seq<char> {
    "You are an intent extraction assistant.\n\nGiven a natural language request, extract:\n- action: one of find, analyze, create\n- resource: one of sales_report, server_log, document, loan_application\n- parameters: any relevant details as a dict\n\nIf the request doesn't match any action/resource combination,\nstill extract the closest action and resource you can infer."@
}

/// The text of the user message that asks for the intent of `user_input`.
pub open spec fn extraction_text(user_input: Seq<char>) -> Seq<char> {
    "Extract the intent from this request:\n\n"@ + user_input
}

/// The user message that asks for the intent of `user_input`.
pub fn extraction_message(user_input: &str) -> (r: String)
    ensures
        r@ == extraction_text(user_input@),
{
    String::from_str("Extract the intent from this request:\n\n").concat(user_input)
}

/// The messages of an extraction request: one user message that asks for the intent of
/// `user_input`.
pub fn extraction_messages(user_input: &str) -> (r: Vec<JsonValue>)
    ensures
        array_view(r@) == seq![message_json("user"@, extraction_text(user_input@))],
{
    let content = extraction_message(user_input);
    let mut messages: Vec<JsonValue> = Vec::new();
    messages.push(chat_message("user", content.as_str()));
    proof {
        crate::json::lemma_array_view(messages@);
        assert(array_view(messages@) =~= seq![message_json("user"@, extraction_text(user_input@))]);
    }
    messages
}

fn text(s: &str) -> (r: JsonValue)
    ensures
        r.view() == Json::Str(s@),
{
    JsonValue::Str(String::from_str(s))
}

fn push_item(items: &mut Vec<JsonValue>, item: JsonValue)
    ensures
        crate::json::array_view(final(items)@) == crate::json::array_view(old(items)@).push(item.view()),
{
    let ghost before = items@;
    items.push(item);
    proof {
        assert(items@.drop_last() =~= before);
    }
}

fn push_member(members: &mut Vec<(String, JsonValue)>, key: &str, value: JsonValue)
    ensures
        crate::json::members_view(final(members)@) == crate::json::members_view(old(members)@).push(
            (key@, value.view()),
        ),
{
    let ghost before = members@;
    members.push((String::from_str(key), value));
    proof {
        assert(members@.drop_last() =~= before);
    }
}

/// A JSON string as plain values.
pub open spec fn str_json(s: Seq<char>) -> Json {
    Json::Str(s)
}

/// The names of the actions, as JSON strings.
pub open spec fn action_names_json() -> Seq<Json> {
    seq![str_json("find"@), str_json("analyze"@), str_json("create"@)]
}

/// The names of the resources, as JSON strings.
pub open spec fn resource_names_json() -> Seq<Json> {
    seq![
        str_json("sales_report"@),
        str_json("server_log"@),
        str_json("document"@),
        str_json("loan_application"@),
    ]
}

/// The schema of one string property whose value is one of `names`.
pub open spec fn enum_property_json(description: Seq<char>, names: Seq<Json>) -> Seq<(Seq<char>, Json)> {
    seq![
        ("description"@, str_json(description)),
        ("enum"@, Json::Array(names)),
        ("type"@, str_json("string"@)),
    ]
}

/// The schema of the parameters: an object.
pub open spec fn parameters_property_json() -> Seq<(Seq<char>, Json)> {
    seq![
        ("description"@, str_json("Additional parameters extracted from the request."@)),
        ("type"@, str_json("object"@)),
    ]
}

/// The properties of an intent: its action, its parameters and its resource.
pub open spec fn intent_properties_json() -> Seq<(Seq<char>, Json)> {
    seq![
        ("action"@, Json::Object(enum_property_json("The action to perform."@, action_names_json()))),
        ("parameters"@, Json::Object(parameters_property_json())),
        ("resource"@, Json::Object(enum_property_json("The resource to act on."@, resource_names_json()))),
    ]
}

/// The members of the JSON schema of an intent, in the order serde_json keeps them.
pub open spec fn intent_schema_members() -> Seq<(Seq<char>, Json)> {
    seq![
        ("properties"@, Json::Object(intent_properties_json())),
        ("required"@, Json::Array(seq![str_json("action"@), str_json("resource"@)])),
        ("type"@, str_json("object"@)),
    ]
}

/// The JSON schema of an intent: an object with an action, a resource and parameters, of which
/// the action and the resource are required.
pub open spec fn intent_schema_json() -> Json {
    Json::Object(intent_schema_members())
}

/// The JSON schema of an intent that the structured chat is asked to follow.
pub fn build_intent_schema() -> (r: JsonValue)
    ensures
        r.view() == intent_schema_json(),
{
    let mut action_names: Vec<JsonValue> = Vec::new();
    assert(crate::json::array_view(action_names@) == Seq::<Json>::empty());
    push_item(&mut action_names, text("find"));
    push_item(&mut action_names, text("analyze"));
    push_item(&mut action_names, text("create"));
    assert(crate::json::array_view(action_names@) =~= action_names_json());
    let mut action: Vec<(String, JsonValue)> = Vec::new();
    assert(crate::json::members_view(action@) == Seq::<(Seq<char>, Json)>::empty());
    push_member(&mut action, "description", text("The action to perform."));
    push_member(&mut action, "enum", JsonValue::Array(action_names));
    push_member(&mut action, "type", text("string"));
    assert(crate::json::members_view(action@) =~= enum_property_json(
        "The action to perform."@,
        action_names_json(),
    ));

    let mut resource_names: Vec<JsonValue> = Vec::new();
    assert(crate::json::array_view(resource_names@) == Seq::<Json>::empty());
    push_item(&mut resource_names, text("sales_report"));
    push_item(&mut resource_names, text("server_log"));
    push_item(&mut resource_names, text("document"));
    push_item(&mut resource_names, text("loan_application"));
    assert(crate::json::array_view(resource_names@) =~= resource_names_json());
    let mut resource: Vec<(String, JsonValue)> = Vec::new();
    assert(crate::json::members_view(resource@) == Seq::<(Seq<char>, Json)>::empty());
    push_member(&mut resource, "description", text("The resource to act on."));
    push_member(&mut resource, "enum", JsonValue::Array(resource_names));
    push_member(&mut resource, "type", text("string"));
    assert(crate::json::members_view(resource@) =~= enum_property_json(
        "The resource to act on."@,
        resource_names_json(),
    ));

    let mut parameters: Vec<(String, JsonValue)> = Vec::new();
    assert(crate::json::members_view(parameters@) == Seq::<(Seq<char>, Json)>::empty());
    push_member(&mut parameters, "description", text("Additional parameters extracted from the request."));
    push_member(&mut parameters, "type", text("object"));
    assert(crate::json::members_view(parameters@) =~= parameters_property_json());

    let mut properties: Vec<(String, JsonValue)> = Vec::new();
    assert(crate::json::members_view(properties@) == Seq::<(Seq<char>, Json)>::empty());
    push_member(&mut properties, "action", JsonValue::Object(action));
    push_member(&mut properties, "parameters", JsonValue::Object(parameters));
    push_member(&mut properties, "resource", JsonValue::Object(resource));
    assert(crate::json::members_view(properties@) =~= intent_properties_json());

    let mut required: Vec<JsonValue> = Vec::new();
    assert(crate::json::array_view(required@) == Seq::<Json>::empty());
    push_item(&mut required, text("action"));
    push_item(&mut required, text("resource"));
    assert(crate::json::array_view(required@) =~= seq![str_json("action"@), str_json("resource"@)]);

    let mut schema: Vec<(String, JsonValue)> = Vec::new();
    assert(crate::json::members_view(schema@) == Seq::<(Seq<char>, Json)>::empty());
    push_member(&mut schema, "properties", JsonValue::Object(properties));
    push_member(&mut schema, "required", JsonValue::Array(required));
    push_member(&mut schema, "type", text("object"));
    assert(crate::json::members_view(schema@) =~= intent_schema_members());
    JsonValue::Object(schema)
}

/// How serde describes a JSON value it did not expect.
pub open spec fn unexpected_text(v: Json) -> Seq<char> {
    match v {
        Json::Null => "unit value"@,
        Json::Bool(b) => "boolean `"@ + (if b { "true"@ } else { "false"@ }) + "`"@,
        Json::Number(NumberView::PosInt(u)) => "integer `"@ + decimal(u as nat) + "`"@,
        Json::Number(NumberView::NegInt(i)) => "integer `"@ + signed_decimal(i as int) + "`"@,
        Json::Number(NumberView::Float(t)) => "floating point `"@ + t + "`"@,
        Json::Str(t) => "string "@ + debug_text(t),
        Json::Array(_) => "sequence"@,
        Json::Object(_) => "map"@,
    }
}

/// An integer in decimal, with a minus sign when it is negative.
pub open spec fn signed_decimal(i: int) -> Seq<char> {
    if i < 0 {
        "-"@ + decimal((-i) as nat)
    } else {
        decimal(i as nat)
    }
}

/// The variant a JSON value names for an enum of unit variants, as serde_json reads one: a
/// string is the variant's name; an object with a single member names the variant by its key
/// and holds its content; anything else is refused.
pub open spec fn enum_form(v: Json) -> Result<(Seq<char>, Option<Json>), Seq<char>> {
    match v {
        Json::Str(name) => Ok((name, None)),
        Json::Object(ms) => if ms.len() == 1 {
            Ok((ms[0].0, Some(ms[0].1)))
        } else {
            Err("invalid value: map, expected map with a single key"@)
        },
        _ => Err("invalid type: "@ + unexpected_text(v) + ", expected string or map"@),
    }
}

/// Whether the content of a unit variant is acceptable: none, or null.
pub open spec fn unit_content(content: Option<Json>) -> Result<(), Seq<char>> {
    match content {
        Some(x) => match x {
            Json::Null => Ok(()),
            _ => Err("invalid type: "@ + unexpected_text(x) + ", expected unit"@),
        },
        None => Ok(()),
    }
}

/// The action a JSON value names: its variant's name is that of an action, with no content.
pub open spec fn action_from_json(v: Json) -> Result<ActionType, Seq<char>> {
    match enum_form(v) {
        Err(e) => Err(e),
        Ok((name, content)) => match ActionType::named(name) {
            None => Err("unknown variant `"@ + name + "`, expected one of `find`, `analyze`, `create`"@),
            Some(a) => match unit_content(content) {
                Ok(_) => Ok(a),
                Err(e) => Err(e),
            },
        },
    }
}

/// The resource a JSON value names: its variant's name is that of a resource, with no content.
pub open spec fn resource_from_json(v: Json) -> Result<ResourceType, Seq<char>> {
    match enum_form(v) {
        Err(e) => Err(e),
        Ok((name, content)) => match ResourceType::named(name) {
            None => Err(
                "unknown variant `"@ + name
                    + "`, expected one of `sales_report`, `server_log`, `document`, `loan_application`"@,
            ),
            Some(r) => match unit_content(content) {
                Ok(_) => Ok(r),
                Err(e) => Err(e),
            },
        },
    }
}

/// The field `key` of a value, or null when it has none.
pub open spec fn field_or_null(v: Json, key: Seq<char>) -> Json {
    match field(v, key) {
        Some(x) => x,
        None => Json::Null,
    }
}

/// The parameters of a response: its "parameters" field, or an empty object.
pub open spec fn parameters_of(v: Json) -> Json {
    match field(v, "parameters"@) {
        Some(x) => x,
        None => Json::Object(Seq::empty()),
    }
}

/// The intent a model's response gives, or the reason it gives none: the action is checked
/// first, then the resource.
pub open spec fn intent_from_json(v: Json) -> Result<(ActionType, ResourceType, Json), Seq<char>> {
    match action_from_json(field_or_null(v, "action"@)) {
        Err(e) => Err("Invalid action: "@ + e),
        Ok(a) => match resource_from_json(field_or_null(v, "resource"@)) {
            Err(e) => Err("Invalid resource: "@ + e),
            Ok(r) => Ok((a, r, parameters_of(v))),
        },
    }
}

/// Whether `r` is what `intent_from_json` gives for `v`.
pub open spec fn gives_intent(r: Result<RoutingIntent, String>, v: Json) -> bool {
    match intent_from_json(v) {
        Ok(t) => r is Ok && r->Ok_0.action == t.0 && r->Ok_0.resource == t.1 && r->Ok_0.parameters.view() == t.2,
        Err(e) => r is Err && r->Err_0@ == e,
    }
}

/// How serde describes a JSON value it did not expect.
pub fn describe_unexpected(v: &JsonValue) -> (r: String)
    ensures
        r@ == unexpected_text(v.view()),
{
    match v {
        JsonValue::Null => String::from_str("unit value"),
        JsonValue::Bool(b) => {
            let word = if *b {
                "true"
            } else {
                "false"
            };
            String::from_str("boolean `").concat(word).concat("`")
        },
        JsonValue::Number(JsonNumber::PosInt(u)) => String::from_str("integer `").concat(u64_to_decimal(*u).as_str()).concat("`"),
        JsonValue::Number(JsonNumber::NegInt(i)) => {
            let digits = if *i < 0 {
                let m: i128 = 0i128 - (*i as i128);
                assert(0 < m <= 0x8000_0000_0000_0000);
                let u = m as u64;
                assert(u as int == -(*i as int));
                String::from_str("-").concat(u64_to_decimal(u).as_str())
            } else {
                u64_to_decimal(*i as u64)
            };
            String::from_str("integer `").concat(digits.as_str()).concat("`")
        },
        JsonValue::Number(JsonNumber::Float(t)) => String::from_str("floating point `").concat(t.as_str()).concat("`"),
        JsonValue::Str(t) => String::from_str("string ").concat(quoted(t.as_str()).as_str()),
        JsonValue::Array(_) => String::from_str("sequence"),
        JsonValue::Object(_) => String::from_str("map"),
    }
}

/// The variant name and content of a JSON value, as `enum_form` gives them.
fn enum_form_of(v: &JsonValue) -> (r: Result<(&String, Option<&JsonValue>), String>)
    ensures
        match enum_form(v.view()) {
            Ok(t) => r is Ok && r->Ok_0.0@ == t.0 && match t.1 {
                Some(c) => r->Ok_0.1 is Some && r->Ok_0.1->Some_0.view() == c,
                None => r->Ok_0.1 is None,
            },
            Err(e) => r is Err && r->Err_0@ == e,
        },
{
    match v {
        JsonValue::Str(name) => Ok((name, None)),
        JsonValue::Object(ms) => {
            proof {
                crate::json::lemma_members_view(ms@);
            }
            if ms.len() == 1 {
                Ok((&ms[0].0, Some(&ms[0].1)))
            } else {
                Err(String::from_str("invalid value: map, expected map with a single key"))
            }
        },
        _ => Err(String::from_str("invalid type: ").concat(describe_unexpected(v).as_str()).concat(", expected string or map")),
    }
}

/// Checks the content of a unit variant, as `unit_content` does.
fn unit_content_of(content: Option<&JsonValue>) -> (r: Result<(), String>)
    ensures
        match unit_content(
            match content {
                Some(c) => Some(c.view()),
                None => None,
            },
        ) {
            Ok(_) => r is Ok,
            Err(e) => r is Err && r->Err_0@ == e,
        },
{
    match content {
        Some(JsonValue::Null) => Ok(()),
        Some(x) => Err(String::from_str("invalid type: ").concat(describe_unexpected(x).as_str()).concat(", expected unit")),
        None => Ok(()),
    }
}

/// The action a JSON value names.
pub fn action_from_value(v: &JsonValue) -> (r: Result<ActionType, String>)
    ensures
        match action_from_json(v.view()) {
            Ok(a) => r == Ok::<ActionType, String>(a),
            Err(e) => r is Err && r->Err_0@ == e,
        },
{
    let (name, content) = match enum_form_of(v) {
        Ok(t) => t,
        Err(e) => {
            return Err(e);
        },
    };
    match ActionType::from_name(name.as_str()) {
        Some(a) => match unit_content_of(content) {
            Ok(()) => Ok(a),
            Err(e) => Err(e),
        },
        None => Err(
            String::from_str("unknown variant `").concat(name.as_str()).concat("`, expected one of `find`, `analyze`, `create`"),
        ),
    }
}

/// The resource a JSON value names.
pub fn resource_from_value(v: &JsonValue) -> (r: Result<ResourceType, String>)
    ensures
        match resource_from_json(v.view()) {
            Ok(x) => r == Ok::<ResourceType, String>(x),
            Err(e) => r is Err && r->Err_0@ == e,
        },
{
    let (name, content) = match enum_form_of(v) {
        Ok(t) => t,
        Err(e) => {
            return Err(e);
        },
    };
    match ResourceType::from_name(name.as_str()) {
        Some(x) => match unit_content_of(content) {
            Ok(()) => Ok(x),
            Err(e) => Err(e),
        },
        None => Err(
            String::from_str("unknown variant `").concat(name.as_str()).concat(
                "`, expected one of `sales_report`, `server_log`, `document`, `loan_application`",
            ),
        ),
    }
}

/// Reads the intent from a model's structured response: its action, its resource, and its
/// parameters (an empty object when it has none).
pub fn intent_from_response(result: &JsonValue) -> (r: Result<RoutingIntent, String>)
    ensures
        gives_intent(r, result.view()),
{
    let null = JsonValue::Null;
    let action_value = match result.get("action") {
        Some(x) => x,
        None => &null,
    };
    let action = match action_from_value(action_value) {
        Ok(a) => a,
        Err(e) => {
            return Err(String::from_str("Invalid action: ").concat(e.as_str()));
        },
    };
    let resource_value = match result.get("resource") {
        Some(x) => x,
        None => &null,
    };
    let resource = match resource_from_value(resource_value) {
        Ok(x) => x,
        Err(e) => {
            return Err(String::from_str("Invalid resource: ").concat(e.as_str()));
        },
    };
    let parameters = match result.get("parameters") {
        Some(x) => x.duplicate(),
        None => {
            let members: Vec<(String, JsonValue)> = Vec::new();
            proof {
                assert(crate::json::members_view(members@) =~= Seq::<(Seq<char>, Json)>::empty());
            }
            JsonValue::Object(members)
        },
    };
    Ok(RoutingIntent { action, resource, parameters })
}

/// Reads the intent from the plain-text reply of the fallback chat: the reply is parsed as JSON,
/// and an error of the chat or of the parse is passed on.
pub fn intent_from_fallback(reply: Result<String, String>) -> (r: Result<RoutingIntent, String>)
    ensures
        match reply {
            Err(e) => r is Err && r->Err_0@ == e@,
            Ok(raw) => match json_from_text(raw@) {
                Err(m) => r is Err && r->Err_0@ == "Fallback parse failed: "@ + m,
                Ok(v) => gives_intent(r, v),
            },
        },
{
    match reply {
        Err(e) => Err(e),
        Ok(raw) => match parse_json(raw.as_str()) {
            Err(m) => Err(String::from_str("Fallback parse failed: ").concat(m.as_str())),
            Ok(v) => intent_from_response(&v),
        },
    }
}

/// What the fallback chat's reply gives: its error passed on, the error of parsing it as JSON,
/// or the intent read from it.
pub open spec fn fallback_gives(m: Result<RoutingIntent, String>, reply: Result<Seq<char>, Seq<char>>) -> bool {
    match reply {
        Err(e) => m is Err && m->Err_0@ == e,
        Ok(raw) => match json_from_text(raw) {
            Err(msg) => m is Err && m->Err_0@ == "Fallback parse failed: "@ + msg,
            Ok(v) => gives_intent(m, v),
        },
    }
}

/// A cache lookup's result as plain values: the cached intent, if any, or the error message.
pub open spec fn lookup_view(r: Result<Option<RoutingIntent>, String>) -> Result<Option<RoutingIntent>, Seq<char>> {
    match r {
        Ok(x) => Ok(x),
        Err(e) => Err(e@),
    }
}

/// A cache store's result as plain values: done, or the error message.
pub open spec fn store_view(r: Result<(), String>) -> Result<(), Seq<char>> {
    match r {
        Ok(_) => Ok(()),
        Err(e) => Err(e@),
    }
}

/// A cache of intents by request text, which the extractor asks before the model and fills
/// after it (in the application: embeddings compared by similarity).
pub trait IntentCache {
    /// Whether `r` is a result a lookup of `query` may give: any, unless the implementation
    /// says which.
    open spec fn finds(&self, query: Seq<char>, r: Result<Option<RoutingIntent>, Seq<char>>) -> bool {
        true
    }

    /// Whether `r` is a result storing `intent` for `query` may give: any, unless the
    /// implementation says which.
    open spec fn keeps(&self, query: Seq<char>, intent: RoutingIntent, r: Result<(), Seq<char>>) -> bool {
        true
    }

    /// The cached intent for a request like `query`, if any, or the error of the lookup.
    fn lookup(&mut self, query: &str) -> (r: Result<Option<RoutingIntent>, String>)
        ensures
            old(self).finds(query@, lookup_view(r)),
    ;

    /// Stores `intent` for `query`, or gives the error of the store.
    fn store(&mut self, query: &str, intent: &RoutingIntent) -> (r: Result<(), String>)
        ensures
            old(self).keeps(query@, *intent, store_view(r)),
    ;
}

/// The messages an extractor sends the model for `q`.
pub open spec fn extraction_messages_view(q: Seq<char>) -> Seq<Json> {
    seq![message_json("user"@, extraction_text(q))]
}

/// Orchestrates the full pipeline: extracts the intent of a request (from the cache, when it
/// has it, or from the model), and routes it to the agent that serves it.
pub struct IntentExtractor {
    /// Client of the model that extracts intents.
    client: Box<dyn LLMClientTrait>,
    /// Router that maps intents to agent names.
    router: AgentRouter,
    /// Optional cache that spares the model similar requests.
    pub cache: Option<Box<dyn IntentCache>>,
}

impl IntentExtractor {
    /// The agent that the extractor's router names for an action and a resource.
    pub closed spec fn routes(&self, a: ActionType, r: ResourceType) -> Option<Seq<char>> {
        self.router.route(a, r)
    }

    /// Whether the extractor asks a cache.
    pub closed spec fn has_cache(&self) -> bool {
        self.cache is Some
    }

    /// Whether the model may answer `s` to the structured request for the intent of `q`: the
    /// extraction message, the intent schema and the system prompt.
    pub closed spec fn structured_reply(&self, q: Seq<char>, s: Result<Json, Seq<char>>) -> bool {
        self.client.structured_replies(extraction_messages_view(q), intent_schema_json(), Some(intent_system_prompt()), s)
    }

    /// Whether the model may answer `c` to the plain chat request for the intent of `q`: the
    /// extraction message and the system prompt, with no response format.
    pub closed spec fn chat_reply(&self, q: Seq<char>, c: Result<Seq<char>, Seq<char>>) -> bool {
        self.client.chat_replies(extraction_messages_view(q), Some(intent_system_prompt()), None, c)
    }

    /// Whether the extractor's cache may give `lr` to a lookup of `q`.
    pub closed spec fn cache_finds(&self, q: Seq<char>, lr: Result<Option<RoutingIntent>, Seq<char>>) -> bool {
        match self.cache {
            Some(c) => c.finds(q, lr),
            None => false,
        }
    }

    /// An extractor over `client`, with the default capability graph and an optional cache.
    pub fn new(client: Box<dyn LLMClientTrait>, cache: Option<Box<dyn IntentCache>>) -> (r: Self)
        ensures
            forall|a: ActionType, res: ResourceType| #[trigger] r.routes(a, res) == default_route(a, res),
            r.has_cache() <==> cache is Some,
    {
        IntentExtractor { client, router: AgentRouter::new(), cache }
    }

    /// Asks the model for the intent of `user_input`: a structured chat first, and, when that
    /// fails, a plain chat whose reply is parsed as JSON.
    fn ask_model(&self, user_input: &str) -> (r: Result<RoutingIntent, String>)
        ensures
            model_gives(*self, user_input@, r),
    {
        let prompt = system_prompt();
        let messages = extraction_messages(user_input);
        let schema = build_intent_schema();
        let structured = self.client.structured_chat(messages, schema, Some(prompt));
        let ghost sv = structured_view(structured);
        assert(self.structured_reply(user_input@, sv));
        match structured {
            Ok(v) => intent_from_response(&v),
            Err(_) => {
                let reply = self.client.chat(extraction_messages(user_input), Some(prompt), None);
                let ghost cv = reply_view(reply);
                assert(self.chat_reply(user_input@, cv));
                let r = intent_from_fallback(reply);
                assert(fallback_gives(r, cv));
                r
            },
        }
    }

    /// Extracts the intent of `user_input`: the cached one when the cache has one; else the
    /// model's, which is then stored in the cache. An error of the cache or of the model is
    /// passed on.
    pub fn extract(&mut self, user_input: &str) -> (r: Result<RoutingIntent, String>)
        ensures
            forall|a: ActionType, res: ResourceType| #[trigger] final(self).routes(a, res) == old(self).routes(a, res),
            final(self).has_cache() <==> old(self).has_cache(),
            extraction_fits(*old(self), user_input@, r),
    {
        let ghost before = *self;
        let cached = match &mut self.cache {
            Some(c) => c.lookup(user_input),
            None => Ok(None),
        };
        let ghost lv = lookup_view(cached);
        assert(self.client == before.client);
        assert(forall|q: Seq<char>, x: Result<Json, Seq<char>>| #[trigger] self.structured_reply(q, x) == before.structured_reply(q, x));
        assert(forall|q: Seq<char>, x: Result<Seq<char>, Seq<char>>| #[trigger] self.chat_reply(q, x) == before.chat_reply(q, x));
        assert(before.has_cache() ==> before.cache_finds(user_input@, lv));
        match cached {
            Err(e) => {
                return Err(e);
            },
            Ok(Some(intent)) => {
                return Ok(intent);
            },
            Ok(None) => {},
        }
        let intent = match self.ask_model(user_input) {
            Ok(i) => i,
            Err(e) => {
                assert(model_gives(before, user_input@, Err::<RoutingIntent, String>(e)));
                return Err(e);
            },
        };
        assert(model_gives(before, user_input@, Ok::<RoutingIntent, String>(intent)));
        let ghost c1 = self.cache;
        let stored = match &mut self.cache {
            Some(c) => c.store(user_input, &intent),
            None => Ok(()),
        };
        let ghost sv = store_view(stored);
        assert(c1 is Some ==> c1->Some_0.keeps(user_input@, intent, sv));
        match stored {
            Err(e) => Err(e),
            Ok(()) => Ok(intent),
        }
    }

    /// What the router gives for an extracted intent: its route, or the extraction's error.
    pub fn route_extracted(&self, extracted: Result<RoutingIntent, String>) -> (r: Result<RouteResult, String>)
        ensures
            routes_extracted(*self, extracted, r),
    {
        match extracted {
            Ok(intent) => {
                let route = self.router.route_request(&intent);
                assert(routed_as(route, intent, self.routes(intent.action, intent.resource)));
                Ok(route)
            },
            Err(e) => Err(e),
        }
    }

    /// Extracts the intent of `user_input` and routes it.
    pub fn process(&mut self, user_input: &str) -> (r: Result<RouteResult, String>)
        ensures
            forall|a: ActionType, res: ResourceType| #[trigger] final(self).routes(a, res) == old(self).routes(a, res),
            final(self).has_cache() <==> old(self).has_cache(),
            exists|x: Result<RoutingIntent, String>| #[trigger] extraction_fits(*old(self), user_input@, x) && routes_extracted(
                *old(self),
                x,
                r,
            ),
    {
        let extracted = self.extract(user_input);
        let r = self.route_extracted(extracted);
        assert(routes_extracted(*old(self), extracted, r));
        r
    }
}

/// Whether `m` is what the model gives for `q`: the structured reply read as an intent, or,
/// when the structured request fails, the plain chat's reply read as an intent.
pub open spec fn model_gives(ex: IntentExtractor, q: Seq<char>, m: Result<RoutingIntent, String>) -> bool {
    exists|s: Result<Json, Seq<char>>|
        #[trigger] ex.structured_reply(q, s) && match s {
            Ok(v) => gives_intent(m, v),
            Err(_) => exists|c: Result<Seq<char>, Seq<char>>| #[trigger] ex.chat_reply(q, c) && fallback_gives(m, c),
        }
}

/// Whether `r` is what extracting the intent of `q` gives: without a cache, the model's
/// result; with one, the lookup's error or cached intent, or else the model's error, or the
/// model's intent once the cache took it (a store's error passed on).
pub open spec fn extraction_fits(ex: IntentExtractor, q: Seq<char>, r: Result<RoutingIntent, String>) -> bool {
    if !ex.has_cache() {
        model_gives(ex, q, r)
    } else {
        exists|lr: Result<Option<RoutingIntent>, Seq<char>>|
            #[trigger] ex.cache_finds(q, lr) && match lr {
                Err(e) => r is Err && r->Err_0@ == e,
                Ok(found) => match found {
                    Some(i) => r == Ok::<RoutingIntent, String>(i),
                    None => exists|m: Result<RoutingIntent, String>|
                        #[trigger] model_gives(ex, q, m) && match m {
                            Err(e) => r == Err::<RoutingIntent, String>(e),
                            Ok(i) => exists|c1: Box<dyn IntentCache>, sr: Result<(), Seq<char>>|
                                #[trigger] c1.keeps(q, i, sr) && match sr {
                                    Err(e) => r is Err && r->Err_0@ == e,
                                    Ok(_) => r == Ok::<RoutingIntent, String>(i),
                                },
                        },
                },
            }
    }
}

/// Whether `r` is what the router of `ex` gives for `extracted`: the extraction's error passed
/// on, or the route of the extracted intent.
pub open spec fn routes_extracted(ex: IntentExtractor, extracted: Result<RoutingIntent, String>, r: Result<RouteResult, String>) -> bool {
    match extracted {
        Err(e) => r == Err::<RouteResult, String>(e),
        Ok(i) => r is Ok && routed_as(r->Ok_0, i, ex.routes(i.action, i.resource)),
    }
}

/// Whether `route` is what the router gives for `intent` when the capability graph names
/// `agent` for it.
pub open spec fn routed_as(route: RouteResult, intent: RoutingIntent, agent: Option<Seq<char>>) -> bool {
    match agent {
        Some(name) => route matches RouteResult::Routed { agent_name, parameters } && agent_name@ == name
            && parameters.view() == intent.parameters.view(),
        None => route matches RouteResult::NotFound { action, resource } && action@ == intent.action.name()
            && resource@ == intent.resource.name(),
    }
}

/// An intent written as a model is asked to write it: its action and resource by name, and
/// its parameters.
pub open spec fn intent_json(a: ActionType, r: ResourceType, parameters: Json) -> Json {
    Json::Object(
        seq![("action"@, Json::Str(a.name())), ("parameters"@, parameters), ("resource"@, Json::Str(r.name()))],
    )
}

/// A successful reading of the intent `(a, r, parameters)`.
pub open spec fn read_as(a: ActionType, r: ResourceType, parameters: Json) -> Result<(ActionType, ResourceType, Json), Seq<char>> {
    Ok((a, r, parameters))
}

/// An intent written with its action's and resource's names is read back unchanged.
pub proof fn law_intent_read_back(a: ActionType, r: ResourceType, parameters: Json)
    ensures
        intent_from_json(intent_json(a, r, parameters)) == read_as(a, r, parameters),
{
    reveal_strlit("action");
    reveal_strlit("parameters");
    reveal_strlit("resource");
    crate::capability_router::law_names_read_back(a, r);
    let ms = seq![("action"@, Json::Str(a.name())), ("parameters"@, parameters), ("resource"@, Json::Str(r.name()))];
    assert("action"@ != "parameters"@ && "action"@ != "resource"@ && "parameters"@ != "resource"@) by {
        assert("action"@[0] != "parameters"@[0]);
        assert("action"@[0] != "resource"@[0]);
        assert("parameters"@[0] != "resource"@[0]);
    }
    assert(ms.drop_last() =~= seq![("action"@, Json::Str(a.name())), ("parameters"@, parameters)]);
    assert(ms.drop_last().drop_last() =~= seq![("action"@, Json::Str(a.name()))]);
    assert(ms.drop_last().drop_last().drop_last() =~= Seq::<(Seq<char>, Json)>::empty());
    let m1 = ms.drop_last();
    let m2 = m1.drop_last();
    assert(m2.last().0 == "action"@);
    assert(crate::json::member(m2, "action"@) == Some(Json::Str(a.name())));
    assert(m1.last().0 == "parameters"@);
    assert(crate::json::member(m1, "action"@) == Some(Json::Str(a.name())));
    assert(crate::json::member(ms, "action"@) == Some(Json::Str(a.name())));
    assert(crate::json::member(m1, "parameters"@) == Some(parameters));
    assert(crate::json::member(ms, "parameters"@) == Some(parameters));
    assert(crate::json::member(ms, "resource"@) == Some(Json::Str(r.name())));
}

/// The allowed values the intent schema lists for the property `p`: the `enum` array of
/// `properties.p`.
pub open spec fn schema_choices(p: Seq<char>) -> Option<Json> {
    match field(intent_schema_json(), "properties"@) {
        Some(ps) => match field(ps, p) {
            Some(x) => field(x, "enum"@),
            None => None,
        },
        None => None,
    }
}

proof fn lemma_member_of_three(ms: Seq<(Seq<char>, Json)>, k: int)
    requires
        ms.len() == 3,
        0 <= k < 3,
        ms[0].0 != ms[1].0 && ms[0].0 != ms[2].0 && ms[1].0 != ms[2].0,
    ensures
        crate::json::member(ms, ms[k].0) == Some(ms[k].1),
{
    let m1 = ms.drop_last();
    let m2 = m1.drop_last();
    assert(m1[0] == ms[0] && m1[1] == ms[1] && m2[0] == ms[0]);
    assert(m2.drop_last().len() == 0);
    if k < 2 {
        assert(crate::json::member(ms, ms[k].0) == crate::json::member(m1, ms[k].0));
        if k < 1 {
            assert(crate::json::member(m1, ms[k].0) == crate::json::member(m2, ms[k].0));
        }
    }
}

/// Whether `items` are exactly the names of the actions: each action's name is one of them, and
/// each of them is the name of an action.
pub open spec fn names_every_action(items: Seq<Json>) -> bool {
    &&& forall|a: ActionType| exists|i: int| 0 <= i < items.len() && #[trigger] items[i] == Json::Str(#[trigger] a.name())
    &&& forall|i: int| 0 <= i < items.len() ==> exists|a: ActionType| #[trigger] items[i] == Json::Str(a.name())
}

/// Whether `items` are exactly the names of the resources: each resource's name is one of them,
/// and each of them is the name of a resource.
pub open spec fn names_every_resource(items: Seq<Json>) -> bool {
    &&& forall|r: ResourceType| exists|i: int| 0 <= i < items.len() && #[trigger] items[i] == Json::Str(#[trigger] r.name())
    &&& forall|i: int| 0 <= i < items.len() ==> exists|r: ResourceType| #[trigger] items[i] == Json::Str(r.name())
}

/// Law of the intent schema: the choices it lists for the action are exactly the names of the
/// actions, and those it lists for the resource are exactly the names of the resources, so a
/// model held to the schema can name every action and every resource, and nothing else.
pub proof fn law_schema_lists_every_name()
    ensures
        match schema_choices("action"@) {
            Some(Json::Array(items)) => names_every_action(items),
            _ => false,
        },
        match schema_choices("resource"@) {
            Some(Json::Array(items)) => names_every_resource(items),
            _ => false,
        },
{
    lemma_schema_choices();
    lemma_action_names();
    lemma_resource_names();
}

proof fn lemma_schema_choices()
    ensures
        schema_choices("action"@) == Some(Json::Array(action_names_json())),
        schema_choices("resource"@) == Some(Json::Array(resource_names_json())),
{
    reveal_strlit("properties");
    reveal_strlit("required");
    reveal_strlit("type");
    reveal_strlit("action");
    reveal_strlit("parameters");
    reveal_strlit("resource");
    reveal_strlit("description");
    reveal_strlit("enum");
    let top = intent_schema_members();
    assert(top[0].0[0] == 'p' && top[1].0[0] == 'r' && top[2].0[0] == 't');
    lemma_member_of_three(top, 0);
    let props = intent_properties_json();
    assert(props[0].0[0] == 'a' && props[1].0[0] == 'p' && props[2].0[0] == 'r');
    lemma_member_of_three(props, 0);
    lemma_member_of_three(props, 2);
    let ap = enum_property_json("The action to perform."@, action_names_json());
    let rp = enum_property_json("The resource to act on."@, resource_names_json());
    assert(ap[0].0[0] == 'd' && ap[1].0[0] == 'e' && ap[2].0[0] == 't');
    assert(rp[0].0[0] == 'd' && rp[1].0[0] == 'e' && rp[2].0[0] == 't');
    lemma_member_of_three(ap, 1);
    lemma_member_of_three(rp, 1);
    assert(schema_choices("action"@) == Some(Json::Array(action_names_json())));
    assert(schema_choices("resource"@) == Some(Json::Array(resource_names_json())));
}

proof fn lemma_action_names()
    ensures
        names_every_action(action_names_json()),
{
    let an = action_names_json();
    assert forall|a: ActionType| exists|i: int| 0 <= i < an.len() && #[trigger] an[i] == Json::Str(#[trigger] a.name()) by {
        match a {
            ActionType::Find => assert(an[0] == Json::Str(a.name())),
            ActionType::Analyze => assert(an[1] == Json::Str(a.name())),
            ActionType::Create => assert(an[2] == Json::Str(a.name())),
        }
    }
    assert forall|i: int| 0 <= i < an.len() implies exists|a: ActionType| #[trigger] an[i] == Json::Str(a.name()) by {
        if i == 0 {
            assert(an[i] == Json::Str(ActionType::Find.name()));
        } else if i == 1 {
            assert(an[i] == Json::Str(ActionType::Analyze.name()));
        } else {
            assert(an[i] == Json::Str(ActionType::Create.name()));
        }
    }
}

proof fn lemma_resource_names()
    ensures
        names_every_resource(resource_names_json()),
{
    let rn = resource_names_json();
    assert forall|r: ResourceType| exists|i: int| 0 <= i < rn.len() && #[trigger] rn[i] == Json::Str(#[trigger] r.name()) by {
        match r {
            ResourceType::SalesReport => assert(rn[0] == Json::Str(r.name())),
            ResourceType::ServerLog => assert(rn[1] == Json::Str(r.name())),
            ResourceType::Document => assert(rn[2] == Json::Str(r.name())),
            ResourceType::LoanApplication => assert(rn[3] == Json::Str(r.name())),
        }
    }
    assert forall|i: int| 0 <= i < rn.len() implies exists|r: ResourceType| #[trigger] rn[i] == Json::Str(r.name()) by {
        if i == 0 {
            assert(rn[i] == Json::Str(ResourceType::SalesReport.name()));
        } else if i == 1 {
            assert(rn[i] == Json::Str(ResourceType::ServerLog.name()));
        } else if i == 2 {
            assert(rn[i] == Json::Str(ResourceType::Document.name()));
        } else {
            assert(rn[i] == Json::Str(ResourceType::LoanApplication.name()));
        }
    }
}

} // verus!
