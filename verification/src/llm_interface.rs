use vstd::prelude::*;
use vstd::string::*;

use crate::json::{
    array_view, field, item, json_from_text, json_text, json_to_text, members_view, parse_json, text_of, Json,
    JsonValue,
};
use crate::text::str_eq;

verus! {

/// A system prompt as plain values.
pub open spec fn prompt_view(p: Option<&str>) -> Option<Seq<char>> {
    match p {
        Some(t) => Some(t@),
        None => None,
    }
}

/// An optional JSON value as plain values.
pub open spec fn json_option_view(v: Option<JsonValue>) -> Option<Json> {
    match v {
        Some(x) => Some(x.view()),
        None => None,
    }
}

/// A chat reply as plain values: the text, or the error message.
pub open spec fn reply_view(r: Result<String, String>) -> Result<Seq<char>, Seq<char>> {
    match r {
        Ok(t) => Ok(t@),
        Err(e) => Err(e@),
    }
}

/// A structured reply as plain values: the JSON value, or the error message.
pub open spec fn structured_view(r: Result<JsonValue, String>) -> Result<Json, Seq<char>> {
    match r {
        Ok(v) => Ok(v.view()),
        Err(e) => Err(e@),
    }
}

/// Sends chat and structured-output requests to a language model.
pub trait LLMClientTrait: Send {
    /// Whether `r` (a reply, or an error message) is one the model may give to a chat request
    /// with `messages`, `system_prompt` and `response_format`: any, unless the implementation
    /// says which.
    open spec fn chat_replies(
        &self,
        messages: Seq<Json>,
        system_prompt: Option<Seq<char>>,
        response_format: Option<Json>,
        r: Result<Seq<char>, Seq<char>>,
    ) -> bool {
        true
    }

    /// Whether `r` (a JSON reply, or an error message) is one the model may give to a
    /// structured request with `messages`, `schema` and `system_prompt`: any, unless the
    /// implementation says which.
    open spec fn structured_replies(
        &self,
        messages: Seq<Json>,
        schema: Json,
        system_prompt: Option<Seq<char>>,
        r: Result<Json, Seq<char>>,
    ) -> bool {
        true
    }

    /// Sends a chat request and returns the raw text of the reply.
    fn chat(
        &self,
        messages: Vec<JsonValue>,
        system_prompt: Option<&str>,
        response_format: Option<JsonValue>,
    ) -> (r: Result<String, String>)
        ensures
            self.chat_replies(array_view(messages@), prompt_view(system_prompt), json_option_view(response_format), reply_view(r)),
    ;

    /// Sends a structured chat request and returns the parsed JSON reply.
    fn structured_chat(
        &self,
        messages: Vec<JsonValue>,
        schema: JsonValue,
        system_prompt: Option<&str>,
    ) -> (r: Result<JsonValue, String>)
        ensures
            self.structured_replies(array_view(messages@), schema.view(), prompt_view(system_prompt), structured_view(r)),
    ;
}

/// Configuration for connecting to an embedding provider.
#[derive(Debug, Clone)]
pub struct EmbeddingConfig {
    /// Identifier for the embedding provider.
    pub provider: String,
    /// Base URL of the embedding API endpoint.
    pub base_url: String,
    /// Embedding model name.
    pub model: String,
    /// Request timeout in seconds.
    pub timeout: u64,
}

/// The base URL of an Ollama server on `host` (its default port).
pub open spec fn ollama_host_url(host: Seq<char>) -> Seq<char> {
    "http://"@ + host + ":11434"@
}

fn host_url(host: &str) -> (r: String)
    ensures
        r@ == ollama_host_url(host@),
{
    String::from_str("http://").concat(host).concat(":11434")
}

impl EmbeddingConfig {
    /// The configuration for the embedding model `model` of the Ollama server on `host`.
    pub fn ollama(host: &str, model: &str) -> (r: Self)
        ensures
            r.provider@ == "ollama-embedding"@,
            r.base_url@ == ollama_host_url(host@),
            r.model@ == model@,
            r.timeout == 30,
    {
        EmbeddingConfig {
            provider: String::from_str("ollama-embedding"),
            base_url: host_url(host),
            model: String::from_str(model),
            timeout: 30,
        }
    }

    /// The configuration built from the settings at hand: the given base URL and model, or the
    /// local Ollama server and `nomic-embed-text` where a setting is missing.
    pub fn with_settings(base_url: Option<String>, model: Option<String>) -> (r: Self)
        ensures
            r.provider@ == "ollama-embedding"@,
            r.base_url@ == (match base_url {
                Some(u) => u@,
                None => "http://localhost:11434"@,
            }),
            r.model@ == (match model {
                Some(m) => m@,
                None => "nomic-embed-text"@,
            }),
            r.timeout == 30,
    {
        let base_url = match base_url {
            Some(u) => u,
            None => String::from_str("http://localhost:11434"),
        };
        let model = match model {
            Some(m) => m,
            None => String::from_str("nomic-embed-text"),
        };
        EmbeddingConfig { provider: String::from_str("ollama-embedding"), base_url, model, timeout: 30 }
    }
}

/// The base URL of the OpenAI-compatible API of the Ollama server on `host`.
pub fn ollama_chat_base_url(host: &str) -> (r: String)
    ensures
        r@ == ollama_host_url(host@) + "/v1"@,
{
    host_url(host).concat("/v1")
}

/// A chat message as JSON: its content and its role.
pub open spec fn message_json(role: Seq<char>, content: Seq<char>) -> Json {
    Json::Object(seq![("content"@, Json::Str(content)), ("role"@, Json::Str(role))])
}

/// A chat message from `role` with the text `content`.
pub fn chat_message(role: &str, content: &str) -> (r: JsonValue)
    ensures
        r.view() == message_json(role@, content@),
{
    let mut members: Vec<(String, JsonValue)> = Vec::new();
    members.push((String::from_str("content"), JsonValue::Str(String::from_str(content))));
    members.push((String::from_str("role"), JsonValue::Str(String::from_str(role))));
    proof {
        crate::json::lemma_members_view(members@);
        assert(members_view(members@) =~= seq![("content"@, Json::Str(content@)), ("role"@, Json::Str(role@))]);
    }
    JsonValue::Object(members)
}

/// The messages of a request: the system prompt, when there is one, first, then `messages`.
pub open spec fn with_system_json(messages: Seq<Json>, system_prompt: Option<Seq<char>>) -> Seq<Json> {
    match system_prompt {
        Some(p) => seq![message_json("system"@, p)] + messages,
        None => messages,
    }
}

/// Puts the system prompt, when there is one, in front of the messages.
pub fn with_system_prompt(messages: Vec<JsonValue>, system_prompt: Option<&str>) -> (r: Vec<JsonValue>)
    ensures
        array_view(r@) == with_system_json(
            array_view(messages@),
            match system_prompt {
                Some(p) => Some(p@),
                None => None,
            },
        ),
{
    let mut list = messages;
    match system_prompt {
        Some(p) => {
            let ghost before = list@;
            list.insert(0, chat_message("system", p));
            proof {
                crate::json::lemma_array_view(before);
                crate::json::lemma_array_view(list@);
                assert(array_view(list@) =~= seq![message_json("system"@, p@)] + array_view(before));
            }
        },
        None => {},
    }
    list
}

/// The address of the chat completions endpoint of an OpenAI-compatible API.
pub fn chat_endpoint(base_url: &str) -> (r: String)
    ensures
        r@ == base_url@ + "/chat/completions"@,
{
    String::from_str(base_url).concat("/chat/completions")
}

/// The value of the authorization header for `api_key`.
pub fn bearer(api_key: &str) -> (r: String)
    ensures
        r@ == "Bearer "@ + api_key@,
{
    String::from_str("Bearer ").concat(api_key)
}

/// The text of a chat completion: the content of the message of its first choice.
pub open spec fn completion_text(data: Json) -> Option<Seq<char>> {
    match field(data, "choices"@) {
        Some(choices) => match item(choices, 0) {
            Some(choice) => match field(choice, "message"@) {
                Some(message) => match field(message, "content"@) {
                    Some(content) => text_of(content),
                    None => None,
                },
                None => None,
            },
            None => None,
        },
        None => None,
    }
}

/// The text of a chat completion, or the error for a reply of another shape.
pub fn chat_reply_content(data: &JsonValue) -> (r: Result<String, String>)
    ensures
        match completion_text(data.view()) {
            Some(t) => r is Ok && r->Ok_0@ == t,
            None => r is Err && r->Err_0@ == "Invalid response format from LLM"@,
        },
{
    let content = match data.get("choices") {
        Some(choices) => match choices.at(0) {
            Some(choice) => match choice.get("message") {
                Some(message) => message.get("content"),
                None => None,
            },
            None => None,
        },
        None => None,
    };
    match content {
        Some(c) => match c.as_str() {
            Some(s) => Ok(s.clone()),
            None => Err(String::from_str("Invalid response format from LLM")),
        },
        None => Err(String::from_str("Invalid response format from LLM")),
    }
}

/// The response format that asks for output that follows `schema`, strictly.
pub open spec fn schema_format_json(schema: Json) -> Json {
    Json::Object(
        seq![
            ("json_schema"@, Json::Object(
                seq![
                    ("name"@, Json::Str("structured_output"@)),
                    ("schema"@, schema),
                    ("strict"@, Json::Bool(true)),
                ],
            )),
            ("type"@, Json::Str("json_schema"@)),
        ],
    )
}

/// The response format that asks for output that follows `schema`.
pub fn schema_response_format(schema: JsonValue) -> (r: JsonValue)
    ensures
        r.view() == schema_format_json(schema.view()),
{
    let ghost sv = schema.view();
    let mut inner: Vec<(String, JsonValue)> = Vec::new();
    inner.push((String::from_str("name"), JsonValue::Str(String::from_str("structured_output"))));
    inner.push((String::from_str("schema"), schema));
    inner.push((String::from_str("strict"), JsonValue::Bool(true)));
    let mut outer: Vec<(String, JsonValue)> = Vec::new();
    let ghost iv = inner@;
    outer.push((String::from_str("json_schema"), JsonValue::Object(inner)));
    outer.push((String::from_str("type"), JsonValue::Str(String::from_str("json_schema"))));
    proof {
        crate::json::lemma_members_view(iv);
        crate::json::lemma_members_view(outer@);
        assert(members_view(iv) =~= seq![
            ("name"@, Json::Str("structured_output"@)),
            ("schema"@, sv),
            ("strict"@, Json::Bool(true)),
        ]);
        assert(members_view(outer@) =~= seq![
            ("json_schema"@, Json::Object(members_view(iv))),
            ("type"@, Json::Str("json_schema"@)),
        ]);
    }
    JsonValue::Object(outer)
}

/// The JSON value of a structured reply, or the error for a reply that is not JSON.
pub fn structured_output(raw: &str) -> (r: Result<JsonValue, String>)
    ensures
        match json_from_text(raw@) {
            Ok(v) => r is Ok && r->Ok_0.view() == v,
            Err(m) => r is Err && r->Err_0@ == "Failed to parse structured output: "@ + m,
        },
{
    match parse_json(raw) {
        Ok(v) => Ok(v),
        Err(m) => Err(String::from_str("Failed to parse structured output: ").concat(m.as_str())),
    }
}

/// Whether a provider is served through Ollama's own chat API.
pub fn uses_ollama_api(provider: &str) -> (r: bool)
    ensures
        r == (provider@ == "ollama-local"@),
{
    str_eq(provider, "ollama-local")
}

/// The system prompt that asks Ollama for one JSON object that follows `schema_text`.
pub open spec fn schema_prompt_text(system_prompt: Seq<char>, schema_text: Seq<char>) -> Seq<char> {
    system_prompt
        + "\n\nReturn exactly one JSON object and no other text. The JSON must conform to this schema:\n"@
        + schema_text
}

/// The system prompt of a structured request to Ollama: the given prompt (or nothing), then the
/// schema as compact JSON.
pub fn ollama_schema_prompt(system_prompt: Option<&str>, schema: &JsonValue) -> (r: String)
    ensures
        r@ == schema_prompt_text(
            match system_prompt {
                Some(p) => p@,
                None => Seq::empty(),
            },
            json_text(schema.view()),
        ),
{
    let prompt = match system_prompt {
        Some(p) => String::from_str(p),
        None => String::new(),
    };
    let schema_text = json_to_text(schema);
    prompt.concat("\n\nReturn exactly one JSON object and no other text. The JSON must conform to this schema:\n").concat(
        schema_text.as_str(),
    )
}

/// `s` without the suffix `suffix`, or `s` itself when it does not end with it.
pub open spec fn without_suffix(s: Seq<char>, suffix: Seq<char>) -> Seq<char> {
    if suffix.len() <= s.len() && s.subrange(s.len() - suffix.len(), s.len() as int) == suffix {
        s.subrange(0, s.len() - suffix.len())
    } else {
        s
    }
}

/// The base URL of Ollama's own API: the configured URL without its `/v1` suffix.
pub fn ollama_api_base(base_url: &str) -> (r: String)
    ensures
        r@ == without_suffix(base_url@, "/v1"@),
{
    proof {
        reveal_strlit("/v1");
    }
    let n = base_url.unicode_len();
    if n >= 3 && base_url.get_char(n - 3) == '/' && base_url.get_char(n - 2) == 'v' && base_url.get_char(n - 1)
        == '1' {
        let head = base_url.substring_char(0, n - 3);
        assert(base_url@.subrange(n - 3, n as int) =~= "/v1"@);
        String::from_str(head)
    } else {
        assert(n >= 3 ==> base_url@.subrange(n - 3, n as int)[0] == base_url@[n - 3]);
        assert(n >= 3 ==> base_url@.subrange(n - 3, n as int)[1] == base_url@[n - 2]);
        assert(n >= 3 ==> base_url@.subrange(n - 3, n as int)[2] == base_url@[n - 1]);
        String::from_str(base_url)
    }
}

/// The address of Ollama's chat endpoint for the configured base URL.
pub fn ollama_chat_endpoint(base_url: &str) -> (r: String)
    ensures
        r@ == without_suffix(base_url@, "/v1"@) + "/api/chat"@,
{
    ollama_api_base(base_url).concat("/api/chat")
}

/// The text of Ollama's reply: the content of its message.
pub open spec fn ollama_reply_text(data: Json) -> Option<Seq<char>> {
    match field(data, "message"@) {
        Some(message) => match field(message, "content"@) {
            Some(content) => text_of(content),
            None => None,
        },
        None => None,
    }
}

/// The text of Ollama's reply, or the error for a reply of another shape.
pub fn ollama_reply_content(data: &JsonValue) -> (r: Result<String, String>)
    ensures
        match ollama_reply_text(data.view()) {
            Some(t) => r is Ok && r->Ok_0@ == t,
            None => r is Err && r->Err_0@ == "Invalid response format from Ollama"@,
        },
{
    let content = match data.get("message") {
        Some(message) => message.get("content"),
        None => None,
    };
    match content {
        Some(c) => match c.as_str() {
            Some(s) => Ok(s.clone()),
            None => Err(String::from_str("Invalid response format from Ollama")),
        },
        None => Err(String::from_str("Invalid response format from Ollama")),
    }
}

/// The text Rust's `Debug` writes for a string: the string quoted, with its special characters
/// escaped.
pub uninterp spec fn debug_text(s: Seq<char>) -> Seq<char>;

/// Writes `s` with `format!("{:?}")`, through the `Debug` of `str`; the text is what
/// `debug_text` names.
#[verifier::external_body]
pub(crate) fn quoted(s: &str) -> (r: String)
    ensures
        r@ == debug_text(s@),
{
    format!("{:?}", s)
}

/// The JSON value of Ollama's structured reply, or the error, which quotes the reply, for a reply
/// that is not JSON.
pub fn ollama_structured_output(content: &str) -> (r: Result<JsonValue, String>)
    ensures
        match json_from_text(content@) {
            Ok(v) => r is Ok && r->Ok_0.view() == v,
            Err(m) => r is Err && r->Err_0@ == "Failed to parse structured output: "@ + m + "; content="@
                + debug_text(content@),
        },
{
    match parse_json(content) {
        Ok(v) => Ok(v),
        Err(m) => {
            let q = quoted(content);
            Err(String::from_str("Failed to parse structured output: ").concat(m.as_str()).concat("; content=").concat(
                q.as_str(),
            ))
        },
    }
}

/// The address of the embeddings endpoint of an Ollama server.
pub fn embeddings_endpoint(base_url: &str) -> (r: String)
    ensures
        r@ == base_url@ + "/api/embeddings"@,
{
    String::from_str(base_url).concat("/api/embeddings")
}

/// The body of an embedding request: the model and the text.
pub open spec fn embedding_request_json(model: Seq<char>, text: Seq<char>) -> Json {
    Json::Object(seq![("model"@, Json::Str(model)), ("prompt"@, Json::Str(text))])
}

/// The body of a request for the embedding of `text` by `model`.
pub fn embedding_request(model: &str, text: &str) -> (r: JsonValue)
    ensures
        r.view() == embedding_request_json(model@, text@),
{
    let mut members: Vec<(String, JsonValue)> = Vec::new();
    members.push((String::from_str("model"), JsonValue::Str(String::from_str(model))));
    members.push((String::from_str("prompt"), JsonValue::Str(String::from_str(text))));
    proof {
        crate::json::lemma_members_view(members@);
        assert(members_view(members@) =~= seq![("model"@, Json::Str(model@)), ("prompt"@, Json::Str(text@))]);
    }
    JsonValue::Object(members)
}

} // verus!
