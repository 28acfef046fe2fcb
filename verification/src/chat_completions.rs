//! Chat-completions data model: messages, response formats, usage counters,
//! and the exact JSON wire form of a chat request.
//!
//! The JSON builders here are what the batch planner fingerprints, so each
//! one's contract gives the produced tree as a function of the value's
//! contents alone; two requests with the same messages, response contract
//! and model always serialize identically.

use vstd::prelude::*;
use vstd::string::StringExecFns;

use crate::json::{obj_get, view_entries, view_list, Json, JsonV};
use crate::json::{lemma_view_entries, lemma_view_list};

verus! {

/// The role of a message.
#[derive(Debug, Clone, Copy, PartialEq, Eq, Structural)]
pub enum Role {
    /// The user is sending the message.
    User,
    /// The assistant is sending the message.
    Assistant,
    /// The system is sending the message.
    System,
}

/// An image URL; the provider accepts a link or a base64-encoded image.
#[derive(Debug)]
pub struct ImageUrl {
    /// The image URL.
    pub url: String,
}

/// One part of a message: text, or an image reference.
#[derive(Debug)]
pub enum ChatMessageContent {
    /// A textual part.
    Text {
        /// The text of the part.
        text: String,
    },
    /// An image part.
    ImageUrl {
        /// The image URL.
        image: ImageUrl,
    },
}

/// A message to send to the chat API.
#[derive(Debug)]
pub struct ChatMessage {
    /// Who is speaking.
    pub role: Role,
    /// The parts of the message, in order.
    pub content: Vec<ChatMessageContent>,
}

impl ChatMessage {
    /// A message with the given role and parts.
    pub fn new(role: Role, content: Vec<ChatMessageContent>) -> (r: ChatMessage)
        ensures
            r.role == role,
            r.content == content,
    {
        ChatMessage { role, content }
    }

    /// A single-part text message from the user.
    pub fn user(content: String) -> (r: ChatMessage)
        ensures
            r.role == Role::User,
            r.content@.len() == 1,
            r.content@[0] matches ChatMessageContent::Text { text } && text@ == content@,
    {
        ChatMessage { role: Role::User, content: vec![ChatMessageContent::Text { text: content }] }
    }

    /// A single-part text message from the assistant.
    pub fn assistant(content: String) -> (r: ChatMessage)
        ensures
            r.role == Role::Assistant,
            r.content@.len() == 1,
            r.content@[0] matches ChatMessageContent::Text { text } && text@ == content@,
    {
        ChatMessage {
            role: Role::Assistant,
            content: vec![ChatMessageContent::Text { text: content }],
        }
    }

    /// A single-part text message from the system.
    pub fn system(content: String) -> (r: ChatMessage)
        ensures
            r.role == Role::System,
            r.content@.len() == 1,
            r.content@[0] matches ChatMessageContent::Text { text } && text@ == content@,
    {
        ChatMessage {
            role: Role::System,
            content: vec![ChatMessageContent::Text { text: content }],
        }
    }
}

/// The system-prompt-plus-prompt conversation shape used by the plain and
/// batch entry points: one system message, then one user message.
pub fn messages_with_system_prompt(system_prompt: String, prompt: String) -> (r: Vec<ChatMessage>)
    ensures
        r@.len() == 2,
        r@[0].role == Role::System,
        r@[0].content@.len() == 1,
        r@[0].content@[0] matches ChatMessageContent::Text { text } && text@ == system_prompt@,
        r@[1].role == Role::User,
        r@[1].content@.len() == 1,
        r@[1].content@[0] matches ChatMessageContent::Text { text } && text@ == prompt@,
{
    let mut r: Vec<ChatMessage> = Vec::new();
    r.push(ChatMessage::system(system_prompt));
    r.push(ChatMessage::user(prompt));
    r
}

/// The response contract: free text, any JSON object, or a JSON value
/// constrained by a schema.
#[derive(Debug)]
pub enum ResponseFormat {
    /// The model is constrained to return a JSON value of the given schema.
    JsonSchema {
        /// The schema, with its name and strictness flag.
        json_schema: JsonSchemaFormat,
    },
    /// The model is constrained to return some JSON object.
    JsonObject,
    /// The model is free to answer in plain text.
    Text,
}

/// A named JSON schema with its strictness flag.
#[derive(Debug)]
pub struct JsonSchemaFormat {
    /// A human-readable name for the schema.
    pub name: String,
    /// Whether the schema is enforced strictly; this library always sets it.
    pub strict: bool,
    /// The schema itself.
    pub schema: SchemaFormat,
}

/// A schema together with the `additionalProperties` flag the provider
/// expects beside it.
#[derive(Debug)]
pub struct SchemaFormat {
    /// Whether extra properties are allowed; always `false` here.
    pub additional_properties: bool,
    /// The schema document.
    pub schema: Json,
}

impl JsonSchemaFormat {
    /// Wraps an already-canonical schema under a name, strictly.
    pub fn from_schema(schema: Json, ty_name: &str) -> (r: JsonSchemaFormat)
        ensures
            r.name@ == ty_name@,
            r.strict == true,
            r.schema.additional_properties == false,
            r.schema.schema == schema,
    {
        JsonSchemaFormat {
            name: String::from_str(ty_name),
            strict: true,
            schema: SchemaFormat { additional_properties: false, schema },
        }
    }
}

/// A request to the chat-completions API.
#[derive(Debug)]
pub struct ChatRequest {
    /// The model to use.
    pub model: String,
    /// The conversation so far.
    pub messages: Vec<ChatMessage>,
    /// The response contract.
    pub response_format: ResponseFormat,
}

/// The wire form of a role.
pub open spec fn role_jv(r: Role) -> JsonV {
    match r {
        Role::User => JsonV::Str("user"@),
        Role::Assistant => JsonV::Str("assistant"@),
        Role::System => JsonV::Str("system"@),
    }
}

/// The wire form of one message part.
pub open spec fn content_jv(c: ChatMessageContent) -> JsonV {
    match c {
        ChatMessageContent::Text { text } => JsonV::Obj(
            seq![("type"@, JsonV::Str("text"@)), ("text"@, JsonV::Str(text@))],
        ),
        ChatMessageContent::ImageUrl { image } => JsonV::Obj(
            seq![
                ("type"@, JsonV::Str("image_url"@)),
                ("image_url"@, JsonV::Obj(seq![("url"@, JsonV::Str(image.url@))])),
            ],
        ),
    }
}

/// The wire form of a list of message parts.
pub open spec fn contents_jv(l: Seq<ChatMessageContent>) -> Seq<JsonV>
    decreases l.len(),
{
    if l.len() == 0 {
        Seq::empty()
    } else {
        contents_jv(l.drop_last()).push(content_jv(l.last()))
    }
}

/// The wire form of a message.
pub open spec fn message_jv(m: ChatMessage) -> JsonV {
    JsonV::Obj(
        seq![
            ("role"@, role_jv(m.role)),
            ("content"@, JsonV::Arr(contents_jv(m.content@))),
        ],
    )
}

/// The wire form of a conversation.
pub open spec fn messages_jv(l: Seq<ChatMessage>) -> Seq<JsonV>
    decreases l.len(),
{
    if l.len() == 0 {
        Seq::empty()
    } else {
        messages_jv(l.drop_last()).push(message_jv(l.last()))
    }
}

/// The wire form of a schema with its `additionalProperties` flag: the flag
/// first, then the schema's own members.
pub open spec fn schema_format_jv(sf: SchemaFormat) -> JsonV {
    match sf.schema@ {
        JsonV::Obj(e) => JsonV::Obj(
            seq![("additionalProperties"@, JsonV::Bool(sf.additional_properties))] + e,
        ),
        _ => JsonV::Obj(seq![("additionalProperties"@, JsonV::Bool(sf.additional_properties))]),
    }
}

/// The wire form of a named schema.
pub open spec fn json_schema_format_jv(f: JsonSchemaFormat) -> JsonV {
    JsonV::Obj(
        seq![
            ("name"@, JsonV::Str(f.name@)),
            ("strict"@, JsonV::Bool(f.strict)),
            ("schema"@, schema_format_jv(f.schema)),
        ],
    )
}

/// The wire form of a response contract.
pub open spec fn response_format_jv(rf: ResponseFormat) -> JsonV {
    match rf {
        ResponseFormat::JsonSchema { json_schema } => JsonV::Obj(
            seq![
                ("type"@, JsonV::Str("json_schema"@)),
                ("json_schema"@, json_schema_format_jv(json_schema)),
            ],
        ),
        ResponseFormat::JsonObject => JsonV::Obj(seq![("type"@, JsonV::Str("json_object"@))]),
        ResponseFormat::Text => JsonV::Obj(seq![("type"@, JsonV::Str("text"@))]),
    }
}

/// The wire form of a whole chat request: model, messages, response format.
pub open spec fn chat_request_jv(r: ChatRequest) -> JsonV {
    JsonV::Obj(
        seq![
            ("model"@, JsonV::Str(r.model@)),
            ("messages"@, JsonV::Arr(messages_jv(r.messages@))),
            ("response_format"@, response_format_jv(r.response_format)),
        ],
    )
}

/// Builds the JSON tree of one message part.
pub fn content_to_json(c: &ChatMessageContent) -> (r: Json)
    ensures
        r@ == content_jv(*c),
{
    match c {
        ChatMessageContent::Text { text } => {
            let mut e: Vec<(String, Json)> = Vec::new();
            e.push((String::from_str("type"), Json::Str(String::from_str("text"))));
            e.push((String::from_str("text"), Json::Str(text.clone())));
            proof {
                lemma_view_entries(e@);
                assert(view_entries(e@) =~= seq![
                    ("type"@, JsonV::Str("text"@)),
                    ("text"@, JsonV::Str(text@)),
                ]);
            }
            Json::Obj(e)
        },
        ChatMessageContent::ImageUrl { image } => {
            let mut inner: Vec<(String, Json)> = Vec::new();
            inner.push((String::from_str("url"), Json::Str(image.url.clone())));
            proof {
                lemma_view_entries(inner@);
                assert(view_entries(inner@) =~= seq![("url"@, JsonV::Str(image.url@))]);
            }
            let mut e: Vec<(String, Json)> = Vec::new();
            e.push((String::from_str("type"), Json::Str(String::from_str("image_url"))));
            e.push((String::from_str("image_url"), Json::Obj(inner)));
            proof {
                lemma_view_entries(e@);
                assert(view_entries(e@) =~= seq![
                    ("type"@, JsonV::Str("image_url"@)),
                    ("image_url"@, JsonV::Obj(seq![("url"@, JsonV::Str(image.url@))])),
                ]);
            }
            Json::Obj(e)
        },
    }
}

/// Builds the JSON tree of one message.
pub fn message_to_json(m: &ChatMessage) -> (r: Json)
    ensures
        r@ == message_jv(*m),
{
    let role = match m.role {
        Role::User => String::from_str("user"),
        Role::Assistant => String::from_str("assistant"),
        Role::System => String::from_str("system"),
    };
    let n = m.content.len();
    let mut parts: Vec<Json> = Vec::new();
    proof {
        assert(m.content@.take(0) =~= Seq::<ChatMessageContent>::empty());
        assert(view_list(parts@) =~= Seq::<JsonV>::empty());
    }
    let mut i: usize = 0;
    while i < n
        invariant
            i <= n,
            n == m.content@.len(),
            view_list(parts@) == contents_jv(m.content@.take(i as int)),
        decreases n - i,
    {
        let ghost parts0 = parts@;
        let p = content_to_json(&m.content[i]);
        parts.push(p);
        proof {
            lemma_view_list(parts0);
            lemma_view_list(parts@);
            assert(parts@.drop_last() =~= parts0);
            assert(view_list(parts@) == view_list(parts0).push(content_jv(m.content@[i as int])));
            assert(m.content@.take(i + 1 as int).drop_last() =~= m.content@.take(i as int));
            assert(m.content@.take(i + 1 as int).last() == m.content@[i as int]);
        }
        i = i + 1;
    }
    proof {
        assert(m.content@.take(n as int) =~= m.content@);
    }
    let mut e: Vec<(String, Json)> = Vec::new();
    e.push((String::from_str("role"), Json::Str(role)));
    e.push((String::from_str("content"), Json::Arr(parts)));
    proof {
        lemma_view_entries(e@);
        assert(view_entries(e@) =~= seq![
            ("role"@, role_jv(m.role)),
            ("content"@, JsonV::Arr(contents_jv(m.content@))),
        ]);
    }
    Json::Obj(e)
}

/// Builds the JSON tree of a whole conversation.
pub fn messages_to_json(l: &Vec<ChatMessage>) -> (r: Json)
    ensures
        r@ == JsonV::Arr(messages_jv(l@)),
{
    let n = l.len();
    let mut items: Vec<Json> = Vec::new();
    proof {
        assert(l@.take(0) =~= Seq::<ChatMessage>::empty());
        assert(view_list(items@) =~= Seq::<JsonV>::empty());
    }
    let mut i: usize = 0;
    while i < n
        invariant
            i <= n,
            n == l@.len(),
            view_list(items@) == messages_jv(l@.take(i as int)),
        decreases n - i,
    {
        let ghost items0 = items@;
        let p = message_to_json(&l[i]);
        items.push(p);
        proof {
            lemma_view_list(items0);
            lemma_view_list(items@);
            assert(items@.drop_last() =~= items0);
            assert(view_list(items@) == view_list(items0).push(message_jv(l@[i as int])));
            assert(l@.take(i + 1 as int).drop_last() =~= l@.take(i as int));
            assert(l@.take(i + 1 as int).last() == l@[i as int]);
        }
        i = i + 1;
    }
    proof {
        assert(l@.take(n as int) =~= l@);
    }
    Json::Arr(items)
}

/// Builds the JSON tree of a response contract.
pub fn response_format_to_json(rf: &ResponseFormat) -> (r: Json)
    ensures
        r@ == response_format_jv(*rf),
{
    match rf {
        ResponseFormat::JsonSchema { json_schema } => {
            let mut sfe: Vec<(String, Json)> = Vec::new();
            sfe.push(
                (
                    String::from_str("additionalProperties"),
                    Json::Bool(json_schema.schema.additional_properties),
                ),
            );
            let sf: Json = match &json_schema.schema.schema {
                Json::Obj(entries) => {
                    let ghost sfe0 = sfe@;
                    let n = entries.len();
                    let mut sfe = sfe;
                    let mut i: usize = 0;
                    proof {
                        lemma_view_entries(entries@);
                        lemma_view_entries(sfe@);
                        assert(view_entries(sfe@) =~= seq![
                            ("additionalProperties"@, JsonV::Bool(
                                json_schema.schema.additional_properties,
                            )),
                        ]);
                    }
                    while i < n
                        invariant
                            i <= n,
                            n == entries@.len(),
                            view_entries(entries@).len() == n,
                            forall|t: int|
                                0 <= t < n ==> view_entries(entries@)[t] == (
                                #[trigger] entries@[t].0@,
                                entries@[t].1@,
                                ),
                            view_entries(sfe@) =~= seq![
                                ("additionalProperties"@, JsonV::Bool(
                                    json_schema.schema.additional_properties,
                                )),
                            ] + view_entries(entries@).take(i as int),
                        decreases n - i,
                    {
                        let ghost s0 = sfe@;
                        sfe.push((entries[i].0.clone(), entries[i].1.deep_clone()));
                        proof {
                            let ev = view_entries(entries@);
                            lemma_view_entries(s0);
                            lemma_view_entries(sfe@);
                            assert(sfe@.drop_last() =~= s0);
                            assert(view_entries(sfe@) == view_entries(s0).push(
                                (entries@[i as int].0@, entries@[i as int].1@),
                            ));
                            assert(ev.take(i + 1 as int).drop_last() =~= ev.take(i as int));
                            assert(ev.take(i + 1 as int).last() == ev[i as int]);
                            assert(view_entries(sfe@) =~= seq![
                                ("additionalProperties"@, JsonV::Bool(
                                    json_schema.schema.additional_properties,
                                )),
                            ] + ev.take(i + 1 as int));
                        }
                        i = i + 1;
                    }
                    proof {
                        assert(view_entries(entries@).take(n as int) =~= view_entries(entries@));
                    }
                    Json::Obj(sfe)
                },
                _ => {
                    proof {
                        lemma_view_entries(sfe@);
                        assert(view_entries(sfe@) =~= seq![
                            ("additionalProperties"@, JsonV::Bool(
                                json_schema.schema.additional_properties,
                            )),
                        ]);
                    }
                    Json::Obj(sfe)
                },
            };
            let mut fe: Vec<(String, Json)> = Vec::new();
            fe.push((String::from_str("name"), Json::Str(json_schema.name.clone())));
            fe.push((String::from_str("strict"), Json::Bool(json_schema.strict)));
            fe.push((String::from_str("schema"), sf));
            proof {
                lemma_view_entries(fe@);
                assert(view_entries(fe@) =~= seq![
                    ("name"@, JsonV::Str(json_schema.name@)),
                    ("strict"@, JsonV::Bool(json_schema.strict)),
                    ("schema"@, schema_format_jv(json_schema.schema)),
                ]);
            }
            let mut e: Vec<(String, Json)> = Vec::new();
            e.push((String::from_str("type"), Json::Str(String::from_str("json_schema"))));
            e.push((String::from_str("json_schema"), Json::Obj(fe)));
            proof {
                lemma_view_entries(e@);
                assert(view_entries(e@) =~= seq![
                    ("type"@, JsonV::Str("json_schema"@)),
                    ("json_schema"@, json_schema_format_jv(*json_schema)),
                ]);
            }
            Json::Obj(e)
        },
        ResponseFormat::JsonObject => {
            let mut e: Vec<(String, Json)> = Vec::new();
            e.push((String::from_str("type"), Json::Str(String::from_str("json_object"))));
            proof {
                lemma_view_entries(e@);
                assert(view_entries(e@) =~= seq![("type"@, JsonV::Str("json_object"@))]);
            }
            Json::Obj(e)
        },
        ResponseFormat::Text => {
            let mut e: Vec<(String, Json)> = Vec::new();
            e.push((String::from_str("type"), Json::Str(String::from_str("text"))));
            proof {
                lemma_view_entries(e@);
                assert(view_entries(e@) =~= seq![("type"@, JsonV::Str("text"@))]);
            }
            Json::Obj(e)
        },
    }
}

/// Builds the JSON tree of a whole chat request.
pub fn chat_request_to_json(r: &ChatRequest) -> (j: Json)
    ensures
        j@ == chat_request_jv(*r),
{
    let messages = messages_to_json(&r.messages);
    let rf = response_format_to_json(&r.response_format);
    let mut e: Vec<(String, Json)> = Vec::new();
    e.push((String::from_str("model"), Json::Str(r.model.clone())));
    e.push((String::from_str("messages"), messages));
    e.push((String::from_str("response_format"), rf));
    proof {
        lemma_view_entries(e@);
        assert(view_entries(e@) =~= seq![
            ("model"@, JsonV::Str(r.model@)),
            ("messages"@, JsonV::Arr(messages_jv(r.messages@))),
            ("response_format"@, response_format_jv(r.response_format)),
        ]);
    }
    Json::Obj(e)
}

/// Token counts reported for one request.
#[derive(Debug, Clone, Copy, PartialEq, Eq, Default)]
pub struct ChatUsage {
    /// Tokens spent on the prompt.
    pub prompt_tokens: u32,
    /// Tokens spent on the completion.
    pub completion_tokens: u32,
    /// Both together.
    pub total_tokens: u32,
    /// Details about the prompt tokens, when the provider reports them.
    pub prompt_token_details: Option<PromptTokenDetails>,
    /// Details about the completion tokens, when the provider reports them.
    pub completion_token_details: Option<CompletionTokenDetails>,
}

/// Details about the prompt tokens.
#[derive(Debug, Clone, Copy, PartialEq, Eq, Default, Structural)]
pub struct PromptTokenDetails {
    /// Tokens served from the provider's prompt cache.
    pub cached_tokens: u32,
}

/// Details about the completion tokens of reasoning models.
#[derive(Debug, Clone, Copy, PartialEq, Eq, Default, Structural)]
pub struct CompletionTokenDetails {
    /// Tokens spent on reasoning.
    pub reasoning_tokens: u32,
    /// Accepted prediction tokens.
    pub accepted_prediction_tokens: u32,
    /// Rejected prediction tokens (still billed).
    pub rejected_prediction_tokens: u32,
}

impl PromptTokenDetails {
    /// The field-wise sum.
    pub fn add(self, rhs: PromptTokenDetails) -> (r: PromptTokenDetails)
        requires
            self.cached_tokens + rhs.cached_tokens <= u32::MAX,
        ensures
            r.cached_tokens == self.cached_tokens + rhs.cached_tokens,
    {
        PromptTokenDetails { cached_tokens: self.cached_tokens + rhs.cached_tokens }
    }
}

impl CompletionTokenDetails {
    /// The field-wise sum.
    pub fn add(self, rhs: CompletionTokenDetails) -> (r: CompletionTokenDetails)
        requires
            self.reasoning_tokens + rhs.reasoning_tokens <= u32::MAX,
            self.accepted_prediction_tokens + rhs.accepted_prediction_tokens <= u32::MAX,
            self.rejected_prediction_tokens + rhs.rejected_prediction_tokens <= u32::MAX,
        ensures
            r.reasoning_tokens == self.reasoning_tokens + rhs.reasoning_tokens,
            r.accepted_prediction_tokens == self.accepted_prediction_tokens
                + rhs.accepted_prediction_tokens,
            r.rejected_prediction_tokens == self.rejected_prediction_tokens
                + rhs.rejected_prediction_tokens,
    {
        CompletionTokenDetails {
            reasoning_tokens: self.reasoning_tokens + rhs.reasoning_tokens,
            accepted_prediction_tokens: self.accepted_prediction_tokens
                + rhs.accepted_prediction_tokens,
            rejected_prediction_tokens: self.rejected_prediction_tokens
                + rhs.rejected_prediction_tokens,
        }
    }
}

impl ChatUsage {
    /// Accumulates another report into this one; absent detail blocks are
    /// treated as missing, not as zero.
    pub fn add_assign(&mut self, rhs: ChatUsage)
        requires
            old(self).prompt_tokens + rhs.prompt_tokens <= u32::MAX,
            old(self).completion_tokens + rhs.completion_tokens <= u32::MAX,
            old(self).total_tokens + rhs.total_tokens <= u32::MAX,
            (match (old(self).prompt_token_details, rhs.prompt_token_details) {
                (Some(a), Some(b)) => a.cached_tokens + b.cached_tokens <= u32::MAX,
                _ => true,
            }),
            (match (old(self).completion_token_details, rhs.completion_token_details) {
                (Some(a), Some(b)) => a.reasoning_tokens + b.reasoning_tokens <= u32::MAX
                    && a.accepted_prediction_tokens + b.accepted_prediction_tokens <= u32::MAX
                    && a.rejected_prediction_tokens + b.rejected_prediction_tokens <= u32::MAX,
                _ => true,
            }),
        ensures
            final(self).prompt_tokens == old(self).prompt_tokens + rhs.prompt_tokens,
            final(self).completion_tokens == old(self).completion_tokens + rhs.completion_tokens,
            final(self).total_tokens == old(self).total_tokens + rhs.total_tokens,
            final(self).prompt_token_details == (match (
                old(self).prompt_token_details,
                rhs.prompt_token_details,
            ) {
                (Some(a), Some(b)) => Some(
                    PromptTokenDetails { cached_tokens: (a.cached_tokens + b.cached_tokens) as u32 },
                ),
                (None, Some(b)) => Some(b),
                (Some(a), None) => Some(a),
                (None, None) => None::<PromptTokenDetails>,
            }),
            final(self).completion_token_details == (match (
                old(self).completion_token_details,
                rhs.completion_token_details,
            ) {
                (Some(a), Some(b)) => Some(
                    CompletionTokenDetails {
                        reasoning_tokens: (a.reasoning_tokens + b.reasoning_tokens) as u32,
                        accepted_prediction_tokens: (a.accepted_prediction_tokens
                            + b.accepted_prediction_tokens) as u32,
                        rejected_prediction_tokens: (a.rejected_prediction_tokens
                            + b.rejected_prediction_tokens) as u32,
                    },
                ),
                (None, Some(b)) => Some(b),
                (Some(a), None) => Some(a),
                (None, None) => None::<CompletionTokenDetails>,
            }),
    {
        self.prompt_tokens = self.prompt_tokens + rhs.prompt_tokens;
        self.completion_tokens = self.completion_tokens + rhs.completion_tokens;
        self.total_tokens = self.total_tokens + rhs.total_tokens;
        self.prompt_token_details = match (self.prompt_token_details, rhs.prompt_token_details) {
            (Some(a), Some(b)) => Some(a.add(b)),
            (None, Some(b)) => Some(b),
            (Some(a), None) => Some(a),
            (None, None) => None,
        };
        self.completion_token_details = match (
            self.completion_token_details,
            rhs.completion_token_details,
        ) {
            (Some(a), Some(b)) => Some(a.add(b)),
            (None, Some(b)) => Some(b),
            (Some(a), None) => Some(a),
            (None, None) => None,
        };
    }
}

/// One returned message.
#[derive(Debug)]
pub struct ChatMessageResponse {
    /// Who answered; in practice always the assistant.
    pub role: Role,
    /// The answer's text.
    pub content: String,
}

/// A parsed chat-completions response: the returned choices and the token
/// counts. Fields of the wire response that the library does not use are
/// ignored when parsing.
#[derive(Debug)]
pub struct ChatResponse {
    /// The returned choices' messages, in order.
    pub choices: Vec<ChatMessageResponse>,
    /// The reported token counts.
    pub usage: ChatUsage,
}

/// An error payload reported by the provider itself.
#[derive(Debug)]
pub struct OpenAiError {
    /// The provider's message.
    pub message: String,
    /// The provider's error type, when given as a string.
    pub error_type: Option<String>,
    /// The provider's error code, when given as a string.
    pub code: Option<String>,
    /// The offending parameter, when given as a string.
    pub param: Option<String>,
}

/// Either a usable response or a provider-reported error.
#[derive(Debug)]
pub enum ChatResponseOrError {
    /// The provider reported an error.
    Error(OpenAiError),
    /// A usable response.
    Response(ChatResponse),
}

/// Errors of the synchronous chat path.
#[derive(Debug)]
pub enum ChatError {
    /// The transport failed; holds its report.
    RequestError(String),
    /// The request could not be serialized; holds a report and the request.
    JsonSerializeError(String, String),
    /// The provider's reply had an unexpected shape; holds the reply and
    /// the request.
    ApiParseError {
        /// The provider's reply.
        response: String,
        /// The request that was sent.
        request: String,
    },
    /// The provider reported an error; holds it and the request.
    ApiError(OpenAiError, String),
    /// The answer did not fit the expected schema; holds a report and the
    /// answer.
    JsonDoesntMatchSchema(String, String),
    /// The provider returned no choices.
    NoChoices,
}

/// Errors of the batch chat path.
#[derive(Debug)]
pub enum BatchChatError {
    /// Uploading the job content failed.
    FileUploadError(crate::files::FilesError),
    /// Collecting the job's results failed.
    GetBatchResultsError(crate::batch::GetBatchResultsError),
    /// Creating the job failed.
    CreateBatchError(crate::batch::CreateBatchError),
    /// Waiting for the job failed.
    WaitForBatchError(crate::batch::WaitForBatchError),
    /// The provider attached an error to one item.
    BatchItemError(crate::batch::BatchItemError),
    /// One item's body was a provider-reported error; holds it and the
    /// item's custom identifier.
    OpenAiError(OpenAiError, String),
    /// A submitted custom identifier is missing from the results.
    CustomIdNotFound(String),
    /// The result for a custom identifier offered no choices.
    BatchNoChoices(String),
    /// An answer did not fit the expected schema; holds a report and the
    /// answer.
    JsonDoesntMatchSchema(String, String),
    /// An item's body had an unexpected shape; holds a report and the body.
    ApiParseError {
        /// A report of what was wrong.
        error: String,
        /// The body's text.
        response: String,
    },
    /// Listing the provider's jobs failed.
    ListBatchesError(crate::batch::ListBatchesError),
}

/// The role a JSON value names, if any.
pub open spec fn role_of(v: JsonV) -> Option<Role> {
    if v == JsonV::Str("user"@) {
        Some(Role::User)
    } else if v == JsonV::Str("assistant"@) {
        Some(Role::Assistant)
    } else if v == JsonV::Str("system"@) {
        Some(Role::System)
    } else {
        None
    }
}

/// The string a JSON value holds, if it is a string.
pub open spec fn str_of(v: JsonV) -> Option<Seq<char>> {
    match v {
        JsonV::Str(s) => Some(s),
        _ => None,
    }
}

/// The small unsigned number a JSON value holds, if it is a plain digit
/// literal in range.
pub open spec fn u32_of(v: JsonV) -> Option<u32> {
    match v {
        JsonV::Num(raw) => if crate::strutil::all_digits(raw) && crate::strutil::digits_val(raw)
            < 0x1_0000_0000 {
            Some(crate::strutil::digits_val(raw) as u32)
        } else {
            None
        },
        _ => None,
    }
}

/// The string member under `key`, when present as a string.
pub open spec fn opt_str_of(e: Seq<(Seq<char>, JsonV)>, key: Seq<char>) -> Option<Seq<char>> {
    match obj_get(e, key) {
        Some(v) => str_of(v),
        None => None,
    }
}

/// The role and content of a returned message object.
pub open spec fn msg_resp_of(v: JsonV) -> Option<(Role, Seq<char>)> {
    match v {
        JsonV::Obj(e) => match (obj_get(e, "role"@), obj_get(e, "content"@)) {
            (Some(rv), Some(cv)) => match (role_of(rv), str_of(cv)) {
                (Some(r), Some(c)) => Some((r, c)),
                _ => None,
            },
            _ => None,
        },
        _ => None,
    }
}

/// The message carried by one choice object.
pub open spec fn choice_of(v: JsonV) -> Option<(Role, Seq<char>)> {
    match v {
        JsonV::Obj(e) => match obj_get(e, "message"@) {
            Some(m) => msg_resp_of(m),
            None => None,
        },
        _ => None,
    }
}

/// The three token counts of a usage object.
pub open spec fn usage_of(v: JsonV) -> Option<(u32, u32, u32)> {
    match v {
        JsonV::Obj(e) => match (
            obj_get(e, "prompt_tokens"@),
            obj_get(e, "completion_tokens"@),
            obj_get(e, "total_tokens"@),
        ) {
            (Some(p), Some(c), Some(t)) => match (u32_of(p), u32_of(c), u32_of(t)) {
                (Some(pv), Some(cv), Some(tv)) => Some((pv, cv, tv)),
                _ => None,
            },
            _ => None,
        },
        _ => None,
    }
}

/// The choices array of a response object, when shaped as one.
pub open spec fn choices_of(j: JsonV) -> Option<Seq<JsonV>> {
    match j {
        JsonV::Obj(e) => match obj_get(e, "choices"@) {
            Some(JsonV::Arr(l)) => Some(l),
            _ => None,
        },
        _ => None,
    }
}

/// The usage object of a response object.
pub open spec fn usage_slot_of(j: JsonV) -> Option<JsonV> {
    match j {
        JsonV::Obj(e) => obj_get(e, "usage"@),
        _ => None,
    }
}

/// A well-shaped chat response: a choices array of message-bearing choices
/// and a usage object.
pub open spec fn chat_response_ok(j: JsonV) -> bool {
    &&& choices_of(j) is Some
    &&& (forall|i: int|
        0 <= i < choices_of(j)->0.len() ==> choice_of(#[trigger] choices_of(j)->0[i]) is Some)
    &&& usage_slot_of(j) is Some
    &&& usage_of(usage_slot_of(j)->0) is Some
}

/// The provider error payload of an error reply, if the value is one.
pub open spec fn error_reply_of(j: JsonV) -> Option<
    (Seq<char>, Option<Seq<char>>, Option<Seq<char>>, Option<Seq<char>>),
> {
    match j {
        JsonV::Obj(e) => match obj_get(e, "error"@) {
            Some(JsonV::Obj(ee)) => match obj_get(ee, "message"@) {
                Some(JsonV::Str(m)) => Some(
                    (m, opt_str_of(ee, "type"@), opt_str_of(ee, "code"@), opt_str_of(ee, "param"@)),
                ),
                _ => None,
            },
            _ => None,
        },
        _ => None,
    }
}

pub fn json_u32(v: &Json) -> (r: Option<u32>)
    ensures
        r == u32_of(v@),
{
    match v {
        Json::Num(raw) => {
            match crate::strutil::parse_u64_digits(raw.as_str()) {
                Some(u) => {
                    if u <= 0xFFFF_FFFFu64 {
                        Some(u as u32)
                    } else {
                        None
                    }
                },
                None => None,
            }
        },
        _ => None,
    }
}

fn json_opt_str(j: &Json, key: &str) -> (r: Option<String>)
    ensures
        match j@ {
            JsonV::Obj(e) => match r {
                Some(s) => opt_str_of(e, key@) == Some(s@),
                None => opt_str_of(e, key@) is None,
            },
            _ => r is None,
        },
{
    match j.get(key) {
        Some(v) => match v {
            Json::Str(s) => Some(s.clone()),
            _ => None,
        },
        None => None,
    }
}

/// Reads one returned message out of a choice object.
fn parse_choice(v: &Json) -> (r: Option<ChatMessageResponse>)
    ensures
        r is Some <==> choice_of(v@) is Some,
        r matches Some(m) ==> choice_of(v@) == Some((m.role, m.content@)),
{
    let msg = match v.get("message") {
        Some(m) => m,
        None => {
            return None;
        },
    };
    let rv = match msg.get("role") {
        Some(r) => r,
        None => {
            return None;
        },
    };
    let role = match rv {
        Json::Str(s) => {
            if crate::strutil::str_eq(s.as_str(), "user") {
                Role::User
            } else if crate::strutil::str_eq(s.as_str(), "assistant") {
                Role::Assistant
            } else if crate::strutil::str_eq(s.as_str(), "system") {
                Role::System
            } else {
                return None;
            }
        },
        _ => {
            return None;
        },
    };
    let content = match msg.get("content") {
        Some(c) => match c {
            Json::Str(s) => s.clone(),
            _ => {
                return None;
            },
        },
        None => {
            return None;
        },
    };
    Some(ChatMessageResponse { role, content })
}

/// Reads the fields this library uses out of a chat-completions response.
pub fn parse_chat_response(j: &Json) -> (r: Option<ChatResponse>)
    ensures
        r is Some <==> chat_response_ok(j@),
        r matches Some(cr) ==> {
            let l = choices_of(j@)->0;
            &&& cr.choices@.len() == l.len()
            &&& (forall|i: int|
                0 <= i < l.len() ==> choice_of(#[trigger] l[i]) == Some(
                    (cr.choices@[i].role, cr.choices@[i].content@),
                ))
            &&& usage_of(usage_slot_of(j@)->0) == Some(
                (cr.usage.prompt_tokens, cr.usage.completion_tokens, cr.usage.total_tokens),
            )
            &&& cr.usage.prompt_token_details is None
            &&& cr.usage.completion_token_details is None
        },
{
    let choices_json = match j.get("choices") {
        Some(c) => c,
        None => {
            return None;
        },
    };
    let items = match choices_json {
        Json::Arr(items) => items,
        _ => {
            return None;
        },
    };
    proof {
        lemma_view_list(items@);
    }
    let ghost l = choices_of(j@)->0;
    let n = items.len();
    let mut choices: Vec<ChatMessageResponse> = Vec::new();
    let mut i: usize = 0;
    while i < n
        invariant
            i <= n,
            n == items@.len(),
            l == view_list(items@),
            choices_of(j@) == Some(l),
            l.len() == n,
            forall|t: int| 0 <= t < n ==> #[trigger] l[t] == items@[t]@,
            choices@.len() == i,
            forall|t: int|
                0 <= t < i ==> choice_of(#[trigger] l[t]) == Some(
                    (choices@[t].role, choices@[t].content@),
                ),
        decreases n - i,
    {
        match parse_choice(&items[i]) {
            Some(m) => {
                choices.push(m);
            },
            None => {
                proof {
                    assert(choice_of(choices_of(j@)->0[i as int]) is None);
                }
                return None;
            },
        }
        i = i + 1;
    }
    let usage_json = match j.get("usage") {
        Some(u) => u,
        None => {
            return None;
        },
    };
    let p = match usage_json.get("prompt_tokens") {
        Some(v) => json_u32(v),
        None => {
            return None;
        },
    };
    let c = match usage_json.get("completion_tokens") {
        Some(v) => json_u32(v),
        None => {
            return None;
        },
    };
    let t = match usage_json.get("total_tokens") {
        Some(v) => json_u32(v),
        None => {
            return None;
        },
    };
    proof {
        if p is Some && c is Some && t is Some {
            assert(chat_response_ok(j@));
        } else {
            assert(!chat_response_ok(j@));
        }
    }
    match (p, c, t) {
        (Some(pv), Some(cv), Some(tv)) => Some(
            ChatResponse {
                choices,
                usage: ChatUsage {
                    prompt_tokens: pv,
                    completion_tokens: cv,
                    total_tokens: tv,
                    prompt_token_details: None,
                    completion_token_details: None,
                },
            },
        ),
        _ => None,
    }
}

/// Reads a provider error payload out of an error reply.
pub fn parse_error_reply(j: &Json) -> (r: Option<OpenAiError>)
    ensures
        r is Some <==> error_reply_of(j@) is Some,
        r matches Some(e) ==> {
            let p = error_reply_of(j@)->0;
            &&& e.message@ == p.0
            &&& (match e.error_type {
                Some(s) => p.1 == Some(s@),
                None => p.1 is None,
            })
            &&& (match e.code {
                Some(s) => p.2 == Some(s@),
                None => p.2 is None,
            })
            &&& (match e.param {
                Some(s) => p.3 == Some(s@),
                None => p.3 is None,
            })
        },
{
    let ev = match j.get("error") {
        Some(e) => e,
        None => {
            return None;
        },
    };
    match ev {
        Json::Obj(_) => {},
        _ => {
            return None;
        },
    }
    let message = match ev.get("message") {
        Some(m) => match m {
            Json::Str(s) => s.clone(),
            _ => {
                return None;
            },
        },
        None => {
            return None;
        },
    };
    let error_type = json_opt_str(ev, "type");
    let code = json_opt_str(ev, "code");
    let param = json_opt_str(ev, "param");
    Some(OpenAiError { message, error_type, code, param })
}

/// The first choice's message text, or the no-choices error.
pub fn first_choice_content(r: ChatResponse) -> (out: Result<String, ChatError>)
    ensures
        r.choices@.len() == 0 ==> out matches Err(ChatError::NoChoices),
        r.choices@.len() > 0 ==> (out matches Ok(s) && s == r.choices@[0].content),
{
    let mut r = r;
    if r.choices.len() == 0 {
        Err(ChatError::NoChoices)
    } else {
        Ok(r.choices.remove(0).content)
    }
}

/// Classifies a reply value: a provider-reported error wins, then a usable
/// response; anything else is unreadable.
pub fn parse_chat_reply(j: &Json) -> (r: Option<ChatResponseOrError>)
    ensures
        r matches Some(x) ==> (x is Error <==> error_reply_of(j@) is Some),
        r is Some <==> (error_reply_of(j@) is Some || chat_response_ok(j@)),
        r is None <==> (error_reply_of(j@) is None && !chat_response_ok(j@)),
        (match r {
            Some(ChatResponseOrError::Error(e)) => error_reply_of(j@) matches Some(p) && e.message@
                == p.0,
            _ => true,
        }),
        (match r {
            Some(ChatResponseOrError::Response(cr)) => {
                let l = choices_of(j@)->0;
                &&& chat_response_ok(j@)
                &&& cr.choices@.len() == l.len()
                &&& (forall|i: int|
                    0 <= i < l.len() ==> choice_of(#[trigger] l[i]) == Some(
                        (cr.choices@[i].role, cr.choices@[i].content@),
                    ))
            },
            _ => true,
        }),
{
    match parse_error_reply(j) {
        Some(e) => Some(ChatResponseOrError::Error(e)),
        None => match parse_chat_response(j) {
            Some(cr) => Some(ChatResponseOrError::Response(cr)),
            None => None,
        },
    }
}

} // verus!
