//! Chat requests and responses: wire forms, parsing, bookkeeping.

use tysm::batch::BatchRequestItem;
use tysm::chat_completions::{
    parse_chat_reply, parse_chat_response, ChatMessage, ChatMessageContent, ChatRequest,
    ChatResponseOrError, ChatUsage, ImageUrl, JsonSchemaFormat, PromptTokenDetails,
    ResponseFormat, Role,
};
use tysm::json::parse::parse_text;
use tysm::json::Json;

#[test]
fn test_batch_request_serialization() {
    let body = Json::Obj(vec![
        ("model".to_string(), Json::Str("gpt-4o".to_string())),
        (
            "messages".to_string(),
            Json::Arr(vec![
                Json::Obj(vec![
                    ("role".to_string(), Json::Str("system".to_string())),
                    ("content".to_string(), Json::Str("You are a helpful assistant.".to_string())),
                ]),
                Json::Obj(vec![
                    ("role".to_string(), Json::Str("user".to_string())),
                    ("content".to_string(), Json::Str("Hello world!".to_string())),
                ]),
            ]),
        ),
        ("max_tokens".to_string(), Json::num_u64(1000)),
    ]);
    let request = BatchRequestItem {
        custom_id: "request-1".to_string(),
        method: "POST".to_string(),
        url: "/v1/chat/completions".to_string(),
        body,
    };

    let serialized = request.to_json().to_text();
    assert!(serialized.contains("custom_id"));
    assert!(serialized.contains("request-1"));
    assert!(serialized.contains("method"));
    assert!(serialized.contains("POST"));
    assert!(serialized.contains("url"));
    assert!(serialized.contains("/v1/chat/completions"));
    assert!(serialized.contains("body"));
    assert!(serialized.contains("gpt-4o"));
    assert!(serialized.contains("helpful assistant"));
    assert!(serialized.contains("Hello world!"));
}

const SAMPLE_RESPONSE: &str = r#"
{
    "choices": [
        {
        "finish_reason": "stop",
        "index": 0,
        "logprobs": null,
        "message": {
            "content": "Hey there! When replying to someone who's asked about what you're studying, it's all about how you present it.",
            "role": "assistant"
        }
        }
    ],
    "created": 1714696172,
    "id": "chatcmpl-9Kb5oqHOdNRLuFJHCTQFOeU516mU8",
    "model": "gpt-4-0125-preview",
    "object": "chat.completion",
    "system_fingerprint": null,
    "usage": {
        "completion_tokens": 123,
        "prompt_tokens": 188,
        "total_tokens": 311
    }
}
"#;

#[test]
fn chat_completions_test_deser() {
    let j = parse_text(SAMPLE_RESPONSE).unwrap();
    let _chat_response = parse_chat_response(&j).unwrap();
}

#[test]
fn chatgpt_test_deser() {
    let j = parse_text(SAMPLE_RESPONSE).unwrap();
    let r = parse_chat_response(&j).unwrap();
    assert_eq!(r.choices.len(), 1);
    assert_eq!(r.choices[0].role, Role::Assistant);
    assert!(r.choices[0].content.starts_with("Hey there!"));
    assert_eq!(r.usage.prompt_tokens, 188);
    assert_eq!(r.usage.completion_tokens, 123);
    assert_eq!(r.usage.total_tokens, 311);
}

#[test]
fn requests_serialize_with_their_contract() {
    let req = ChatRequest {
        model: "gpt-4o".to_string(),
        messages: vec![
            ChatMessage::system("be brief".to_string()),
            ChatMessage::user("hi".to_string()),
        ],
        response_format: ResponseFormat::JsonObject,
    };
    let text = tysm::chat_completions::chat_request_to_json(&req).to_text();
    assert_eq!(
        text,
        "{\"model\":\"gpt-4o\",\"messages\":[{\"role\":\"system\",\"content\":[{\"type\":\"text\",\"text\":\"be brief\"}]},{\"role\":\"user\",\"content\":[{\"type\":\"text\",\"text\":\"hi\"}]}],\"response_format\":{\"type\":\"json_object\"}}",
    );
}

#[test]
fn schema_contracts_flatten_into_the_format() {
    let schema = parse_text("{\"type\":\"object\"}").unwrap();
    let f = JsonSchemaFormat::from_schema(schema, "Name");
    assert!(f.strict);
    let rf = ResponseFormat::JsonSchema { json_schema: f };
    let req = ChatRequest {
        model: "m".to_string(),
        messages: vec![],
        response_format: rf,
    };
    let text = tysm::chat_completions::chat_request_to_json(&req).to_text();
    assert!(text.contains("\"type\":\"json_schema\""));
    assert!(text.contains("\"name\":\"Name\""));
    assert!(text.contains("\"strict\":true"));
    assert!(text.contains("\"schema\":{\"additionalProperties\":false,\"type\":\"object\"}"));
}

#[test]
fn image_parts_serialize_under_their_tag() {
    let m = ChatMessage::new(
        Role::User,
        vec![ChatMessageContent::ImageUrl { image: ImageUrl { url: "data:x".to_string() } }],
    );
    let text = tysm::chat_completions::message_to_json(&m).to_text();
    assert_eq!(
        text,
        "{\"role\":\"user\",\"content\":[{\"type\":\"image_url\",\"image_url\":{\"url\":\"data:x\"}}]}",
    );
}

#[test]
fn error_replies_win_over_responses() {
    let j = parse_text("{\"error\":{\"message\":\"bad key\",\"type\":\"auth\"}}").unwrap();
    match parse_chat_reply(&j).unwrap() {
        ChatResponseOrError::Error(e) => {
            assert_eq!(e.message, "bad key");
            assert_eq!(e.error_type.as_deref(), Some("auth"));
        },
        other => panic!("expected an error reply, got {:?}", other),
    }
    let plain = parse_text("{\"whatever\":1}").unwrap();
    assert!(parse_chat_reply(&plain).is_none());
}

#[test]
fn first_choice_is_extracted_or_refused() {
    let j = parse_text(SAMPLE_RESPONSE).unwrap();
    let r = parse_chat_response(&j).unwrap();
    let content = tysm::chat_completions::first_choice_content(r).unwrap();
    assert!(content.starts_with("Hey there!"));
    let empty = parse_text(
        "{\"choices\":[],\"usage\":{\"prompt_tokens\":0,\"completion_tokens\":0,\"total_tokens\":0}}",
    )
    .unwrap();
    let r = parse_chat_response(&empty).unwrap();
    assert!(matches!(
        tysm::chat_completions::first_choice_content(r),
        Err(tysm::chat_completions::ChatError::NoChoices)
    ));
}

#[test]
fn usage_accumulates() {
    let mut u = ChatUsage {
        prompt_tokens: 1,
        completion_tokens: 2,
        total_tokens: 3,
        prompt_token_details: Some(PromptTokenDetails { cached_tokens: 5 }),
        completion_token_details: None,
    };
    let rhs = ChatUsage {
        prompt_tokens: 10,
        completion_tokens: 20,
        total_tokens: 30,
        prompt_token_details: Some(PromptTokenDetails { cached_tokens: 7 }),
        completion_token_details: None,
    };
    u.add_assign(rhs);
    assert_eq!(u.prompt_tokens, 11);
    assert_eq!(u.completion_tokens, 22);
    assert_eq!(u.total_tokens, 33);
    assert_eq!(u.prompt_token_details, Some(PromptTokenDetails { cached_tokens: 12 }));
    assert_eq!(u.completion_token_details, None);
}
