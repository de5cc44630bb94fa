use dialogos::config::Llm;
use dialogos::llm::{
    build_messages, build_request, endpoint, parse_response, read_reply, should_retry, show_status,
    ChatResponse, Choice, Completion, LlmError, RespMessage, Turn, Usage, MAX_ATTEMPTS,
};
use dialogos::time::Duration;

/// Decode a well-formed chat completion response.
fn decode(body: &str) -> ChatResponse {
    let value: serde_json::Value = serde_json::from_str(body).unwrap();
    ChatResponse {
        choices: value["choices"]
            .as_array()
            .unwrap()
            .iter()
            .map(|choice| Choice {
                message: RespMessage {
                    content: choice["message"]["content"].as_str().map(str::to_string),
                },
            })
            .collect(),
        usage: value.get("usage").map(|usage| Usage {
            total_tokens: usage["total_tokens"].as_u64().map(|n| n as u32),
        }),
    }
}

#[test]
fn prepends_system_prompt_and_maps_roles() {
    let history = [
        Turn::user("hi"),
        Turn::assistant("hello"),
        Turn::user("bye"),
    ];
    let messages = build_messages("be terse", &history);
    let roles: Vec<_> = messages.iter().map(|m| m.role).collect();
    assert_eq!(roles, ["system", "user", "assistant", "user"]);
    assert_eq!(messages[0].content, "be terse");
    assert_eq!(messages[3].content, "bye");
}

#[test]
fn empty_system_prompt_is_omitted() {
    let history = [Turn::user("hi")];
    let messages = build_messages("", &history);
    assert_eq!(messages.len(), 1);
    assert_eq!(messages[0].role, "user");
}

#[test]
fn parses_content_and_usage() {
    let body = r#"{
            "choices": [{"message": {"role": "assistant", "content": "  42  "}}],
            "usage": {"total_tokens": 123}
        }"#;
    let completion = parse_response(&decode(body)).unwrap();
    assert_eq!(completion.text, "42");
    assert_eq!(completion.tokens_used, Some(123));
}

#[test]
fn missing_usage_yields_no_token_count() {
    let body = r#"{"choices": [{"message": {"content": "hi"}}]}"#;
    let completion = parse_response(&decode(body)).unwrap();
    assert_eq!(completion.text, "hi");
    assert_eq!(completion.tokens_used, None);
}

#[test]
fn empty_choices_is_an_error() {
    assert!(parse_response(&decode(r#"{"choices": []}"#)).is_err());
}

#[test]
fn null_or_blank_content_is_an_error() {
    assert!(
        parse_response(&decode(r#"{"choices": [{"message": {"content": null}}]}"#)).is_err()
    );
    assert!(
        parse_response(&decode(r#"{"choices": [{"message": {"content": "   "}}]}"#)).is_err()
    );
}

#[test]
fn only_the_first_choice_counts() {
    let body = r#"{"choices": [
        {"message": {"content": "first"}}, {"message": {"content": "second"}}
    ]}"#;
    assert_eq!(parse_response(&decode(body)).unwrap().text, "first");
    let body = r#"{"choices": [
        {"message": {"content": " "}}, {"message": {"content": "second"}}
    ]}"#;
    assert_eq!(
        parse_response(&decode(body)).unwrap_err(),
        LlmError::NoContent
    );
}

#[test]
fn unicode_whitespace_is_trimmed() {
    let response = ChatResponse {
        choices: vec![Choice {
            message: RespMessage {
                content: Some("\u{3000}\t a b\u{a0}\n".to_string()),
            },
        }],
        usage: Some(Usage { total_tokens: None }),
    };
    let completion = parse_response(&response).unwrap();
    assert_eq!(completion.text, "a b");
    assert_eq!(completion.tokens_used, None);
}

#[test]
fn a_reply_is_read_by_status_then_body() {
    let good = decode(r#"{"choices": [{"message": {"content": "hi"}}]}"#);
    let empty = decode(r#"{"choices": []}"#);
    assert_eq!(read_reply(200, Some(&good)).unwrap().text, "hi");
    assert_eq!(read_reply(299, Some(&good)).unwrap().text, "hi");
    assert_eq!(
        read_reply(300, Some(&good)).unwrap_err(),
        LlmError::Status(300)
    );
    assert_eq!(read_reply(199, None).unwrap_err(), LlmError::Status(199));
    assert_eq!(read_reply(200, None).unwrap_err(), LlmError::Decode);
    assert_eq!(
        read_reply(200, Some(&empty)).unwrap_err(),
        LlmError::NoContent
    );
}

#[test]
fn only_passing_failures_are_retried() {
    assert!(should_retry(1, &Err(LlmError::Send)));
    assert!(should_retry(1, &Err(LlmError::Receive)));
    assert!(should_retry(1, &Err(LlmError::Status(429))));
    assert!(should_retry(1, &Err(LlmError::Status(503))));
    assert!(!should_retry(1, &Err(LlmError::Status(401))));
    assert!(!should_retry(1, &Err(LlmError::Decode)));
    assert!(!should_retry(1, &Err(LlmError::NoContent)));
    assert!(!should_retry(MAX_ATTEMPTS, &Err(LlmError::Send)));
    assert!(!should_retry(
        1,
        &Ok(Completion {
            text: "hi".to_string(),
            tokens_used: None
        })
    ));
}

#[test]
fn trailing_slashes_of_the_base_url_are_ignored() {
    let url = "https://openrouter.ai/api/v1/chat/completions";
    assert_eq!(endpoint("https://openrouter.ai/api/v1"), url);
    assert_eq!(endpoint("https://openrouter.ai/api/v1/"), url);
    assert_eq!(endpoint("https://openrouter.ai/api/v1///"), url);
    assert_eq!(endpoint("//"), "/chat/completions");
}

#[test]
fn a_request_names_the_configured_model() {
    let llm = Llm {
        base_url: String::new(),
        model: "some/model:free".to_string(),
        api_key: "k".to_string(),
        max_output_tokens: 128,
        temperature_bits: 0.5f32.to_bits(),
        request_timeout: Duration::from_secs(1),
        workers: 1,
    };
    let history = [Turn::user("hi")];
    let request = build_request(&llm, "be terse", &history);
    assert_eq!(request.model, "some/model:free");
    assert_eq!(request.max_tokens, 128);
    assert_eq!(f32::from_bits(request.temperature_bits), 0.5);
    assert_eq!(request.messages.len(), 2);
    assert_eq!(request.messages[1].content, "hi");
}

#[test]
fn failures_read_as_documented() {
    assert_eq!(
        LlmError::Send.message(),
        "sending the chat completion request"
    );
    assert_eq!(
        LlmError::Receive.message(),
        "reading the chat completion response body"
    );
    assert_eq!(
        LlmError::Status(503).message(),
        "chat completion request failed with status 503 Service Unavailable"
    );
    assert_eq!(
        LlmError::Decode.message(),
        "decoding the chat completion response"
    );
    assert_eq!(
        LlmError::NoContent.message(),
        "chat completion response carried no message content"
    );
}

#[test]
fn a_status_is_named_with_its_reason() {
    let told = |status: u16| LlmError::Status(status).message();
    assert_eq!(
        told(404),
        "chat completion request failed with status 404 Not Found"
    );
    assert_eq!(
        told(999),
        "chat completion request failed with status 999 <unknown status code>"
    );
    // Below and above the status codes there is only a number.
    assert_eq!(told(99), "chat completion request failed with status 99");
    assert_eq!(
        told(1000),
        "chat completion request failed with status 1000"
    );
    assert_eq!(show_status(404, None), "404");
    assert_eq!(show_status(404, Some("gone".to_string())), "gone");
}
