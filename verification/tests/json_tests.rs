use nlsh::json::parse_provider_response;
use nlsh::json::request_body;
use nlsh::json::ProviderError;
use nlsh::provider::Provider;

#[test]
fn gemini_fixture_yields_trimmed_command() {
    let body = "{\"candidates\":[{\"content\":{\"parts\":[{\"text\":\" ls -la \"}]}}]}";
    let r = parse_provider_response(Provider::Gemini, body, 200);
    assert_eq!(r.unwrap(), "ls -la");
}

#[test]
fn gemini_body_without_candidates_is_malformed() {
    let body = "{\"error\":{\"message\":\"quota\"}}";
    let r = parse_provider_response(Provider::Gemini, body, 200);
    assert!(matches!(r, Err(ProviderError::GeminiMissingContent)));
}

#[test]
fn gemini_empty_candidates_is_malformed() {
    let body = "{\"candidates\":[]}";
    let r = parse_provider_response(Provider::Gemini, body, 200);
    assert!(matches!(r, Err(ProviderError::GeminiMissingContent)));
}

#[test]
fn zai_message_content_is_preferred() {
    let body = "{\"choices\":[{\"message\":{\"content\":\"echo hi\"}}]}";
    let r = parse_provider_response(Provider::Zai, body, 200);
    assert_eq!(r.unwrap(), "echo hi");
}

#[test]
fn zai_falls_back_to_text() {
    let body = "{\"choices\":[{\"text\":\" pwd \"}]}";
    let r = parse_provider_response(Provider::Zai, body, 200);
    assert_eq!(r.unwrap(), "pwd");
}

#[test]
fn zai_falls_back_to_content() {
    let body = "{\"choices\":[{\"content\":\"date\"}]}";
    let r = parse_provider_response(Provider::Zai, body, 200);
    assert_eq!(r.unwrap(), "date");
}

#[test]
fn zai_missing_content_keeps_the_status() {
    let body = "{\"choices\":[{}]}";
    let r = parse_provider_response(Provider::Zai, body, 502);
    match r {
        Err(ProviderError::ZaiMissingContent { status }) => assert_eq!(status, 502),
        _ => panic!("expected the missing-content error"),
    }
}

#[test]
fn non_json_body_is_reported_with_the_raw_body() {
    let body = "<html>bad gateway</html>";
    let r = parse_provider_response(Provider::Zai, body, 502);
    match r {
        Err(ProviderError::InvalidJson { body: b }) => assert_eq!(b, body),
        _ => panic!("expected the invalid-JSON error"),
    }
}

#[test]
fn error_messages_name_the_failure() {
    let e = ProviderError::GeminiMissingContent;
    assert_eq!(e.message(), "Gemini response missing content");
    let z = ProviderError::ZaiMissingContent { status: 502 };
    assert_eq!(z.message(), "z.ai response missing content (status: 502)");
    let j = ProviderError::InvalidJson { body: "oops".to_string() };
    assert_eq!(j.message(), "provider response was not JSON: oops");
}

#[test]
fn gemini_request_body_is_exact() {
    let b = request_body(Provider::Gemini, "list files");
    assert_eq!(b, "{\"contents\":[{\"parts\":[{\"text\":\"list files\"}]}]}");
}

#[test]
fn zai_request_body_is_exact() {
    let b = request_body(Provider::Zai, "list files");
    assert_eq!(
        b,
        "{\"model\":\"glm-4.5\",\"messages\":[{\"role\":\"user\",\"content\":\"list files\"}]}"
    );
}

#[test]
fn request_bodies_escape_the_prompt() {
    let b = request_body(Provider::Gemini, "say \"hi\"\\now\nplease\ttabbed");
    assert_eq!(
        b,
        "{\"contents\":[{\"parts\":[{\"text\":\"say \\\"hi\\\"\\\\now\\nplease\\ttabbed\"}]}]}"
    );
}

#[test]
fn request_body_escapes_control_characters() {
    let b = request_body(Provider::Gemini, "a\u{1}b");
    assert_eq!(b, "{\"contents\":[{\"parts\":[{\"text\":\"a\\u0001b\"}]}]}");
}

#[test]
fn request_body_round_trips_through_a_json_parser() {
    // the built body must itself be valid JSON holding the prompt
    let b = request_body(Provider::Zai, "quote \" and backslash \\");
    let v: serde_json::Value = serde_json::from_str(&b).unwrap();
    assert_eq!(
        v["messages"][0]["content"].as_str().unwrap(),
        "quote \" and backslash \\"
    );
}
