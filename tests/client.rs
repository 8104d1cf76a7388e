use git_tools::client::{
    backoff_delay_ms, describe_conflict, frame_request_body, interpret_reply, AttemptError, ConflictResolver,
    ResolutionError, RetrySession, RetryStep, OPENAI_CHAT_URL,
};
use git_tools::model::{ConflictFile, Settings};

fn conflict(base: Option<&str>) -> ConflictFile {
    ConflictFile {
        path: "test.txt".to_string(),
        our_content: "Our content".to_string(),
        their_content: "Their content".to_string(),
        base_content: base.map(|b| b.to_string()),
    }
}

fn settings_with_key(key: &str, max_retries: u32) -> Settings {
    let mut settings = Settings::default();
    settings.openai_api_key = Some(key.to_string());
    settings.model = "gpt-3.5-turbo".to_string();
    settings.max_retries = max_retries;
    settings
}

/// Reads the candidate texts out of a reply body, as a caller of the
/// library does before handing them to `interpret_reply`.
fn candidates(body: &str) -> Result<Vec<String>, String> {
    let v: serde_json::Value = serde_json::from_str(body).map_err(|e| e.to_string())?;
    let choices = v
        .get("choices")
        .and_then(|c| c.as_array())
        .ok_or_else(|| "missing choices".to_string())?;
    let mut out = Vec::new();
    for c in choices {
        let text = c
            .get("message")
            .and_then(|m| m.get("content"))
            .and_then(|t| t.as_str())
            .ok_or_else(|| "missing content".to_string())?;
        out.push(text.to_string());
    }
    Ok(out)
}

#[test]
fn description_with_base() {
    let d = describe_conflict(&conflict(Some("Base content")));
    assert_eq!(
        d,
        "Resolve this Git merge conflict in test.txt. Here are the conflicting parts:\n\n\
         Our version: Our content\n\nTheir version: Their content\n\nBase version: Base content"
    );
}

#[test]
fn description_without_base() {
    let d = describe_conflict(&conflict(None));
    assert_eq!(
        d,
        "Resolve this Git merge conflict in test.txt. Here are the conflicting parts:\n\n\
         Our version: Our content\n\nTheir version: Their content\n\n"
    );
}

#[test]
fn description_uses_excerpts() {
    let mut c = conflict(None);
    c.our_content = "o".repeat(600);
    let d = describe_conflict(&c);
    assert!(d.contains(&format!("Our version: {}... (truncated)\n\n", "o".repeat(500))));
}

#[test]
fn request_body_is_json_with_both_messages() {
    let resolver = ConflictResolver::new(settings_with_key("test-key", 3));
    assert_eq!(resolver.api_url, OPENAI_CHAT_URL);
    let c = conflict(Some("Base content"));
    let body = resolver.request_body(&c);
    let v: serde_json::Value = serde_json::from_str(&body).unwrap();
    assert_eq!(v["model"], "gpt-3.5-turbo");
    assert_eq!(v["messages"][0]["role"], "system");
    assert!(v["messages"][0]["content"].as_str().unwrap().starts_with("You are a Git merge"));
    assert_eq!(v["messages"][1]["role"], "user");
    assert_eq!(v["messages"][1]["content"].as_str().unwrap(), describe_conflict(&c));
    assert_eq!(v["temperature"].as_f64(), Some(0.7));
    // the newlines of the description are escaped, not sent raw
    assert!(!body.contains('\n'));
    assert!(body.contains("\\n\\nOur version: Our content"));
}

#[test]
fn authorization_header_and_custom_url() {
    let resolver = ConflictResolver::with_api_url(
        settings_with_key("test-key", 3),
        "http://localhost:1234/v1/chat/completions".to_string(),
    );
    assert_eq!(resolver.api_url, "http://localhost:1234/v1/chat/completions");
    assert_eq!(resolver.authorization().as_deref(), Some("Bearer test-key"));
    let without = ConflictResolver::new(Settings::default());
    assert!(without.authorization().is_none());
}

#[test]
fn missing_key_is_refused_before_any_attempt() {
    let resolver = ConflictResolver::new(Settings::default());
    match resolver.begin() {
        Err(e) => {
            assert!(matches!(e, ResolutionError::MissingCredential));
            assert_eq!(e.message(), "OpenAI API key not set");
        }
        Ok(_) => panic!("a session started without a key"),
    }
}

#[test]
fn reply_with_a_candidate_resolves() {
    let body = r#"{"choices":[{"message":{"content":"merged"}}]}"#;
    let r = interpret_reply(200, body.to_string(), candidates(body));
    assert_eq!(r.unwrap(), "merged");
}

#[test]
fn reply_takes_the_first_candidate() {
    let body = r#"{"choices":[{"message":{"role":"assistant","content":"Resolved content"}},{"message":{"role":"assistant","content":"other"}}]}"#;
    let r = interpret_reply(200, body.to_string(), candidates(body));
    assert_eq!(r.unwrap(), "Resolved content");
}

#[test]
fn reply_without_candidates_fails() {
    let body = r#"{"choices":[]}"#;
    let r = interpret_reply(200, body.to_string(), candidates(body));
    let e = r.unwrap_err();
    assert!(matches!(e, AttemptError::NoCandidates));
    assert_eq!(e.message(), "No resolution provided by AI");
}

#[test]
fn reply_with_error_status_fails_with_status_and_body() {
    let body = r#"{"error":{"message":"Invalid API key","type":"invalid_request_error","code":"invalid_api_key"}}"#;
    let r = interpret_reply(401, body.to_string(), candidates(body));
    let e = r.unwrap_err();
    assert!(matches!(e, AttemptError::HttpStatus { status: 401, .. }));
    let text = e.message();
    assert!(text.contains("API request failed with status 401"));
    assert!(text.ends_with(body));
}

#[test]
fn unreadable_reply_fails() {
    let r = interpret_reply(200, "not json".to_string(), candidates("not json"));
    assert!(matches!(r, Err(AttemptError::Malformed { status: 200, ref body, .. }) if body == "not json"));
    let r = interpret_reply(299, "{\"choices\":".to_string(), Err("eof".to_string()));
    assert_eq!(
        r.unwrap_err().message(),
        "Failed to parse API response: eof, Response: {\"choices\":"
    );
    let r = interpret_reply(300, String::new(), Ok(vec!["x".to_string()]));
    assert!(matches!(r, Err(AttemptError::HttpStatus { status: 300, .. })));
}

#[test]
fn backoff_doubles_from_one_second() {
    assert_eq!(backoff_delay_ms(0), 500);
    assert_eq!(backoff_delay_ms(1), 1000);
    assert_eq!(backoff_delay_ms(2), 2000);
    assert_eq!(backoff_delay_ms(3), 4000);
    assert_eq!(backoff_delay_ms(10), 512_000);
    assert_eq!(backoff_delay_ms(55), 500u64 << 55);
    assert_eq!(backoff_delay_ms(56), u64::MAX);
    assert_eq!(backoff_delay_ms(u64::MAX), u64::MAX);
}

fn failure() -> Result<String, AttemptError> {
    Err(AttemptError::Transport("connection refused".to_string()))
}

#[test]
fn no_retries_means_a_single_attempt() {
    let mut session = RetrySession::new(0);
    assert!(session.can_attempt());
    match session.record(failure()) {
        RetryStep::Finished(Err(ResolutionError::Exhausted { attempts, last })) => {
            assert_eq!(attempts, 1);
            assert!(matches!(last, AttemptError::Transport(_)));
        }
        other => panic!("unexpected step {:?}", other),
    }
    assert!(!session.can_attempt());
}

#[test]
fn retries_wait_before_each_retry_only() {
    // three failures, three retries permitted: the fourth attempt succeeds
    let mut session = RetrySession::new(3);
    let mut waits = Vec::new();
    let mut attempts = 0;
    let mut outcomes = vec![failure(), failure(), failure(), Ok("done".to_string())].into_iter();
    let result = loop {
        attempts += 1;
        match session.record(outcomes.next().unwrap()) {
            RetryStep::Wait { delay_ms } => waits.push(delay_ms),
            RetryStep::Finished(r) => break r,
        }
    };
    assert_eq!(attempts, 4);
    assert_eq!(waits, vec![1000, 2000, 4000]);
    assert_eq!(result.unwrap(), "done");
}

#[test]
fn exhausted_retries_report_the_last_failure() {
    let mut session = RetrySession::new(2);
    let mut waits = Vec::new();
    let mut attempts = 0;
    let result = loop {
        attempts += 1;
        let outcome = if attempts < 3 {
            failure()
        } else {
            Err(AttemptError::HttpStatus { status: 500, body: "oops".to_string() })
        };
        match session.record(outcome) {
            RetryStep::Wait { delay_ms } => waits.push(delay_ms),
            RetryStep::Finished(r) => break r,
        }
    };
    assert_eq!(attempts, 3);
    assert_eq!(waits, vec![1000, 2000]);
    let e = result.unwrap_err();
    assert_eq!(
        e.message(),
        "Failed to get AI resolution after 3 attempts: API request failed with status 500: oops"
    );
}

#[test]
fn session_starts_with_configured_retries() {
    let resolver = ConflictResolver::new(settings_with_key("k", 5));
    let session = resolver.begin().unwrap();
    assert_eq!(session.max_retries, 5);
    assert_eq!(session.attempts, 0);
}

#[test]
fn request_frame_places_the_literals() {
    let body = frame_request_body("\"m\"", "\"sys\"", "\"user\"");
    assert_eq!(
        body,
        "{\"model\":\"m\",\"messages\":[{\"role\":\"system\",\"content\":\"sys\"},{\"role\":\"user\",\"content\":\"user\"}],\"temperature\":0.7}"
    );
}

#[test]
fn request_body_escapes_like_json() {
    let mut settings = settings_with_key("k", 0);
    settings.model = "m\u{1}\"\\\t\u{8}\u{c}\r\u{1f}é".to_string();
    let resolver = ConflictResolver::new(settings);
    let body = resolver.request_body(&conflict(None));
    assert!(body.starts_with("{\"model\":\"m\\u0001\\\"\\\\\\t\\b\\f\\r\\u001fé\",\"messages\":"));
    let v: serde_json::Value = serde_json::from_str(&body).unwrap();
    assert_eq!(v["model"].as_str().unwrap(), resolver.settings.model);
}
