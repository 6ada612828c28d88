use gpt_cli::chat_manager::{
    AssistantMetadata, ChatHistory, Message, ModelMetadata, Role, UsageSnapshot,
};

fn test_session() -> ChatHistory {
    ChatHistory::new(
        ModelMetadata { name: "gpt-3.5-turbo".to_string(), token_limit: 4096 },
        AssistantMetadata::new("You are a helpful assistant.".to_string()),
    )
}

#[test]
fn token_estimate_is_deterministic() {
    let mut h = test_session();
    h.begin_user_turn("what is the answer to everything?");
    let first = h.count_tokens();
    let second = h.count_tokens();
    assert!(first.is_some());
    assert_eq!(first, second);
}

#[test]
fn token_estimate_matches_the_overhead_formula() {
    let bpe = tiktoken_rs::cl100k_base().unwrap();
    let mut h = test_session();
    h.begin_user_turn("hello world");
    let choices = vec![Message {
        role: Role::Assistant,
        content: "hi! how can I help?".to_string(),
        name: None,
    }];
    h.complete_turn(&choices, None).unwrap();

    let mut expected: i64 = -1;
    for (role, content) in [
        ("system", "You are a helpful assistant."),
        ("user", "hello world"),
        ("assistant", "hi! how can I help?"),
    ] {
        expected += 4;
        expected += bpe.encode_with_special_tokens(role).len() as i64;
        expected += bpe.encode_with_special_tokens(content).len() as i64;
    }
    assert_eq!(h.count_tokens(), Some(expected));
}

#[test]
fn named_user_message_pays_reduced_overhead_plus_name() {
    let bpe = tiktoken_rs::cl100k_base().unwrap();
    let doc = "model m\nlimit 100\npersona ignored\nstarted -\ntitle -\nusage -\nrole user\nname +alice\ncontent hi\n";
    let h = ChatHistory::from_document(doc).unwrap();

    let expected: i64 = -1 + 3
        + bpe.encode_with_special_tokens("alice").len() as i64
        + bpe.encode_with_special_tokens("user").len() as i64
        + bpe.encode_with_special_tokens("hi").len() as i64;
    assert_eq!(h.count_tokens(), Some(expected));
}

#[test]
fn empty_log_estimate_is_the_correction_constant() {
    let mut h = test_session();
    let _ = h.pop_last_message();
    assert_eq!(h.count_tokens(), Some(-1));
}

#[test]
fn token_estimate_grows_with_each_message() {
    let mut h = test_session();
    let before = h.count_tokens().unwrap();
    h.begin_user_turn("one more message");
    let after = h.count_tokens().unwrap();
    assert!(after > before);
}

#[test]
fn token_count_message_reports_estimate_against_limit() {
    let h = test_session();
    let est = h.count_tokens().unwrap();
    let msg = h.token_count_message().unwrap();
    assert_eq!(msg, format!("Estimated usage {}/4096 tokens", est));
}

#[test]
fn token_usage_message_reports_recorded_usage() {
    let mut h = test_session();
    assert!(h.token_usage_message().is_none());
    h.record_usage(UsageSnapshot { total_tokens: 100 });
    assert_eq!(h.token_usage_message(), Some("Recorded usage 100/4096 tokens".to_string()));
}
