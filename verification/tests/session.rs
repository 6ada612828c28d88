use gpt_cli::chat_manager::{
    AssistantMetadata, ChatError, ChatHistory, Message, ModelMetadata, Role, StreamAccumulator,
    UsageSnapshot,
};

fn test_session() -> ChatHistory {
    ChatHistory::new(
        ModelMetadata { name: "gpt-3.5-turbo".to_string(), token_limit: 4096 },
        AssistantMetadata::new("You are a helpful assistant.".to_string()),
    )
}

#[test]
fn create_seeds_one_system_message() {
    let h = test_session();
    assert_eq!(h.messages().len(), 1);
    assert_eq!(h.messages()[0].role, Role::System);
    assert_eq!(h.messages()[0].content, "You are a helpful assistant.");
    assert_eq!(h.messages()[0].name, None);
    assert!(h.token_usage().is_none());
    assert!(h.title().is_none());
    assert!(h.started_at().is_some());
}

#[test]
fn pop_last_message_on_empty_log_returns_absent() {
    let mut h = test_session();
    let first = h.pop_last_message();
    assert!(first.is_some());
    assert_eq!(first.unwrap().role, Role::System);
    assert_eq!(h.messages().len(), 0);
    assert!(h.pop_last_message().is_none());
    assert_eq!(h.messages().len(), 0);
}

#[test]
fn complete_turn_appends_user_and_assistant() {
    let mut h = test_session();
    h.begin_user_turn("hi");
    assert_eq!(h.messages().len(), 2);
    assert_eq!(h.messages()[1].role, Role::User);
    assert_eq!(h.messages()[1].content, "hi");
    let choices = vec![Message {
        role: Role::Assistant,
        content: "hello".to_string(),
        name: None,
    }];
    let reply = h.complete_turn(&choices, Some(UsageSnapshot { total_tokens: 42 })).unwrap();
    assert_eq!(reply, "hello");
    assert_eq!(h.messages().len(), 3);
    assert_eq!(h.messages()[2].role, Role::Assistant);
    assert_eq!(h.messages()[2].content, "hello");
    assert_eq!(h.token_usage(), Some(UsageSnapshot { total_tokens: 42 }));
}

#[test]
fn complete_turn_without_choice_is_refused() {
    let mut h = test_session();
    h.begin_user_turn("hi");
    let before = h.messages().len();
    let r = h.complete_turn(&vec![], Some(UsageSnapshot { total_tokens: 42 }));
    assert_eq!(r, Err(ChatError::MalformedResponse));
    assert_eq!(h.messages().len(), before);
    assert!(h.token_usage().is_none());
}

#[test]
fn complete_turn_keeps_prior_usage_when_none_reported() {
    let mut h = test_session();
    h.record_usage(UsageSnapshot { total_tokens: 7 });
    h.begin_user_turn("hi");
    let choices = vec![Message { role: Role::Assistant, content: "ok".to_string(), name: None }];
    h.complete_turn(&choices, None).unwrap();
    assert_eq!(h.token_usage(), Some(UsageSnapshot { total_tokens: 7 }));
}

#[test]
fn streaming_accumulation_forwards_fragments_in_order() {
    let mut h = test_session();
    h.begin_user_turn("hi");
    let mut acc = StreamAccumulator::new();
    let mut sink: Vec<String> = Vec::new();
    let deltas: Vec<(Option<Role>, Option<&str>)> = vec![
        (Some(Role::Assistant), None),
        (None, Some("Hel")),
        (None, Some("lo")),
    ];
    for (role, content) in deltas {
        if let Some(frag) = acc.apply_delta(role, content) {
            sink.push(frag);
        }
    }
    assert_eq!(sink, vec!["Hel".to_string(), "lo".to_string()]);
    let text = h.finish_streamed_turn(acc);
    assert_eq!(text, "Hello");
    let last = &h.messages()[h.messages().len() - 1];
    assert_eq!(last.role, Role::Assistant);
    assert_eq!(last.content, "Hello");
}

#[test]
fn abandoned_stream_leaves_log_unchanged() {
    let mut h = test_session();
    h.begin_user_turn("hi");
    let len_after_user = h.messages().len();
    let mut acc = StreamAccumulator::new();
    let _ = acc.apply_delta(Some(Role::Assistant), Some("par"));
    drop(acc);
    assert_eq!(h.messages().len(), len_after_user);
    assert_eq!(h.messages()[len_after_user - 1].role, Role::User);
}

#[test]
fn mid_stream_usage_overwrites_earlier_one() {
    let mut h = test_session();
    h.record_usage(UsageSnapshot { total_tokens: 10 });
    h.record_usage(UsageSnapshot { total_tokens: 25 });
    assert_eq!(h.token_usage(), Some(UsageSnapshot { total_tokens: 25 }));
}

#[test]
fn regenerate_keeps_log_length() {
    let mut h = test_session();
    h.begin_user_turn("hi");
    let choices = vec![Message {
        role: Role::Assistant,
        content: "hello".to_string(),
        name: None,
    }];
    h.complete_turn(&choices, None).unwrap();
    assert_eq!(h.messages().len(), 3);

    let prompt = h.regenerate_prompt();
    assert_eq!(prompt, "hi");
    assert_eq!(h.messages().len(), 1);
    h.begin_user_turn(&prompt);
    let new_choices = vec![Message {
        role: Role::Assistant,
        content: "hello again".to_string(),
        name: None,
    }];
    h.complete_turn(&new_choices, None).unwrap();
    assert_eq!(h.messages().len(), 3);
    assert_eq!(h.messages()[1].role, Role::User);
    assert_eq!(h.messages()[1].content, "hi");
    assert_eq!(h.messages()[2].role, Role::Assistant);
    assert_eq!(h.messages()[2].content, "hello again");
}

#[test]
fn regenerate_on_short_log_yields_empty_prompt() {
    let mut h = test_session();
    let prompt = h.regenerate_prompt();
    assert_eq!(prompt, "");
    assert_eq!(h.messages().len(), 0);
}

#[test]
fn apply_title_trims_the_reply() {
    let mut h = test_session();
    assert!(!h.has_title());
    h.apply_title("  my_chat_title \n");
    assert!(h.has_title());
    assert_eq!(h.title().as_deref(), Some("my_chat_title"));
}

#[test]
fn title_request_appends_meta_instruction_to_a_copy() {
    let mut h = test_session();
    h.begin_user_turn("hi");
    let req = h.title_request_messages();
    assert_eq!(req.len(), h.messages().len() + 1);
    let last = &req[req.len() - 1];
    assert_eq!(last.role, Role::User);
    assert!(last.content.starts_with("How would you title this conversation"));
    assert_eq!(h.messages().len(), 2);
}

#[test]
fn error_messages_name_the_failure() {
    assert_eq!(ChatError::MalformedResponse.message(), "response lacks any choice");
}
