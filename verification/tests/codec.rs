use gpt_cli::chat_manager::{
    AssistantMetadata, ChatHistory, Message, ModelMetadata, Role, UsageSnapshot,
};
use gpt_cli::codec::{
    escape, parse_u32, render_i64, render_u64, select_regular_files, trim_str, unescape,
};

fn test_session() -> ChatHistory {
    ChatHistory::new(
        ModelMetadata { name: "gpt-4".to_string(), token_limit: 8192 },
        AssistantMetadata::new("Prompt with\nnewline and \\ backslash".to_string()),
    )
}

#[test]
fn escape_round_trips_specials() {
    let raw = "a\\b\nc";
    let e = escape(raw);
    assert_eq!(e, "a\\\\b\\nc");
    assert_eq!(unescape(&e).as_deref(), Some(raw));
}

#[test]
fn unescape_rejects_dangling_escape() {
    assert_eq!(unescape("abc\\"), None);
    assert_eq!(unescape("\\x"), None);
}

#[test]
fn numbers_render_and_parse_exactly() {
    assert_eq!(render_u64(0), "0");
    assert_eq!(render_u64(12345), "12345");
    assert_eq!(render_i64(-1), "-1");
    assert_eq!(render_i64(42), "42");
    assert_eq!(parse_u32("0"), Some(0));
    assert_eq!(parse_u32("12345"), Some(12345));
    assert_eq!(parse_u32("4294967295"), Some(u32::MAX));
    assert_eq!(parse_u32("4294967296"), None);
    assert_eq!(parse_u32(""), None);
    assert_eq!(parse_u32("12a"), None);
}

#[test]
fn trim_drops_surrounding_whitespace_only() {
    assert_eq!(trim_str("  a title \n"), "a title");
    assert_eq!(trim_str("clean"), "clean");
    assert_eq!(trim_str("   \n"), "");
    assert_eq!(trim_str(""), "");
}

#[test]
fn trim_drops_unicode_whitespace_as_std_does() {
    let padded = "\u{a0}\u{2003}a title\u{3000}\u{2028}";
    assert_eq!(trim_str(padded), padded.trim());
    assert_eq!(trim_str(padded), "a title");
    assert_eq!(trim_str("inner\u{a0}kept"), "inner\u{a0}kept");
}

#[test]
fn document_round_trips_a_full_session() {
    let mut h = test_session();
    h.begin_user_turn("hi there");
    let choices = vec![Message {
        role: Role::Assistant,
        content: "hello!\nhow can I help?".to_string(),
        name: None,
    }];
    h.complete_turn(&choices, Some(UsageSnapshot { total_tokens: 77 })).unwrap();
    h.apply_title("greeting_chat");
    let doc = h.to_document();
    let back = ChatHistory::from_document(&doc).unwrap();
    assert_eq!(back, h);
    assert_eq!(back.to_document(), doc);
}

#[test]
fn document_round_trips_absent_fields() {
    let h = test_session();
    let back = ChatHistory::from_document(&h.to_document()).unwrap();
    assert_eq!(back, h);
    assert!(back.token_usage().is_none());
    assert!(back.title().is_none());
}

#[test]
fn document_with_named_user_message_round_trips() {
    let doc = "model m\nlimit 100\npersona p\nstarted +2023-04-01T00:00:00+00:00\ntitle -\nusage +9\nrole user\nname +alice\ncontent hi\n";
    let h = ChatHistory::from_document(doc).unwrap();
    assert_eq!(h.messages().len(), 1);
    assert_eq!(h.messages()[0].role, Role::User);
    assert_eq!(h.messages()[0].name.as_deref(), Some("alice"));
    assert_eq!(h.token_usage(), Some(UsageSnapshot { total_tokens: 9 }));
    let again = ChatHistory::from_document(&h.to_document()).unwrap();
    assert_eq!(again, h);
}

#[test]
fn canonical_document_text_is_reproduced_exactly() {
    let doc = "model gpt-4\nlimit 8192\npersona be\\nbrief\nstarted +2023-04-01T00:00:00+00:00\ntitle +my_chat\nusage +55\nrole system\nname -\ncontent be\\nbrief\nrole user\nname +bob\ncontent hi\n";
    let h = ChatHistory::from_document(doc).unwrap();
    assert_eq!(h.to_document(), doc);
}

#[test]
fn escape_keeps_plain_text_unchanged() {
    assert_eq!(escape("héllo wörld"), "héllo wörld");
    assert_eq!(escape(""), "");
    assert_eq!(unescape("").as_deref(), Some(""));
}

#[test]
fn malformed_documents_are_refused() {
    assert!(ChatHistory::from_document("").is_err());
    assert!(ChatHistory::from_document("no trailing newline").is_err());
    assert!(ChatHistory::from_document("model m\nlimit x\npersona p\nstarted -\ntitle -\nusage -\n").is_err());
    assert!(ChatHistory::from_document("model m\nlimit 10\npersona p\nstarted -\ntitle -\n").is_err());
    assert!(ChatHistory::from_document("model m\nlimit 10\npersona p\nstarted -\ntitle -\nusage -\nrole user\n").is_err());
    assert!(ChatHistory::from_document("model m\nlimit 10\npersona p\nstarted -\ntitle -\nusage -\nrole emperor\nname -\ncontent hi\n").is_err());
    assert!(ChatHistory::from_document("model m\nlimit 4294967296\npersona p\nstarted -\ntitle -\nusage -\n").is_err());
}

#[test]
fn file_name_derives_from_start_and_title() {
    let doc = "model m\nlimit 100\npersona p\nstarted +2023-04-01T10:00:00+02:00\ntitle +my_chat\nusage -\n";
    let h = ChatHistory::from_document(doc).unwrap();
    assert_eq!(h.file_name(), "2023-04-01T10:00:00+02:00_my_chat.chat");
}

#[test]
fn file_name_with_absent_title_has_empty_component() {
    let doc = "model m\nlimit 100\npersona p\nstarted +t0\ntitle -\nusage -\n";
    let h = ChatHistory::from_document(doc).unwrap();
    assert_eq!(h.file_name(), "t0_.chat");
}

#[test]
fn listing_an_empty_directory_gives_an_empty_sequence() {
    let r = select_regular_files(vec![]);
    assert!(r.is_empty());
}

#[test]
fn listing_keeps_only_regular_files_in_order() {
    let entries = vec![
        ("a.chat".to_string(), true),
        ("subdir".to_string(), false),
        ("b.chat".to_string(), true),
    ];
    assert_eq!(select_regular_files(entries), vec!["a.chat".to_string(), "b.chat".to_string()]);
}
