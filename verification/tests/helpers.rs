use gpt_cli::chat_manager::AssistantMetadata;
use gpt_cli::cli_history::InMemoryHistory;
use gpt_cli::configuration::AppConfig;
use gpt_cli::utils::{generate_system_instructions, now_rfc3339, ChatGptModel, UserActions};

#[test]
fn model_names_and_limits() {
    assert_eq!(ChatGptModel::GPT_3_5.get_model_name(), "gpt-3.5-turbo");
    assert_eq!(ChatGptModel::GPT_4_8k.get_model_name(), "gpt-4");
    assert_eq!(ChatGptModel::GPT_4_32k.get_model_name(), "gpt-4-32k");
    assert_eq!(ChatGptModel::GPT_3_5.get_model_token_limit(), 4096);
    assert_eq!(ChatGptModel::GPT_4_8k.get_model_token_limit(), 8192);
    assert_eq!(ChatGptModel::GPT_4_32k.get_model_token_limit(), 32768);
    assert_eq!(ChatGptModel::default(), ChatGptModel::GPT_3_5);
}

#[test]
fn model_metadata_carries_name_and_limit() {
    let m = ChatGptModel::GPT_4_8k.to_model_metadata();
    assert_eq!(m.name, "gpt-4");
    assert_eq!(m.token_limit, 8192);
}

#[test]
fn user_actions_labels() {
    let all = UserActions::all();
    assert_eq!(all.len(), 4);
    assert_eq!(all[0].as_str(), "Return to chat");
    assert_eq!(all[1].as_str(), "Recreate title");
    assert_eq!(all[2].as_str(), "Regenerate response");
    assert_eq!(all[3].as_str(), "Print chat history");
    let labels = UserActions::all_str();
    assert_eq!(labels, vec![
        "Return to chat",
        "Recreate title",
        "Regenerate response",
        "Print chat history",
    ]);
}

#[test]
fn system_instructions_catalogue() {
    let v = generate_system_instructions();
    assert_eq!(v.len(), 2);
    assert_eq!(v[0].0, "default");
    assert_eq!(v[1].0, "joi");
    assert!(v[0].1.system_prompt.starts_with("You are ChatGPT"));
    assert!(v[1].1.system_prompt.starts_with("You are Joi"));
    assert!(v[0].1.system_prompt.contains("Knowledge cutoff year September 2021"));
}

#[test]
fn assistant_metadata_keeps_the_prompt() {
    let a = AssistantMetadata::new("be nice".to_string());
    assert_eq!(a.system_prompt, "be nice");
}

#[test]
fn now_rfc3339_is_a_timestamp() {
    let t = now_rfc3339();
    assert!(t.len() >= 19);
    assert!(t.contains('T'));
}

#[test]
fn in_memory_history_reads_back_newest_first() {
    let mut h = InMemoryHistory::default();
    assert_eq!(h.read(0), None);
    h.write("first".to_string());
    h.write("second".to_string());
    assert_eq!(h.read(0).as_deref(), Some("second"));
    assert_eq!(h.read(1).as_deref(), Some("first"));
    assert_eq!(h.read(2), None);
}

#[test]
fn in_memory_history_drops_oldest_at_capacity() {
    let mut h = InMemoryHistory::default();
    for i in 0..25 {
        h.write(format!("entry {}", i));
    }
    assert_eq!(h.read(0).as_deref(), Some("entry 24"));
    assert_eq!(h.read(19).as_deref(), Some("entry 5"));
    assert_eq!(h.read(20), None);
}

#[test]
fn default_config_points_at_the_key_page() {
    let c = AppConfig::default();
    assert_eq!(c.open_ai_api_key, "Get token from https://platform.openai.com/account/api-keys");
    let fresh = AppConfig::new("sk-test".to_string());
    assert_eq!(fresh.open_ai_api_key, "sk-test");
}
