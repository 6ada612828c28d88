pub mod chat_manager;
pub mod cli_history;
pub mod codec;
pub mod configuration;
pub mod tokenizer;
pub mod utils;
