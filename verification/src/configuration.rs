//! The user-level configuration the client keeps on disk: the API key
//! for the remote chat-completion service.

use vstd::prelude::*;

verus! {

/// The client's user configuration.
pub struct AppConfig {
    pub open_ai_api_key: String,
}

impl AppConfig {
    /// A configuration carrying the given API key.
    pub fn new(open_ai_api_key: String) -> (c: AppConfig)
        ensures
            c.open_ai_api_key@ == open_ai_api_key@,
    {
        AppConfig { open_ai_api_key }
    }
}

impl Default for AppConfig {
    /// A placeholder configuration that points the user at where a real
    /// key is obtained.
    fn default() -> (c: AppConfig)
        ensures
            c.open_ai_api_key@ == "Get token from https://platform.openai.com/account/api-keys"@,
    {
        AppConfig {
            open_ai_api_key: "Get token from https://platform.openai.com/account/api-keys".to_owned(),
        }
    }
}

} // verus!
