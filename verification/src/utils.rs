//! Model identities, the session clock, and the fixed system-prompt
//! catalogue.

use crate::chat_manager::{AssistantMetadata, ModelMetadata};
use vstd::prelude::*;

verus! {

pub const GPT_3_5_MODEL_TOKEN_LIMIT: u32 = 4096;

pub const GPT_4_8K_MODEL_TOKEN_LIMIT: u32 = 8192;

pub const GPT_4_32K_MODEL_TOKEN_LIMIT: u32 = 32768;

/// The chat models this client knows, each with a fixed provider-facing
/// name and context-token budget.
#[allow(non_camel_case_types)]
#[derive(Clone, Copy, Debug, PartialEq, Eq, Structural, Hash)]
pub enum ChatGptModel {
    GPT_3_5,
    GPT_4_8k,
    GPT_4_32k,
}

impl Default for ChatGptModel {
    fn default() -> (m: ChatGptModel)
        ensures
            m == ChatGptModel::GPT_3_5,
    {
        ChatGptModel::GPT_3_5
    }
}

/// The provider-facing name of a model.
pub open spec fn model_name_spec(m: ChatGptModel) -> Seq<char> {
    match m {
        ChatGptModel::GPT_3_5 => "gpt-3.5-turbo"@,
        ChatGptModel::GPT_4_8k => "gpt-4"@,
        ChatGptModel::GPT_4_32k => "gpt-4-32k"@,
    }
}

/// The context-token budget of a model.
pub open spec fn model_token_limit_spec(m: ChatGptModel) -> u32 {
    match m {
        ChatGptModel::GPT_3_5 => GPT_3_5_MODEL_TOKEN_LIMIT,
        ChatGptModel::GPT_4_8k => GPT_4_8K_MODEL_TOKEN_LIMIT,
        ChatGptModel::GPT_4_32k => GPT_4_32K_MODEL_TOKEN_LIMIT,
    }
}

impl ChatGptModel {
    pub fn get_model_name(&self) -> (s: &'static str)
        ensures
            s@ == model_name_spec(*self),
    {
        match self {
            ChatGptModel::GPT_3_5 => "gpt-3.5-turbo",
            ChatGptModel::GPT_4_8k => "gpt-4",
            ChatGptModel::GPT_4_32k => "gpt-4-32k",
        }
    }

    pub fn get_model_token_limit(&self) -> (l: u32)
        ensures
            l == model_token_limit_spec(*self),
    {
        match self {
            ChatGptModel::GPT_3_5 => GPT_3_5_MODEL_TOKEN_LIMIT,
            ChatGptModel::GPT_4_8k => GPT_4_8K_MODEL_TOKEN_LIMIT,
            ChatGptModel::GPT_4_32k => GPT_4_32K_MODEL_TOKEN_LIMIT,
        }
    }

    pub fn to_model_metadata(self) -> (m: ModelMetadata)
        ensures
            m@.name == model_name_spec(self),
            m@.token_limit == model_token_limit_spec(self),
    {
        ModelMetadata {
            name: self.get_model_name().to_owned(),
            token_limit: self.get_model_token_limit(),
        }
    }
}

/// The current wall-clock time as an RFC 3339 timestamp string.
///
/// Relies on chrono's Local::now to read the system clock and on
/// DateTime::to_rfc3339 to format the instant it returns; the value
/// depends on the clock, so nothing is promised of it.
#[verifier::external_body]
pub fn now_rfc3339() -> String {
    chrono::Local::now().to_rfc3339()
}

/// The fixed opening of the default assistant persona's system prompt;
/// the current time is appended to it.
pub open spec fn default_instructions_prefix() -> Seq<char> {
    "You are ChatGPT, a large language model trained by OpenAI. \nAnswer as concisely as possible. Knowledge cutoff year September 2021 Current date and time: "@
}

/// The fixed opening of the Joi assistant persona's system prompt; the
/// current time is appended to it.
pub open spec fn joi_instructions_prefix() -> Seq<char> {
    "You are Joi. The cheerful and helpful AI assistant. Answer as concisely as possible.\nKnowledge cutoff year September 2021 Current date and time: "@
}

/// The catalogue of assistant personas this client offers, keyed by
/// name: the default one first, then the Joi persona, both stamped with
/// the same current-time reading.
pub fn generate_system_instructions() -> (v: Vec<(String, AssistantMetadata)>)
    ensures
        v@.len() == 2,
        v@[0].0@ == "default"@,
        v@[1].0@ == "joi"@,
        exists|t: Seq<char>|
            #![auto]
            v@[0].1@.system_prompt == default_instructions_prefix() + t && v@[1].1@.system_prompt
                == joi_instructions_prefix() + t,
{
    let time = now_rfc3339();
    let mut v: Vec<(String, AssistantMetadata)> = Vec::new();
    let mut d =
        "You are ChatGPT, a large language model trained by OpenAI. \nAnswer as concisely as possible. Knowledge cutoff year September 2021 Current date and time: ".to_owned();
    d.append(time.as_str());
    let ghost dp = d@;
    v.push(("default".to_owned(), AssistantMetadata::new(d)));
    let mut j =
        "You are Joi. The cheerful and helpful AI assistant. Answer as concisely as possible.\nKnowledge cutoff year September 2021 Current date and time: ".to_owned();
    j.append(time.as_str());
    let ghost jp = j@;
    v.push(("joi".to_owned(), AssistantMetadata::new(j)));
    proof {
        assert(v@[0].1@.system_prompt == default_instructions_prefix() + time@);
        assert(v@[1].1@.system_prompt == joi_instructions_prefix() + time@);
    }
    v
}

/// The actions a user can pick from the in-chat menu.
#[derive(Clone, Copy, Debug, PartialEq, Eq, Structural)]
pub enum UserActions {
    ReturnToChat,
    RecreateTitle,
    RegenerateResponse,
    PrintChatHistory,
}

/// The menu label of an action.
pub open spec fn user_action_label(a: UserActions) -> Seq<char> {
    match a {
        UserActions::ReturnToChat => "Return to chat"@,
        UserActions::RecreateTitle => "Recreate title"@,
        UserActions::RegenerateResponse => "Regenerate response"@,
        UserActions::PrintChatHistory => "Print chat history"@,
    }
}

impl UserActions {
    pub fn as_str(&self) -> (s: &'static str)
        ensures
            s@ == user_action_label(*self),
    {
        match self {
            UserActions::ReturnToChat => "Return to chat",
            UserActions::RecreateTitle => "Recreate title",
            UserActions::RegenerateResponse => "Regenerate response",
            UserActions::PrintChatHistory => "Print chat history",
        }
    }

    /// Every action, in menu order.
    pub fn all() -> (v: Vec<UserActions>)
        ensures
            v@ == seq![
                UserActions::ReturnToChat,
                UserActions::RecreateTitle,
                UserActions::RegenerateResponse,
                UserActions::PrintChatHistory,
            ],
    {
        let mut v: Vec<UserActions> = Vec::new();
        v.push(UserActions::ReturnToChat);
        v.push(UserActions::RecreateTitle);
        v.push(UserActions::RegenerateResponse);
        v.push(UserActions::PrintChatHistory);
        assert(v@ =~= seq![
            UserActions::ReturnToChat,
            UserActions::RecreateTitle,
            UserActions::RegenerateResponse,
            UserActions::PrintChatHistory,
        ]);
        v
    }

    /// The menu labels of every action, in menu order.
    pub fn all_str() -> (v: Vec<&'static str>)
        ensures
            v@.len() == 4,
            forall|i: int|
                0 <= i < 4 ==> v@[i]@ == user_action_label(Self::all_spec()[i]),
    {
        let actions = Self::all();
        let mut v: Vec<&'static str> = Vec::new();
        let mut i: usize = 0;
        while i < actions.len()
            invariant
                i <= actions.len(),
                actions@ == Self::all_spec(),
                v@.len() == i,
                forall|j: int| 0 <= j < i ==> v@[j]@ == user_action_label(Self::all_spec()[j]),
            decreases actions.len() - i,
        {
            v.push(actions[i].as_str());
            i = i + 1;
        }
        v
    }

    /// Every action, in menu order, as a mathematical sequence.
    pub open spec fn all_spec() -> Seq<UserActions> {
        seq![
            UserActions::ReturnToChat,
            UserActions::RecreateTitle,
            UserActions::RegenerateResponse,
            UserActions::PrintChatHistory,
        ]
    }
}

} // verus!
