//! The conversation session core: the ordered message log, the session
//! metadata, and the lifecycle operations on a conversation.

use crate::codec::{
    dec_digits, dec_digits_signed, escape, file_name_spec, header_lines, join_lines_exec,
    lemma_messages_lines_append, message_lines, messages_lines, parse_doc, parse_doc_lines,
    parse_message_lines, parse_messages_lines, parse_opt_num, parse_opt_str, parse_role_str,
    parse_u32, render_doc, render_i64, render_line, render_opt_num, render_opt_str, render_u64,
    split_lines_exec, strip_tag, trim_spec, trim_str, unescape, FormatError,
};
use crate::tokenizer::{token_count_of, tokenizes, Tokenizer};
use vstd::prelude::*;

verus! {

/// The speaker of one conversational turn.
#[derive(Clone, Copy, Debug, PartialEq, Eq, Structural)]
pub enum Role {
    System,
    User,
    Assistant,
}

/// The textual form of a role, as the remote service spells it.
pub open spec fn role_label(r: Role) -> Seq<char> {
    match r {
        Role::System => "system"@,
        Role::User => "user"@,
        Role::Assistant => "assistant"@,
    }
}

impl Role {
    /// The role's textual label.
    pub fn label(&self) -> (s: &'static str)
        ensures
            s@ == role_label(*self),
    {
        match self {
            Role::System => "system",
            Role::User => "user",
            Role::Assistant => "assistant",
        }
    }
}

/// One conversational turn: who spoke, the text, and an optional
/// participant label (meaningful only for the User role).
#[derive(Clone, Debug, PartialEq)]
pub struct Message {
    pub role: Role,
    pub content: String,
    pub name: Option<String>,
}

/// The mathematical value of a `Message`.
#[verifier::ext_equal]
pub struct MessageView {
    pub role: Role,
    pub content: Seq<char>,
    pub name: Option<Seq<char>>,
}

impl View for Message {
    type V = MessageView;

    open spec fn view(&self) -> MessageView {
        MessageView {
            role: self.role,
            content: self.content@,
            name: match self.name {
                Some(n) => Some(n@),
                None => None,
            },
        }
    }
}

/// The last total-token figure the remote service reported, when any.
#[derive(Clone, Copy, Debug, PartialEq, Eq, Structural)]
pub struct UsageSnapshot {
    pub total_tokens: u32,
}

/// The provider-facing model name and that model's context-token budget.
#[derive(Clone, Debug, PartialEq)]
pub struct ModelMetadata {
    pub name: String,
    pub token_limit: u32,
}

/// The mathematical value of a `ModelMetadata`.
#[verifier::ext_equal]
pub struct ModelMetadataView {
    pub name: Seq<char>,
    pub token_limit: u32,
}

impl View for ModelMetadata {
    type V = ModelMetadataView;

    open spec fn view(&self) -> ModelMetadataView {
        ModelMetadataView { name: self.name@, token_limit: self.token_limit }
    }
}

/// The system-prompt text that seeds a session's System message.
#[derive(Clone, Debug, PartialEq)]
pub struct AssistantMetadata {
    pub system_prompt: String,
}

/// The mathematical value of an `AssistantMetadata`.
#[verifier::ext_equal]
pub struct AssistantMetadataView {
    pub system_prompt: Seq<char>,
}

impl View for AssistantMetadata {
    type V = AssistantMetadataView;

    open spec fn view(&self) -> AssistantMetadataView {
        AssistantMetadataView { system_prompt: self.system_prompt@ }
    }
}

impl AssistantMetadata {
    pub fn new(system_prompt: String) -> (a: AssistantMetadata)
        ensures
            a@.system_prompt == system_prompt@,
    {
        AssistantMetadata { system_prompt }
    }
}

/// Manager for conversations: the ordered message log plus the
/// session's metadata and last-known usage figure.
#[derive(Clone, Debug, PartialEq)]
pub struct ChatHistory {
    history: Vec<Message>,
    token_usage: Option<UsageSnapshot>,
    conversation_start: Option<String>,
    conversation_title: Option<String>,
    model_metadata: ModelMetadata,
    assistant_metadata: AssistantMetadata,
}

/// The mathematical value of a whole session.
#[verifier::ext_equal]
pub struct ChatHistoryView {
    pub messages: Seq<MessageView>,
    pub usage: Option<u32>,
    pub started_at: Option<Seq<char>>,
    pub title: Option<Seq<char>>,
    pub model: ModelMetadataView,
    pub persona: AssistantMetadataView,
}

impl View for ChatHistory {
    type V = ChatHistoryView;

    closed spec fn view(&self) -> ChatHistoryView {
        ChatHistoryView {
            messages: self.history@.map_values(|m: Message| m@),
            usage: match self.token_usage {
                Some(u) => Some(u.total_tokens),
                None => None,
            },
            started_at: match self.conversation_start {
                Some(s) => Some(s@),
                None => None,
            },
            title: match self.conversation_title {
                Some(t) => Some(t@),
                None => None,
            },
            model: self.model_metadata@,
            persona: self.assistant_metadata@,
        }
    }
}

/// An error of the conversation lifecycle itself.
#[derive(Clone, Copy, Debug, PartialEq, Eq, Structural)]
pub enum ChatError {
    /// The remote service's reply carried no choice at all.
    MalformedResponse,
}

impl ChatError {
    /// A short description of the error.
    pub fn message(&self) -> (s: &'static str)
        ensures
            s@ == "response lacks any choice"@,
    {
        "response lacks any choice"
    }
}

/// True when `b` keeps every session field of `a` except the message log.
pub open spec fn metadata_unchanged(a: ChatHistoryView, b: ChatHistoryView) -> bool {
    &&& b.usage == a.usage
    &&& b.started_at == a.started_at
    &&& b.title == a.title
    &&& b.model == a.model
    &&& b.persona == a.persona
}

/// The assistant message that a reply turns into: its role and content,
/// with no participant label.
pub open spec fn reply_message(m: MessageView) -> MessageView {
    MessageView { role: m.role, content: m.content, name: None }
}

/// The fixed meta-instruction appended (to a copy of the log only) when
/// asking the service to title the conversation.
pub open spec fn title_prompt() -> Seq<char> {
    "How would you title this conversation up until before this message? Answer in all lowercase with underscores \n\"_\" between words so that it can be used as a file name. Be concise."@
}

/// An exact copy of a message.
pub fn clone_message(m: &Message) -> (c: Message)
    ensures
        c@ == m@,
{
    Message {
        role: m.role,
        content: m.content.clone(),
        name: match &m.name {
            Some(n) => Some(n.clone()),
            None => None,
        },
    }
}

/// An exact copy of a message log.
pub fn clone_messages(v: &Vec<Message>) -> (c: Vec<Message>)
    ensures
        c@.map_values(|m: Message| m@) == v@.map_values(|m: Message| m@),
{
    let mut c: Vec<Message> = Vec::new();
    let mut i: usize = 0;
    while i < v.len()
        invariant
            i <= v@.len(),
            c@.len() == i,
            forall|j: int| 0 <= j < i ==> c@[j]@ == v@[j]@,
        decreases v@.len() - i,
    {
        c.push(clone_message(&v[i]));
        i = i + 1;
    }
    assert(c@.map_values(|m: Message| m@) =~= v@.map_values(|m: Message| m@));
    c
}

impl ChatHistory {
    /// Builds a fresh session: a log holding exactly the one System seed
    /// message carrying the persona's prompt, no usage figure, no title,
    /// and the clock reading of this moment as the start timestamp.
    pub fn new(model_metadata: ModelMetadata, assistant_metadata: AssistantMetadata) -> (h:
        ChatHistory)
        ensures
            h@.messages =~= seq![
                MessageView {
                    role: Role::System,
                    content: assistant_metadata@.system_prompt,
                    name: None,
                },
            ],
            h@.usage is None,
            h@.title is None,
            h@.started_at is Some,
            h@.model == model_metadata@,
            h@.persona == assistant_metadata@,
    {
        let system = Message {
            role: Role::System,
            content: assistant_metadata.system_prompt.clone(),
            name: None,
        };
        let mut history: Vec<Message> = Vec::new();
        history.push(system);
        ChatHistory {
            history,
            token_usage: None,
            conversation_start: Some(crate::utils::now_rfc3339()),
            conversation_title: None,
            model_metadata,
            assistant_metadata,
        }
    }

    /// The conversation log, in order.
    pub fn messages(&self) -> (r: &Vec<Message>)
        ensures
            r@.map_values(|m: Message| m@) == self@.messages,
    {
        &self.history
    }

    /// The session's title, when one has been set.
    pub fn title(&self) -> (r: &Option<String>)
        ensures
            match r {
                Some(t) => self@.title == Some(t@),
                None => self@.title is None,
            },
    {
        &self.conversation_title
    }

    /// The session's start timestamp, when one is recorded.
    pub fn started_at(&self) -> (r: &Option<String>)
        ensures
            match r {
                Some(t) => self@.started_at == Some(t@),
                None => self@.started_at is None,
            },
    {
        &self.conversation_start
    }

    /// The model this session talks to.
    pub fn model_metadata(&self) -> (r: &ModelMetadata)
        ensures
            r@ == self@.model,
    {
        &self.model_metadata
    }

    /// The persona this session was seeded with.
    pub fn assistant_metadata(&self) -> (r: &AssistantMetadata)
        ensures
            r@ == self@.persona,
    {
        &self.assistant_metadata
    }

    /// The usage figure as last reported by the remote service, when any.
    ///
    /// Streaming completions frequently omit it, so it may stay absent.
    pub fn token_usage(&self) -> (u: Option<UsageSnapshot>)
        ensures
            match u {
                Some(s) => self@.usage == Some(s.total_tokens),
                None => self@.usage is None,
            },
    {
        self.token_usage
    }

    /// Removes and returns the final message, or `None` on an empty log.
    ///
    /// The System seed message can be popped too: the regenerate workflow
    /// needs the log fully poppable.
    pub fn pop_last_message(&mut self) -> (m: Option<Message>)
        ensures
            old(self)@.messages.len() == 0 ==> m is None && final(self)@ == old(self)@,
            old(self)@.messages.len() > 0 ==> (m matches Some(msg) && msg@ == old(
                self,
            )@.messages.last() && final(self)@.messages =~= old(self)@.messages.drop_last()),
            metadata_unchanged(old(self)@, final(self)@),
    {
        let r = self.history.pop();
        match r {
            Some(msg) => Some(msg),
            None => None,
        }
    }

    /// Appends the user's utterance to the log as a User message.
    pub fn begin_user_turn(&mut self, user_message: &str)
        ensures
            final(self)@.messages =~= old(self)@.messages.push(
                MessageView { role: Role::User, content: user_message@, name: None },
            ),
            metadata_unchanged(old(self)@, final(self)@),
    {
        let msg = Message { role: Role::User, content: user_message.to_owned(), name: None };
        self.history.push(msg);
    }

    /// Applies a non-streaming reply to the session: appends the first
    /// choice as the assistant's turn, keeps a reported usage figure, and
    /// hands back the reply text. A reply without any choice is refused
    /// and leaves the session unchanged.
    pub fn complete_turn(&mut self, choices: &Vec<Message>, usage: Option<UsageSnapshot>) -> (r:
        Result<String, ChatError>)
        ensures
            choices@.len() == 0 ==> r == Err::<String, ChatError>(ChatError::MalformedResponse)
                && final(self)@ == old(self)@,
            choices@.len() > 0 ==> (r matches Ok(text) && text@ == choices@[0]@.content
                && final(self)@.messages =~= old(self)@.messages.push(reply_message(choices@[0]@))
                && final(self)@.usage == (match usage {
                Some(u) => Some(u.total_tokens),
                None => old(self)@.usage,
            }) && final(self)@.started_at == old(self)@.started_at && final(self)@.title == old(self)@.title
                && final(self)@.model == old(self)@.model && final(self)@.persona == old(self)@.persona),
    {
        if choices.len() == 0 {
            return Err(ChatError::MalformedResponse);
        }
        let first = &choices[0];
        let added = Message { role: first.role, content: first.content.clone(), name: None };
        self.history.push(added);
        if let Some(u) = usage {
            self.token_usage = Some(u);
        }
        Ok(first.content.clone())
    }

    /// Keeps a usage figure the remote service reported mid-stream;
    /// a later report always supersedes an earlier one.
    pub fn record_usage(&mut self, usage: UsageSnapshot)
        ensures
            final(self)@.usage == Some(usage.total_tokens),
            final(self)@.messages == old(self)@.messages,
            final(self)@.started_at == old(self)@.started_at,
            final(self)@.title == old(self)@.title,
            final(self)@.model == old(self)@.model,
            final(self)@.persona == old(self)@.persona,
    {
        self.token_usage = Some(usage);
    }

    /// Appends the message a finished delta stream accumulated to, and
    /// hands back its text. Called only on stream exhaustion: abandoning
    /// the accumulator instead leaves the session untouched.
    pub fn finish_streamed_turn(&mut self, acc: StreamAccumulator) -> (text: String)
        ensures
            final(self)@.messages =~= old(self)@.messages.push(
                MessageView {
                    role: match acc@.role {
                        Some(r) => r,
                        None => Role::Assistant,
                    },
                    content: acc@.content,
                    name: None,
                },
            ),
            text@ == acc@.content,
            metadata_unchanged(old(self)@, final(self)@),
    {
        let msg = acc.finish();
        let text = msg.content.clone();
        self.history.push(msg);
        text
    }

    /// True when the session already has a title.
    pub fn has_title(&self) -> (b: bool)
        ensures
            b == (self@.title is Some),
    {
        match &self.conversation_title {
            Some(_) => true,
            None => false,
        }
    }

    /// The message list for a titling request: a copy of the log with the
    /// fixed meta-instruction appended as a User message. The session's
    /// own log is untouched; the meta-instruction is never persisted.
    pub fn title_request_messages(&self) -> (v: Vec<Message>)
        ensures
            v@.map_values(|m: Message| m@) =~= self@.messages.push(
                MessageView { role: Role::User, content: title_prompt(), name: None },
            ),
    {
        let mut v = clone_messages(&self.history);
        let prompt =
            "How would you title this conversation up until before this message? Answer in all lowercase with underscores \n\"_\" between words so that it can be used as a file name. Be concise.";
        v.push(Message { role: Role::User, content: prompt.to_owned(), name: None });
        v
    }

    /// Pops the last two messages (expected: the prior assistant reply,
    /// then the prior user prompt) and hands back the prompt text for
    /// resubmission; an empty string when the log held fewer than two
    /// messages.
    pub fn regenerate_prompt(&mut self) -> (s: String)
        ensures
            old(self)@.messages.len() >= 2 ==> final(self)@.messages =~= old(
                self,
            )@.messages.drop_last().drop_last() && s@ == old(self)@.messages[old(
                self,
            )@.messages.len() - 2].content,
            old(self)@.messages.len() == 1 ==> final(self)@.messages.len() == 0 && s@ == Seq::<
                char,
            >::empty(),
            old(self)@.messages.len() == 0 ==> final(self)@ == old(self)@ && s@ == Seq::<char>::empty(),
            metadata_unchanged(old(self)@, final(self)@),
    {
        let _ = self.pop_last_message();
        match self.pop_last_message() {
            Some(m) => m.content,
            None => String::new(),
        }
    }
}

/// What one message adds to the local token estimate: a per-message
/// overhead of 4 tokens — except that a User message carrying a
/// participant label pays 3 and adds the label's token count — plus the
/// token counts of the role label's textual form and of the content.
pub open spec fn message_token_estimate(m: MessageView) -> int {
    (match m.name {
        Some(n) => if m.role == Role::User {
            3 + token_count_of(n) as int
        } else {
            4
        },
        None => 4,
    }) + token_count_of(role_label(m.role)) as int + token_count_of(m.content) as int
}

/// The local token estimate of a whole log: a running count started at
/// -1 (an empirically-derived correction constant, a documented bias)
/// plus every message's addition, in order.
pub open spec fn log_token_estimate(log: Seq<MessageView>) -> int
    decreases log.len(),
{
    if log.len() == 0 {
        -1
    } else {
        log_token_estimate(log.drop_last()) + message_token_estimate(log.last())
    }
}

/// Whether the tokenizer succeeds on every text of one message: the
/// role label, the content, and — for a User message carrying a
/// participant label — the name.
pub open spec fn message_tokenizes(m: MessageView) -> bool {
    &&& tokenizes(role_label(m.role))
    &&& tokenizes(m.content)
    &&& (m.role == Role::User && m.name is Some ==> tokenizes(m.name->0))
}

/// Whether the tokenizer succeeds on every message of a log.
pub open spec fn log_tokenizes(log: Seq<MessageView>) -> bool {
    forall|i: int| 0 <= i < log.len() ==> message_tokenizes(#[trigger] log[i])
}

/// One message never adds fewer than three tokens to the estimate.
pub proof fn lemma_message_token_estimate_min(m: MessageView)
    ensures
        message_token_estimate(m) >= 3,
{
}

/// The estimate of any log is at least the correction constant -1, and
/// grows along the log.
pub proof fn lemma_log_token_estimate_lower_bound(log: Seq<MessageView>)
    ensures
        log_token_estimate(log) >= -1,
    decreases log.len(),
{
    if log.len() > 0 {
        lemma_log_token_estimate_lower_bound(log.drop_last());
    }
}

/// The estimate never shrinks from one prefix of a log to a longer one.
pub proof fn lemma_log_token_estimate_prefix(log: Seq<MessageView>, i: int, j: int)
    requires
        0 <= i <= j <= log.len(),
    ensures
        log_token_estimate(log.take(i)) <= log_token_estimate(log.take(j)),
    decreases j - i,
{
    if i < j {
        lemma_log_token_estimate_prefix(log, i, j - 1);
        let q = log.take(j);
        assert(q.drop_last() =~= log.take(j - 1));
        lemma_message_token_estimate_min(q.last());
    }
}

/// Law: appending a message strictly grows the estimate, by at least
/// three tokens.
pub proof fn lemma_log_token_estimate_push(log: Seq<MessageView>, m: MessageView)
    ensures
        log_token_estimate(log.push(m)) >= log_token_estimate(log) + 3,
{
    assert(log.push(m).drop_last() =~= log);
    assert(log.push(m).last() == m);
    lemma_message_token_estimate_min(m);
}

/// Law: the token estimate is deterministic — it is a pure function of
/// the message log, so any two estimates of an unchanged log are the
/// same integer.
pub proof fn lemma_token_estimate_deterministic(log: Seq<MessageView>, a: int, b: int)
    requires
        a == log_token_estimate(log),
        b == log_token_estimate(log),
    ensures
        a == b,
{
}

/// One message's addition to the estimate, as the tokenizer computes
/// it; `None` exactly when the tokenizer fails on one of the message's
/// texts.
pub fn message_token_count(tok: &Tokenizer, m: &Message) -> (r: Option<u128>)
    ensures
        r is Some <==> message_tokenizes(m@),
        r matches Some(t) ==> t == message_token_estimate(m@),
{
    let role_tokens = match tok.token_count(m.role.label()) {
        Some(n) => n,
        None => {
            return None;
        },
    };
    let content_tokens = match tok.token_count(m.content.as_str()) {
        Some(n) => n,
        None => {
            return None;
        },
    };
    let mut overhead: u128 = 4;
    if let Role::User = m.role {
        if let Some(nm) = &m.name {
            let name_tokens = match tok.token_count(nm.as_str()) {
                Some(n) => n,
                None => {
                    return None;
                },
            };
            overhead = 3 + (name_tokens as u128);
        }
    }
    Some(overhead + (role_tokens as u128) + (content_tokens as u128))
}

impl ChatHistory {
    /// The local estimate of how many tokens the current log would
    /// consume, computed with the given tokenizer. Advisory only; it is
    /// produced exactly when the tokenizer succeeds on every message and
    /// the estimate fits an `i64`.
    pub fn count_tokens_with(&self, tok: &Tokenizer) -> (r: Option<i64>)
        ensures
            r matches Some(n) ==> n == log_token_estimate(self@.messages),
            r is Some <==> (log_tokenizes(self@.messages) && log_token_estimate(self@.messages)
                <= i64::MAX),
    {
        let ghost log = self@.messages;
        let mut sum: u128 = 0;
        let mut i: usize = 0;
        proof {
            assert(log.take(0) =~= Seq::<MessageView>::empty());
        }
        while i < self.history.len()
            invariant
                i <= self.history@.len(),
                log == self@.messages,
                log == self.history@.map_values(|m: Message| m@),
                sum as int == 1 + log_token_estimate(log.take(i as int)),
                forall|j: int| 0 <= j < i ==> message_tokenizes(#[trigger] log[j]),
            decreases self.history@.len() - i,
        {
            let term = match message_token_count(tok, &self.history[i]) {
                Some(t) => t,
                None => {
                    proof {
                        assert(!message_tokenizes(log[i as int]));
                    }
                    return None;
                },
            };
            proof {
                assert(log.take(i + 1 as int).drop_last() =~= log.take(i as int));
                assert(log.take(i + 1 as int).last() == log[i as int]);
            }
            sum = match sum.checked_add(term) {
                Some(t) => t,
                None => {
                    proof {
                        lemma_log_token_estimate_prefix(log, i + 1 as int, log.len() as int);
                        assert(log.take(log.len() as int) =~= log);
                        assert(log_token_estimate(log) > i64::MAX);
                    }
                    return None;
                },
            };
            i = i + 1;
        }
        proof {
            assert(log.take(self.history@.len() as int) =~= log);
        }
        if sum <= (i64::MAX as u128) {
            Some((sum as i64) - 1)
        } else if sum == (i64::MAX as u128) + 1 {
            Some(i64::MAX)
        } else {
            None
        }
    }

    /// The local estimate with the `cl100k_base` tokenizer, as used for
    /// the remote chat models. Advisory only; it is produced exactly
    /// when that tokenizer succeeds on every message and the estimate
    /// fits an `i64`.
    pub fn count_tokens(&self) -> (r: Option<i64>)
        ensures
            r matches Some(n) ==> n == log_token_estimate(self@.messages),
            r is Some <==> (log_tokenizes(self@.messages) && log_token_estimate(self@.messages)
                <= i64::MAX),
    {
        let tok = match Tokenizer::load() {
            Some(t) => t,
            None => {
                // unreachable: the loader promises success
                proof {
                    assert(false);
                }
                return None;
            },
        };
        self.count_tokens_with(&tok)
    }
}

/// The heading a message is shown under in a printed conversation.
pub open spec fn role_heading(r: Role) -> Seq<char> {
    match r {
        Role::System => "System:"@,
        Role::User => "User:"@,
        Role::Assistant => "ChatGPT:"@,
    }
}

/// The line reporting the locally estimated usage against the model's
/// token budget.
pub open spec fn token_count_message_spec(est: int, limit: u32) -> Seq<char> {
    "Estimated usage "@ + dec_digits_signed(est) + seq!['/'] + dec_digits(limit as nat)
        + " tokens"@
}

/// The line reporting the service-recorded usage against the model's
/// token budget.
pub open spec fn token_usage_message_spec(total: u32, limit: u32) -> Seq<char> {
    "Recorded usage "@ + dec_digits(total as nat) + seq!['/'] + dec_digits(limit as nat)
        + " tokens"@
}

impl ChatHistory {
    /// Records the titling reply: the session's title becomes the reply
    /// text with surrounding whitespace trimmed.
    pub fn apply_title(&mut self, response_text: &str)
        ensures
            final(self)@.title == Some(trim_spec(response_text@)),
            final(self)@.messages == old(self)@.messages,
            final(self)@.usage == old(self)@.usage,
            final(self)@.started_at == old(self)@.started_at,
            final(self)@.model == old(self)@.model,
            final(self)@.persona == old(self)@.persona,
    {
        self.conversation_title = Some(trim_str(response_text));
    }

    /// The whole session written as one structured document.
    pub fn to_document(&self) -> (r: String)
        ensures
            r@ == render_doc(self@),
    {
        let mut lines: Vec<String> = Vec::new();
        let name_esc = escape(self.model_metadata.name.as_str());
        lines.push(render_line("model", name_esc.as_str()));
        let limit_dec = render_u64(self.model_metadata.token_limit as u64);
        lines.push(render_line("limit", limit_dec.as_str()));
        let prompt_esc = escape(self.assistant_metadata.system_prompt.as_str());
        lines.push(render_line("persona", prompt_esc.as_str()));
        let started_p = render_opt_str(&self.conversation_start);
        lines.push(render_line("started", started_p.as_str()));
        let title_p = render_opt_str(&self.conversation_title);
        lines.push(render_line("title", title_p.as_str()));
        let usage_num: Option<u32> = match &self.token_usage {
            Some(u) => Some(u.total_tokens),
            None => None,
        };
        let usage_p = render_opt_num(usage_num);
        lines.push(render_line("usage", usage_p.as_str()));
        let ghost ms = self@.messages;
        proof {
            assert(lines@.map_values(|l: String| l@) =~= header_lines(self@));
            assert(messages_lines(ms.take(0)) =~= Seq::<Seq<char>>::empty());
            assert(lines@.map_values(|l: String| l@) =~= header_lines(self@) + messages_lines(
                ms.take(0),
            ));
        }
        let mut i: usize = 0;
        while i < self.history.len()
            invariant
                i <= self.history@.len(),
                ms == self@.messages,
                ms == self.history@.map_values(|m: Message| m@),
                lines@.map_values(|l: String| l@) == header_lines(self@) + messages_lines(
                    ms.take(i as int),
                ),
            decreases self.history@.len() - i,
        {
            let m = &self.history[i];
            let ghost before = lines@.map_values(|l: String| l@);
            lines.push(render_line("role", m.role.label()));
            let name_p = render_opt_str(&m.name);
            lines.push(render_line("name", name_p.as_str()));
            let content_esc = escape(m.content.as_str());
            lines.push(render_line("content", content_esc.as_str()));
            proof {
                assert(lines@.map_values(|l: String| l@) =~= before + message_lines(m@));
                assert(ms.take(i + 1 as int) =~= ms.take(i as int) + seq![ms[i as int]]);
                lemma_messages_lines_append(ms.take(i as int), seq![ms[i as int]]);
                assert(seq![ms[i as int]].skip(1) =~= Seq::<MessageView>::empty());
                assert(messages_lines(Seq::<MessageView>::empty()) =~= Seq::<Seq<char>>::empty());
                assert(messages_lines(seq![ms[i as int]]) =~= message_lines(ms[i as int]));
                assert(m@ == ms[i as int]);
                assert(lines@.map_values(|l: String| l@) =~= header_lines(self@) + messages_lines(
                    ms.take(i + 1 as int),
                ));
            }
            i = i + 1;
        }
        proof {
            assert(ms.take(self.history@.len() as int) =~= ms);
        }
        join_lines_exec(&lines)
    }

    /// A session read back from a structured document; refused exactly
    /// when the text does not match the schema.
    pub fn from_document(s: &str) -> (r: Result<ChatHistory, FormatError>)
        ensures
            r matches Ok(h) ==> parse_doc(s@) == Some(h@),
            r is Err ==> parse_doc(s@) is None,
    {
        let lines = match split_lines_exec(s) {
            Some(v) => v,
            None => {
                return Err(FormatError);
            },
        };
        let ghost ls = lines@.map_values(|l: String| l@);
        if lines.len() < 6 {
            return Err(FormatError);
        }
        let pm = match strip_tag(lines[0].as_str(), "model") {
            Some(p) => p,
            None => {
                return Err(FormatError);
            },
        };
        let pl = match strip_tag(lines[1].as_str(), "limit") {
            Some(p) => p,
            None => {
                return Err(FormatError);
            },
        };
        let pp = match strip_tag(lines[2].as_str(), "persona") {
            Some(p) => p,
            None => {
                return Err(FormatError);
            },
        };
        let ps = match strip_tag(lines[3].as_str(), "started") {
            Some(p) => p,
            None => {
                return Err(FormatError);
            },
        };
        let pt = match strip_tag(lines[4].as_str(), "title") {
            Some(p) => p,
            None => {
                return Err(FormatError);
            },
        };
        let pu = match strip_tag(lines[5].as_str(), "usage") {
            Some(p) => p,
            None => {
                return Err(FormatError);
            },
        };
        let name = match unescape(pm.as_str()) {
            Some(x) => x,
            None => {
                return Err(FormatError);
            },
        };
        let limit = match parse_u32(pl.as_str()) {
            Some(x) => x,
            None => {
                return Err(FormatError);
            },
        };
        let prompt = match unescape(pp.as_str()) {
            Some(x) => x,
            None => {
                return Err(FormatError);
            },
        };
        let started = match parse_opt_str(ps.as_str()) {
            Some(x) => x,
            None => {
                return Err(FormatError);
            },
        };
        let title = match parse_opt_str(pt.as_str()) {
            Some(x) => x,
            None => {
                return Err(FormatError);
            },
        };
        let usage_num = match parse_opt_num(pu.as_str()) {
            Some(x) => x,
            None => {
                return Err(FormatError);
            },
        };
        let ghost started_view: Option<Seq<char>> = match &started {
            Some(s) => Some(s@),
            None => None,
        };
        let ghost title_view: Option<Seq<char>> = match &title {
            Some(t) => Some(t@),
            None => None,
        };
        let ghost parsed_view_of = |msgs_v: Seq<MessageView>|
            ChatHistoryView {
                messages: msgs_v,
                usage: usage_num,
                started_at: started_view,
                title: title_view,
                model: ModelMetadataView { name: name@, token_limit: limit },
                persona: AssistantMetadataView { system_prompt: prompt@ },
            };
        proof {
            assert(parse_doc_lines(ls) == (match parse_messages_lines(ls.skip(6)) {
                Some(msgs_v) => Some(parsed_view_of(msgs_v)),
                None => None::<ChatHistoryView>,
            }));
        }
        let mut msgs: Vec<Message> = Vec::new();
        let mut i: usize = 6;
        proof {
            assert(ls.skip(6).skip(0) =~= ls.skip(6));
            match parse_messages_lines(ls.skip(6)) {
                Some(rest) => {
                    assert(Seq::<MessageView>::empty() + rest =~= rest);
                },
                None => {},
            }
        }
        while i < lines.len()
            invariant
                6 <= i <= lines@.len(),
                ls == lines@.map_values(|l: String| l@),
                parse_doc(s@) == parse_doc_lines(ls),
                parse_doc_lines(ls) == (match parse_messages_lines(ls.skip(6)) {
                    Some(msgs_v) => Some(parsed_view_of(msgs_v)),
                    None => None::<ChatHistoryView>,
                }),
                parse_messages_lines(ls.skip(6)) == (match parse_messages_lines(
                    ls.skip(i as int),
                ) {
                    Some(rest) => Some(msgs@.map_values(|m: Message| m@) + rest),
                    None => None::<Seq<MessageView>>,
                }),
            decreases lines@.len() - i,
        {
            let ghost suf = ls.skip(i as int);
            assert(suf.len() > 0);
            if lines.len() - i < 3 {
                assert(suf.len() < 3);
                return Err(FormatError);
            }
            proof {
                assert(suf[0] == ls[i as int] && suf[1] == ls[i as int + 1] && suf[2] == ls[i
                    as int + 2]);
            }
            let pr = match strip_tag(lines[i].as_str(), "role") {
                Some(p) => p,
                None => {
                    return Err(FormatError);
                },
            };
            let role = match parse_role_str(&pr) {
                Some(x) => x,
                None => {
                    return Err(FormatError);
                },
            };
            let pn = match strip_tag(lines[i + 1].as_str(), "name") {
                Some(p) => p,
                None => {
                    return Err(FormatError);
                },
            };
            let mname = match parse_opt_str(pn.as_str()) {
                Some(x) => x,
                None => {
                    return Err(FormatError);
                },
            };
            let pc = match strip_tag(lines[i + 2].as_str(), "content") {
                Some(p) => p,
                None => {
                    return Err(FormatError);
                },
            };
            let content = match unescape(pc.as_str()) {
                Some(x) => x,
                None => {
                    return Err(FormatError);
                },
            };
            let ghost before = msgs@.map_values(|m: Message| m@);
            let msg = Message { role, content, name: mname };
            proof {
                assert(parse_message_lines(suf[0], suf[1], suf[2]) == Some(msg@));
            }
            msgs.push(msg);
            proof {
                assert(msgs@.map_values(|m: Message| m@) =~= before + seq![msg@]);
                assert(suf.skip(3) =~= ls.skip(i as int + 3));
                match parse_messages_lines(ls.skip(i as int + 3)) {
                    Some(rest) => {
                        assert(before + (seq![msg@] + rest) =~= (before + seq![msg@]) + rest);
                    },
                    None => {},
                }
            }
            i = i + 3;
        }
        proof {
            assert(ls.skip(lines@.len() as int) =~= Seq::<Seq<char>>::empty());
            assert(parse_messages_lines(Seq::<Seq<char>>::empty()) == Some(
                Seq::<MessageView>::empty(),
            ));
            assert(msgs@.map_values(|m: Message| m@) + Seq::<MessageView>::empty()
                =~= msgs@.map_values(|m: Message| m@));
        }
        let h = ChatHistory {
            history: msgs,
            token_usage: match usage_num {
                Some(n) => Some(UsageSnapshot { total_tokens: n }),
                None => None,
            },
            conversation_start: started,
            conversation_title: title,
            model_metadata: ModelMetadata { name, token_limit: limit },
            assistant_metadata: AssistantMetadata { system_prompt: prompt },
        };
        proof {
            match parse_doc_lines(ls) {
                Some(v) => {
                    assert(h@ =~= v);
                },
                None => {
                    assert(false);
                },
            }
        }
        Ok(h)
    }

    /// The file name this session is saved under, derived from the start
    /// timestamp (the clock reading of this moment, where the session
    /// carries none) and the title.
    pub fn file_name(&self) -> (r: String)
        ensures
            self@.started_at matches Some(t) ==> r@ == file_name_spec(t, self@.title),
            self@.started_at is None ==> exists|t: Seq<char>|
                r@ == file_name_spec(t, self@.title),
    {
        let mut r = match &self.conversation_start {
            Some(t) => t.clone(),
            None => crate::utils::now_rfc3339(),
        };
        let ghost time = r@;
        r.append("_");
        match &self.conversation_title {
            Some(t) => r.append(t.as_str()),
            None => {},
        }
        r.append(".chat");
        proof {
            reveal_strlit("_");
            assert("_"@ =~= seq!['_']);
            assert(r@ =~= file_name_spec(time, self@.title));
        }
        r
    }

    /// The printed form of the conversation: for each message, its
    /// role's heading and then its content, in log order.
    pub fn history_display_lines(&self) -> (v: Vec<String>)
        ensures
            v@.len() == 2 * self@.messages.len(),
            forall|i: int|
                0 <= i < self@.messages.len() ==> v@[2 * i]@ == role_heading(
                    #[trigger] self@.messages[i].role,
                ) && v@[2 * i + 1]@ == self@.messages[i].content,
    {
        let mut v: Vec<String> = Vec::new();
        let mut i: usize = 0;
        while i < self.history.len()
            invariant
                i <= self.history@.len(),
                self@.messages == self.history@.map_values(|m: Message| m@),
                v@.len() == 2 * i,
                forall|j: int|
                    0 <= j < i ==> v@[2 * j]@ == role_heading(#[trigger] self@.messages[j].role)
                        && v@[2 * j + 1]@ == self@.messages[j].content,
            decreases self.history@.len() - i,
        {
            let m = &self.history[i];
            let heading = match m.role {
                Role::System => "System:",
                Role::User => "User:",
                Role::Assistant => "ChatGPT:",
            };
            v.push(heading.to_owned());
            v.push(m.content.clone());
            i = i + 1;
        }
        v
    }

    /// The estimated-usage report line; present exactly when the
    /// estimate itself is.
    pub fn token_count_message(&self) -> (r: Option<String>)
        ensures
            r matches Some(s) ==> s@ == token_count_message_spec(
                log_token_estimate(self@.messages),
                self@.model.token_limit,
            ),
            r is Some <==> (log_tokenizes(self@.messages) && log_token_estimate(self@.messages)
                <= i64::MAX),
    {
        let est = match self.count_tokens() {
            Some(e) => e,
            None => {
                return None;
            },
        };
        proof {
            lemma_log_token_estimate_lower_bound(self@.messages);
        }
        let mut s = "Estimated usage ".to_owned();
        let est_dec = render_i64(est);
        s.append(est_dec.as_str());
        s.append("/");
        let limit_dec = render_u64(self.model_metadata.token_limit as u64);
        s.append(limit_dec.as_str());
        s.append(" tokens");
        proof {
            reveal_strlit("/");
            assert("/"@ =~= seq!['/']);
            assert(s@ =~= token_count_message_spec(
                log_token_estimate(self@.messages),
                self@.model.token_limit,
            ));
        }
        Some(s)
    }

    /// The recorded-usage report line; present exactly when the remote
    /// service has reported usage for this session.
    pub fn token_usage_message(&self) -> (r: Option<String>)
        ensures
            self@.usage is None ==> r is None,
            self@.usage matches Some(u) ==> (r matches Some(s) && s@ == token_usage_message_spec(
                u,
                self@.model.token_limit,
            )),
    {
        let u = match &self.token_usage {
            Some(u) => u,
            None => {
                return None;
            },
        };
        let mut s = "Recorded usage ".to_owned();
        let total_dec = render_u64(u.total_tokens as u64);
        s.append(total_dec.as_str());
        s.append("/");
        let limit_dec = render_u64(self.model_metadata.token_limit as u64);
        s.append(limit_dec.as_str());
        s.append(" tokens");
        proof {
            reveal_strlit("/");
            assert("/"@ =~= seq!['/']);
            assert(s@ =~= token_usage_message_spec(u.total_tokens, self@.model.token_limit));
        }
        Some(s)
    }
}

/// The view of a stream accumulator: the last role seen and the content
/// gathered so far.
#[verifier::ext_equal]
pub struct StreamAccumulatorView {
    pub role: Option<Role>,
    pub content: Seq<char>,
}

/// Reassembles one logical assistant message from the incremental deltas
/// of a streaming completion, handing each non-empty content fragment
/// back for forwarding, in arrival order.
pub struct StreamAccumulator {
    response_role: Option<Role>,
    response_content_buffer: String,
}

impl View for StreamAccumulator {
    type V = StreamAccumulatorView;

    closed spec fn view(&self) -> StreamAccumulatorView {
        StreamAccumulatorView {
            role: self.response_role,
            content: self.response_content_buffer@,
        }
    }
}

impl StreamAccumulator {
    /// An accumulator that has seen nothing yet.
    pub fn new() -> (acc: StreamAccumulator)
        ensures
            acc@.role is None,
            acc@.content == Seq::<char>::empty(),
    {
        StreamAccumulator { response_role: None, response_content_buffer: String::new() }
    }

    /// Consumes one delta: a role present on it becomes the last role
    /// seen, content is appended to the buffer, and a non-empty content
    /// fragment is handed back so the caller can forward it to the sink
    /// before the next delta is read.
    pub fn apply_delta(&mut self, role: Option<Role>, content: Option<&str>) -> (frag: Option<
        String,
    >)
        ensures
            final(self)@.role == (if role is Some {
                role
            } else {
                old(self)@.role
            }),
            final(self)@.content == old(self)@.content + (match content {
                Some(c) => c@,
                None => Seq::<char>::empty(),
            }),
            content is None ==> frag is None,
            content matches Some(c) ==> (if c@.len() == 0 {
                frag is None
            } else {
                frag matches Some(f) && f@ == c@
            }),
    {
        if let Some(r) = role {
            self.response_role = Some(r);
        }
        match content {
            Some(c) => {
                self.response_content_buffer.append(c);
                if c.unicode_len() > 0 {
                    Some(c.to_owned())
                } else {
                    None
                }
            },
            None => None,
        }
    }

    /// The one assistant message the stream reassembled to: the last role
    /// seen (Assistant when none ever was) and the full buffered content.
    pub fn finish(self) -> (m: Message)
        ensures
            m@.role == (match self@.role {
                Some(r) => r,
                None => Role::Assistant,
            }),
            m@.content == self@.content,
            m@.name is None,
    {
        let role = match self.response_role {
            Some(r) => r,
            None => Role::Assistant,
        };
        Message { role, content: self.response_content_buffer, name: None }
    }
}

} // verus!
