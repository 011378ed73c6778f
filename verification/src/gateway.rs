//! Provider-neutral chat message types and the pure parts of talking to a
//! local model server.

use vstd::prelude::*;
use crate::text::{string_of, chars_of, chars_eq, slice_to_vec, trim, trimmed};
use vstd::string::StrSliceExecFns;

verus! {

/// Who speaks in a chat message.
#[derive(Debug, Clone, Copy, PartialEq, Eq, Structural)]
pub enum Role {
    System,
    User,
    Assistant,
    Tool,
}

/// One chat message.
#[derive(Debug)]
pub struct ChatMessage {
    pub role: Role,
    pub content: String,
    /// The tool call that a `Tool` message answers.
    pub tool_call_id: Option<String>,
}

/// A chat message as plain values.
pub struct ChatMessageView {
    pub role: Role,
    pub content: Seq<char>,
    pub tool_call_id: Option<Seq<char>>,
}

impl View for ChatMessage {
    type V = ChatMessageView;

    open spec fn view(&self) -> ChatMessageView {
        ChatMessageView {
            role: self.role,
            content: self.content@,
            tool_call_id: match self.tool_call_id {
                Some(t) => Some(t@),
                None => None,
            },
        }
    }
}

pub open spec fn message_views(v: Seq<ChatMessage>) -> Seq<ChatMessageView> {
    v.map_values(|m: ChatMessage| m@)
}

pub proof fn lemma_message_views_push(v: Seq<ChatMessage>, m: ChatMessage)
    ensures
        message_views(v.push(m)) == message_views(v).push(m@),
{
    assert(message_views(v.push(m)) =~= message_views(v).push(m@));
}

impl ChatMessage {
    /// A system message.
    pub fn system(content: &str) -> (r: Self)
        ensures
            r@ == (ChatMessageView { role: Role::System, content: content@, tool_call_id: None }),
    {
        ChatMessage { role: Role::System, content: content.to_owned(), tool_call_id: None }
    }

    /// A user message.
    pub fn user(content: &str) -> (r: Self)
        ensures
            r@ == (ChatMessageView { role: Role::User, content: content@, tool_call_id: None }),
    {
        ChatMessage { role: Role::User, content: content.to_owned(), tool_call_id: None }
    }

    /// An assistant message.
    pub fn assistant(content: &str) -> (r: Self)
        ensures
            r@ == (ChatMessageView { role: Role::Assistant, content: content@, tool_call_id: None }),
    {
        ChatMessage {
            role: Role::Assistant,
            content: content.to_owned(),
            tool_call_id: None,
        }
    }
}

/// Token counts of one reply.
#[derive(Debug, Clone, Copy, PartialEq, Eq, Structural)]
pub struct TokenUsage {
    pub prompt_tokens: u32,
    pub completion_tokens: u32,
    pub total_tokens: u32,
}

/// One piece of a streamed reply.
#[derive(Debug)]
pub struct ChatChunk {
    pub delta: String,
    pub finished: bool,
}

impl ChatChunk {
    /// The chunk of a keep-alive line of a stream: no text, not finished.
    pub fn keep_alive() -> (r: Self)
        ensures
            r.delta@.len() == 0,
            !r.finished,
    {
        ChatChunk { delta: String::new(), finished: false }
    }
}

/// The record a line of a streamed reply holds: the line without leading and
/// trailing white space, or `None` where nothing is left (a keep-alive line,
/// whose chunk is `ChatChunk::keep_alive`).
pub fn stream_record(line: &str) -> (r: Option<String>)
    ensures
        match r {
            Some(t) => t@ == trim(line@) && t@.len() > 0,
            None => trim(line@).len() == 0,
        },
{
    let v = chars_of(line);
    let t = trimmed(&v, 0, v.len());
    proof {
        assert(v@.subrange(0, v@.len() as int) =~= v@);
    }
    if t.len() == 0 {
        None
    } else {
        Some(string_of(t.as_slice()))
    }
}

/// What a provider supports.
#[derive(Debug, Clone, Copy, PartialEq, Eq, Structural)]
pub struct ProviderCapabilities {
    pub streaming: bool,
    pub tool_use: bool,
    pub vision: bool,
    pub json_mode: bool,
    pub embeddings: bool,
}

impl Default for ProviderCapabilities {
    fn default() -> (r: Self)
        ensures
            !r.streaming && !r.tool_use && !r.vision && !r.json_mode && !r.embeddings,
    {
        ProviderCapabilities {
            streaming: false,
            tool_use: false,
            vision: false,
            json_mode: false,
            embeddings: false,
        }
    }
}

/// What an Ollama server supports: streaming, JSON mode and embeddings; no
/// tool use and no vision.
pub fn ollama_capabilities() -> (r: ProviderCapabilities)
    ensures
        r == (ProviderCapabilities {
            streaming: true,
            tool_use: false,
            vision: false,
            json_mode: true,
            embeddings: true,
        }),
{
    ProviderCapabilities { streaming: true, tool_use: false, vision: false, json_mode: true, embeddings: true }
}

/// The wire name of a role.
pub open spec fn role_name(role: Role) -> Seq<char> {
    match role {
        Role::System => "system"@,
        Role::User => "user"@,
        Role::Assistant => "assistant"@,
        Role::Tool => "tool"@,
    }
}

/// The wire name of a role (`system`, `user`, `assistant`, `tool`).
pub fn role_to_str(role: &Role) -> (r: &'static str)
    ensures
        r@ == role_name(*role),
{
    match role {
        Role::System => "system",
        Role::User => "user",
        Role::Assistant => "assistant",
        Role::Tool => "tool",
    }
}

/// The role a wire name stands for; an unknown name is a user message.
pub open spec fn role_of_name(name: Seq<char>) -> Role {
    if name == "system"@ {
        Role::System
    } else if name == "assistant"@ {
        Role::Assistant
    } else if name == "tool"@ {
        Role::Tool
    } else {
        Role::User
    }
}

/// The role a wire name stands for; an unknown name is a user message.
pub fn role_from_str(name: &str) -> (r: Role)
    ensures
        r == role_of_name(name@),
{
    let n = chars_of(name);
    if chars_eq(n.as_slice(), chars_of("system").as_slice()) {
        Role::System
    } else if chars_eq(n.as_slice(), chars_of("assistant").as_slice()) {
        Role::Assistant
    } else if chars_eq(n.as_slice(), chars_of("tool").as_slice()) {
        Role::Tool
    } else {
        Role::User
    }
}

/// A message as sent to the model server: a role name and the text.
#[derive(Debug)]
pub struct WireMessage {
    pub role: &'static str,
    pub content: String,
}

pub open spec fn wire_views(v: Seq<WireMessage>) -> Seq<(Seq<char>, Seq<char>)> {
    v.map_values(|m: WireMessage| (m.role@, m.content@))
}

pub open spec fn has_system_message(msgs: Seq<ChatMessageView>) -> bool {
    exists|i: int| 0 <= i < msgs.len() && msgs[i].role == Role::System
}

/// The messages sent to the server: the request's separate system prompt first,
/// where there is one and no message of the list is a system message, then every
/// message with its role name.
pub open spec fn wire_messages(system: Option<Seq<char>>, msgs: Seq<ChatMessageView>) -> Seq<
    (Seq<char>, Seq<char>),
> {
    let body = msgs.map_values(|m: ChatMessageView| (role_name(m.role), m.content));
    match system {
        Some(s) => if has_system_message(msgs) {
            body
        } else {
            seq![("system"@, s)] + body
        },
        None => body,
    }
}

/// The messages of a request in the form the server takes.
pub fn build_messages(system: Option<&str>, messages: &Vec<ChatMessage>) -> (r: Vec<WireMessage>)
    ensures
        wire_views(r@) == wire_messages(
            match system {
                Some(s) => Some(s@),
                None => None,
            },
            message_views(messages@),
        ),
{
    let ghost msgs = message_views(messages@);
    let mut r: Vec<WireMessage> = Vec::new();
    let mut any_system = false;
    let mut k: usize = 0;
    while k < messages.len()
        invariant
            k <= messages.len(),
            msgs == message_views(messages@),
            any_system == exists|i: int| 0 <= i < k && msgs[i].role == Role::System,
        decreases messages.len() - k,
    {
        assert(msgs[k as int] == messages@[k as int]@);
        if messages[k].role == Role::System {
            any_system = true;
        }
        k = k + 1;
    }
    let ghost prefix: Seq<(Seq<char>, Seq<char>)> = Seq::empty();
    match system {
        Some(s) => {
            if !any_system {
                r.push(WireMessage { role: "system", content: s.to_owned() });
                proof {
                    prefix = seq![("system"@, s@)];
                }
            }
        },
        None => {},
    }
    assert(wire_views(r@) =~= prefix);
    let mut i: usize = 0;
    while i < messages.len()
        invariant
            i <= messages.len(),
            msgs == message_views(messages@),
            wire_views(r@) == prefix + msgs.take(i as int).map_values(
                |m: ChatMessageView| (role_name(m.role), m.content),
            ),
        decreases messages.len() - i,
    {
        let m = WireMessage { role: role_to_str(&messages[i].role), content: messages[i].content.clone() };
        proof {
            assert(wire_views(r@.push(m)) =~= wire_views(r@).push((m.role@, m.content@)));
            assert(msgs.take(i + 1).map_values(|m: ChatMessageView| (role_name(m.role), m.content))
                =~= msgs.take(i as int).map_values(
                |m: ChatMessageView| (role_name(m.role), m.content),
            ).push((role_name(msgs[i as int].role), msgs[i as int].content)));
        }
        r.push(m);
        i = i + 1;
    }
    assert(msgs.take(messages.len() as int) =~= msgs);
    r
}

/// The text without trailing slashes.
pub open spec fn strip_trailing_slashes(s: Seq<char>) -> Seq<char>
    decreases s.len(),
{
    if s.len() > 0 && s.last() == '/' {
        strip_trailing_slashes(s.drop_last())
    } else {
        s
    }
}

/// A server address without trailing slashes.
pub fn normalize_base_url(url: &str) -> (r: String)
    ensures
        r@ == strip_trailing_slashes(url@),
{
    let v = chars_of(url);
    let mut n = v.len();
    assert(v@.take(n as int) =~= v@);
    while n > 0 && v[n - 1] == '/'
        invariant
            n <= v.len(),
            strip_trailing_slashes(v@) == strip_trailing_slashes(v@.take(n as int)),
        decreases n,
    {
        assert(v@.take(n as int).drop_last() =~= v@.take(n - 1));
        n = n - 1;
    }
    assert(v@.take(n as int) =~= v@.subrange(0, n as int));
    string_of(slice_to_vec(&v, 0, n).as_slice())
}

/// The model a request runs on: its own, or the default where it names none.
pub fn effective_model(requested: &str, default_model: &str) -> (r: String)
    ensures
        r@ == if requested@.len() == 0 {
            default_model@
        } else {
            requested@
        },
{
    if requested.unicode_len() == 0 {
        default_model.to_owned()
    } else {
        requested.to_owned()
    }
}

/// Token usage from the server's counts: known only where both counts are.
pub fn token_usage(prompt: Option<u32>, completion: Option<u32>) -> (r: Option<TokenUsage>)
    requires
        prompt is Some && completion is Some ==> prompt->0 + completion->0 <= u32::MAX,
    ensures
        match (prompt, completion) {
            (Some(p), Some(c)) => r == Some(
                TokenUsage { prompt_tokens: p, completion_tokens: c, total_tokens: (p + c) as u32 },
            ),
            _ => r is None,
        },
{
    match (prompt, completion) {
        (Some(p), Some(c)) => Some(
            TokenUsage { prompt_tokens: p, completion_tokens: c, total_tokens: p + c },
        ),
        _ => None,
    }
}

// ── laws ────────────────────────────────────────────────────────────────────

/// Reading back the wire name of a role gives the role.
pub proof fn lemma_role_name_round_trip(role: Role)
    ensures
        role_of_name(role_name(role)) == role,
{
    reveal_strlit("system");
    reveal_strlit("user");
    reveal_strlit("assistant");
    reveal_strlit("tool");
    assert("user"@ != "system"@ && "user"@ != "assistant"@ && "user"@ != "tool"@) by {
        assert("user"@[0] != "system"@[0]);
        assert("user"@[0] != "assistant"@[0]);
        assert("user"@[0] != "tool"@[0]);
    }
    assert("assistant"@ != "system"@) by {
        assert("assistant"@[0] != "system"@[0]);
    }
    assert("tool"@ != "system"@ && "tool"@ != "assistant"@) by {
        assert("tool"@[0] != "system"@[0]);
        assert("tool"@[0] != "assistant"@[0]);
    }
}

/// A normalised server address never ends with a slash, and normalising it
/// again changes nothing.
pub proof fn lemma_normalized_url(url: Seq<char>)
    ensures
        strip_trailing_slashes(url).len() > 0 ==> strip_trailing_slashes(url).last() != '/',
        strip_trailing_slashes(strip_trailing_slashes(url)) == strip_trailing_slashes(url),
    decreases url.len(),
{
    if url.len() > 0 && url.last() == '/' {
        lemma_normalized_url(url.drop_last());
    }
}

} // verus!
