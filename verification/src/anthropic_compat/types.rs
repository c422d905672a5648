//! Requests and answers of the Anthropic form.

use vstd::prelude::*;

use crate::json;
use crate::json::Json;
use crate::text;

verus! {

/// One message of a conversation.
#[derive(Debug)]
pub struct MessageParam {
    pub role: String,
    pub content: MessageContent,
}

/// What a message holds.
#[derive(Debug)]
pub enum MessageContent {
    Text(String),
    Blocks(Vec<ContentBlock>),
}

/// One block of a message.
#[derive(Debug)]
pub enum ContentBlock {
    Text { text: String },
    Image { source: ImageSource },
    Document { source: ImageSource, title: Option<String> },
    ToolUse { id: String, name: String, input: Json },
    ToolResult { tool_use_id: String, content: Option<ToolResultContent> },
    Thinking { thinking: String, signature: String },
    RedactedThinking { data: String },
    /// A block of a type that is passed over.
    Other,
}

/// Where an image comes from.
#[derive(Debug)]
pub enum ImageSource {
    Base64 { data: String, media_type: String },
    Url { url: String },
}

/// What a tool gave back.
#[derive(Debug)]
pub enum ToolResultContent {
    Text(String),
    Blocks(Vec<ContentBlock>),
}

/// What the system says.
#[derive(Debug)]
pub enum SystemContent {
    Text(String),
    Blocks(Vec<SystemTextBlock>),
}

/// One block of what the system says.
#[derive(Debug)]
pub struct SystemTextBlock {
    pub text: String,
    pub ty: String,
}

/// A tool that the model may use.
#[derive(Debug)]
pub enum ToolUnion {
    Custom {
        name: String,
        description: Option<String>,
        input_schema: Json,
        strict: Option<bool>,
    },
    /// A tool of the server, which is passed over.
    Other,
}

/// Which tool the model is to use.
#[derive(Debug)]
pub enum ToolChoice {
    Auto { disable_parallel_tool_use: bool },
    Any { disable_parallel_tool_use: bool },
    Tool { name: String, disable_parallel_tool_use: bool },
    /// No tool.
    Off,
}

/// Whether the model is to think.
#[derive(Debug)]
pub enum ThinkingConfig {
    Enabled { budget_tokens: u32, display: Option<String> },
    Disabled,
    Adaptive { display: Option<String> },
}

/// What else is known of a request.
#[derive(Debug)]
pub struct Metadata {
    pub user_id: Option<String>,
}

/// The form of the answer.
#[derive(Debug)]
pub struct OutputConfig {
    pub effort: Option<String>,
    pub format: Option<JsonOutputFormat>,
}

/// The schema of an answer in JSON.
#[derive(Debug)]
pub struct JsonOutputFormat {
    pub schema: Json,
    pub ty: String,
}

/// How long something may be kept.
#[derive(Debug)]
pub struct CacheControlEphemeral {
    pub ty: String,
    pub ttl: Option<String>,
}

/// A whole answer, or the beginning of one.
#[derive(Debug)]
pub struct MessagesResponse {
    pub id: String,
    pub ty: String,
    pub role: String,
    pub model: String,
    pub content: Vec<ResponseContentBlock>,
    pub stop_reason: Option<String>,
    pub stop_sequence: Option<String>,
    pub usage: Usage,
}

/// One block of an answer.
#[derive(Debug)]
pub enum ResponseContentBlock {
    Text { text: String },
    Thinking { thinking: String, signature: String },
    ToolUse { id: String, name: String, input: Json },
}

/// How many tokens were used.
#[derive(Debug, Clone, Copy, PartialEq, Eq, Structural)]
pub struct Usage {
    pub input_tokens: u32,
    pub output_tokens: u32,
}

/// A further piece of a block.
#[derive(Debug)]
pub enum ContentBlockDelta {
    Text { text: String },
    Thinking { thinking: String },
    InputJson { partial_json: String },
}

/// One event of an answer that goes out piece by piece.
#[derive(Debug)]
pub enum MessagesResponseChunk {
    MessageStart { message: MessagesResponse },
    ContentBlockStart { index: usize, content_block: ResponseContentBlock },
    ContentBlockDelta { index: usize, delta: ContentBlockDelta },
    ContentBlockStop { index: usize },
    MessageDelta {
        stop_reason: Option<String>,
        stop_sequence: Option<String>,
        output_tokens: Option<u32>,
    },
    MessageStop,
}

/// Takes the member named `key` out of the members of an object.
fn take_member(members: &mut Vec<(String, Json)>, key: &str) -> (r: Option<Json>)
    ensures
        r == json::member_from(old(members)@, key@, 0),
        forall|other: Seq<char>|
            other != key@ ==> #[trigger] json::member_from(final(members)@, other, 0)
                == json::member_from(old(members)@, other, 0),
{
    let ghost all = members@;
    let mut i: usize = 0;
    while i < members.len()
        invariant
            i <= members@.len(),
            members@ == all,
            all == old(members)@,
            json::member_from(all, key@, 0) == json::member_from(all, key@, i as int),
        decreases members@.len() - i,
    {
        if text::same(members[i].0.as_str(), key) {
            let (_, v) = members.remove(i);
            proof {
                assert forall|other: Seq<char>| other != key@ implies #[trigger] json::member_from(
                    members@,
                    other,
                    0,
                ) == json::member_from(all, other, 0) by {
                    lemma_without(all, i as int, other, 0);
                }
            }
            return Some(v);
        }
        i += 1;
    }
    None
}

/// A member is found where another was taken out.
proof fn lemma_without(all: Seq<(String, Json)>, at: int, key: Seq<char>, i: int)
    requires
        0 <= at < all.len(),
        0 <= i,
        all[at].0@ != key,
    ensures
        i <= at ==> json::member_from(all.remove(at), key, i) == json::member_from(all, key, i),
        i > at ==> json::member_from(all.remove(at), key, i) == json::member_from(
            all,
            key,
            i + 1,
        ),
    decreases all.len() - i,
{
    let rest = all.remove(at);
    if i < all.len() {
        lemma_without(all, at, key, i + 1);
        if i < at {
            assert(rest[i] == all[i]);
        } else if i < rest.len() {
            assert(rest[i] == all[i + 1]);
        }
    }
}

/// The text of a string, if there is one.
fn text_in(v: Option<Json>) -> (r: Option<String>)
    ensures
        r.deep_view() == match v {
            Some(x) => x.string(),
            None => None,
        },
{
    match v {
        Some(Json::Text(s)) => Some(s),
        _ => None,
    }
}

/// A tool is a custom one: it says so, or says nothing of its type.
pub open spec fn is_custom(v: Json) -> bool {
    match v.string_member("type"@) {
        Some(t) => t == "custom"@,
        None => true,
    }
}

/// Whether a member is a truth value, and which.
pub open spec fn bool_member(v: Json, key: Seq<char>) -> Option<bool> {
    match v.member(key) {
        Some(Json::Bool(b)) => Some(b),
        _ => None,
    }
}

/// What is wrong with the value of a tool.
pub open spec fn tool_error(v: Json) -> Option<Seq<char>> {
    if !(v is Object) {
        Some("tool must be an object"@)
    } else if is_custom(v) && v.string_member("name"@) is None {
        Some("missing field `name`"@)
    } else {
        None
    }
}

/// `t` is the tool that a value describes.
pub open spec fn describes(v: Json, t: ToolUnion) -> bool {
    if is_custom(v) {
        match t {
            ToolUnion::Custom { name, description, input_schema, strict } => {
                &&& v.string_member("name"@) == Some(name@)
                &&& description.deep_view() == v.string_member("description"@)
                &&& input_schema == match v.member("input_schema"@) {
                    Some(s) => s,
                    None => Json::Null,
                }
                &&& strict == bool_member(v, "strict"@)
            },
            ToolUnion::Other => false,
        }
    } else {
        t is Other
    }
}

impl ToolUnion {
    /// The tool that a value describes. A tool without a type is a custom one;
    /// those of other types are passed over.
    pub fn from_json(v: Json) -> (r: Result<ToolUnion, String>)
        ensures
            match r {
                Ok(t) => tool_error(v) is None && describes(v, t),
                Err(e) => tool_error(v) == Some(e@),
            },
    {
        proof {
            reveal_strlit("type");
            reveal_strlit("name");
            reveal_strlit("description");
            reveal_strlit("input_schema");
            reveal_strlit("strict");
            assert("name"@.len() == 4 && "type"@.len() == 4 && "name"@[0] != "type"@[0]);
            assert("description"@.len() == 11);
            assert("input_schema"@.len() == 12);
            assert("strict"@.len() == 6);
        }
        let custom = match v.get_str("type") {
            Some(t) => text::same(t.as_str(), "custom"),
            None => true,
        };
        match v {
            Json::Object(members) => {
                if !custom {
                    return Ok(ToolUnion::Other);
                }
                let mut members = members;
                let name = match text_in(take_member(&mut members, "name")) {
                    Some(n) => n,
                    None => {
                        return Err("missing field `name`".to_owned());
                    },
                };
                let description = text_in(take_member(&mut members, "description"));
                let input_schema = match take_member(&mut members, "input_schema") {
                    Some(s) => s,
                    None => Json::Null,
                };
                let strict = match take_member(&mut members, "strict") {
                    Some(Json::Bool(b)) => Some(b),
                    _ => None,
                };
                Ok(ToolUnion::Custom { name, description, input_schema, strict })
            },
            _ => Err("tool must be an object".to_owned()),
        }
    }
}

/// The member at `i` has this name.
pub open spec fn named(m: Seq<(String, Json)>, i: int, name: Seq<char>) -> bool {
    0 <= i < m.len() && m[i].0@ == name
}

/// A value is this text.
pub open spec fn is_text(v: Json, s: Seq<char>) -> bool {
    v.string() == Some(s)
}

/// A value is this number.
pub open spec fn is_number(v: Json, n: nat) -> bool {
    v matches Json::Number(s) && s@ == text::decimal(n)
}

/// A value is this text, or nothing.
pub open spec fn is_opt_text(v: Json, s: Option<Seq<char>>) -> bool {
    match s {
        Some(t) => is_text(v, t),
        None => v is Null,
    }
}

/// A value is a block of an answer.
pub open spec fn is_block(v: Json, b: ResponseContentBlock) -> bool {
    v matches Json::Object(m) && named(m@, 0, "type"@) && match b {
        ResponseContentBlock::Text { text } => {
            &&& m@.len() == 2
            &&& is_text(m@[0].1, "text"@)
            &&& named(m@, 1, "text"@) && is_text(m@[1].1, text@)
        },
        ResponseContentBlock::Thinking { thinking, signature } => {
            &&& m@.len() == 3
            &&& is_text(m@[0].1, "thinking"@)
            &&& named(m@, 1, "thinking"@) && is_text(m@[1].1, thinking@)
            &&& named(m@, 2, "signature"@) && is_text(m@[2].1, signature@)
        },
        ResponseContentBlock::ToolUse { id, name, input } => {
            &&& m@.len() == 4
            &&& is_text(m@[0].1, "tool_use"@)
            &&& named(m@, 1, "id"@) && is_text(m@[1].1, id@)
            &&& named(m@, 2, "name"@) && is_text(m@[2].1, name@)
            &&& named(m@, 3, "input"@) && m@[3].1 == input
        },
    }
}

/// A value is a further piece of a block.
pub open spec fn is_delta(v: Json, d: ContentBlockDelta) -> bool {
    v matches Json::Object(m) && m@.len() == 2 && named(m@, 0, "type"@) && match d {
        ContentBlockDelta::Text { text } => is_text(m@[0].1, "text_delta"@) && named(
            m@,
            1,
            "text"@,
        ) && is_text(m@[1].1, text@),
        ContentBlockDelta::Thinking { thinking } => is_text(m@[0].1, "thinking_delta"@) && named(
            m@,
            1,
            "thinking"@,
        ) && is_text(m@[1].1, thinking@),
        ContentBlockDelta::InputJson { partial_json } => is_text(m@[0].1, "input_json_delta"@)
            && named(m@, 1, "partial_json"@) && is_text(m@[1].1, partial_json@),
    }
}

/// A value holds these blocks.
pub open spec fn are_blocks(v: Json, b: Seq<ResponseContentBlock>) -> bool {
    v matches Json::Array(a) && a@.len() == b.len() && forall|i: int|
        0 <= i < b.len() ==> is_block(#[trigger] a@[i], b[i])
}

/// A value tells how many tokens were used.
pub open spec fn is_usage(v: Json, u: Usage) -> bool {
    v matches Json::Object(m) && m@.len() == 2 && named(m@, 0, "input_tokens"@) && is_number(
        m@[0].1,
        u.input_tokens as nat,
    ) && named(m@, 1, "output_tokens"@) && is_number(m@[1].1, u.output_tokens as nat)
}

/// A value is a whole answer. What is not known of its end is left out.
pub open spec fn is_message(v: Json, r: MessagesResponse) -> bool {
    let a: int = if r.stop_reason is Some {
        1
    } else {
        0
    };
    let b: int = if r.stop_sequence is Some {
        1
    } else {
        0
    };
    v matches Json::Object(m) && m@.len() == 6 + a + b && named(m@, 0, "id"@) && is_text(
        m@[0].1,
        r.id@,
    ) && named(m@, 1, "type"@) && is_text(m@[1].1, r.ty@) && named(m@, 2, "role"@) && is_text(
        m@[2].1,
        r.role@,
    ) && named(m@, 3, "model"@) && is_text(m@[3].1, r.model@) && named(m@, 4, "content"@)
        && are_blocks(m@[4].1, r.content@) && (r.stop_reason matches Some(s) ==> named(
        m@,
        5,
        "stop_reason"@,
    ) && is_text(m@[5].1, s@)) && (r.stop_sequence matches Some(s) ==> named(
        m@,
        5 + a,
        "stop_sequence"@,
    ) && is_text(m@[5 + a].1, s@)) && named(m@, 5 + a + b, "usage"@) && is_usage(
        m@[5 + a + b].1,
        r.usage,
    )
}

/// The name of an event.
pub open spec fn event_of(c: MessagesResponseChunk) -> Seq<char> {
    match c {
        MessagesResponseChunk::MessageStart { .. } => "message_start"@,
        MessagesResponseChunk::ContentBlockStart { .. } => "content_block_start"@,
        MessagesResponseChunk::ContentBlockDelta { .. } => "content_block_delta"@,
        MessagesResponseChunk::ContentBlockStop { .. } => "content_block_stop"@,
        MessagesResponseChunk::MessageDelta { .. } => "message_delta"@,
        MessagesResponseChunk::MessageStop => "message_stop"@,
    }
}

/// A value tells why an answer ended.
pub open spec fn is_end(v: Json, reason: Option<String>, sequence: Option<String>) -> bool {
    v matches Json::Object(m) && m@.len() == 2 && named(m@, 0, "stop_reason"@) && is_opt_text(
        m@[0].1,
        reason.deep_view(),
    ) && named(m@, 1, "stop_sequence"@) && is_opt_text(m@[1].1, sequence.deep_view())
}

/// A value tells how many tokens an answer has.
pub open spec fn is_output_count(v: Json, n: u32) -> bool {
    v matches Json::Object(m) && m@.len() == 1 && named(m@, 0, "output_tokens"@) && is_number(
        m@[0].1,
        n as nat,
    )
}

/// A value is what an event carries.
pub open spec fn carries(v: Json, c: MessagesResponseChunk) -> bool {
    v matches Json::Object(m) && named(m@, 0, "type"@) && is_text(m@[0].1, event_of(c)) && match c {
        MessagesResponseChunk::MessageStart { message } => m@.len() == 2 && named(
            m@,
            1,
            "message"@,
        ) && is_message(m@[1].1, message),
        MessagesResponseChunk::ContentBlockStart { index, content_block } => m@.len() == 3 && named(
            m@,
            1,
            "index"@,
        ) && is_number(m@[1].1, index as nat) && named(m@, 2, "content_block"@) && is_block(
            m@[2].1,
            content_block,
        ),
        MessagesResponseChunk::ContentBlockDelta { index, delta } => m@.len() == 3 && named(
            m@,
            1,
            "index"@,
        ) && is_number(m@[1].1, index as nat) && named(m@, 2, "delta"@) && is_delta(
            m@[2].1,
            delta,
        ),
        MessagesResponseChunk::ContentBlockStop { index } => m@.len() == 2 && named(
            m@,
            1,
            "index"@,
        ) && is_number(m@[1].1, index as nat),
        MessagesResponseChunk::MessageDelta { stop_reason, stop_sequence, output_tokens } => {
            &&& m@.len() == 2 + if output_tokens is Some { 1int } else { 0int }
            &&& named(m@, 1, "delta"@) && is_end(m@[1].1, stop_reason, stop_sequence)
            &&& output_tokens matches Some(n) ==> named(m@, 2, "usage"@) && is_output_count(
                m@[2].1,
                n,
            )
        },
        MessagesResponseChunk::MessageStop => m@.len() == 1,
    }
}

/// An event as it goes out, given what it carries.
pub open spec fn event_text(name: Seq<char>, data: Seq<char>) -> Seq<char> {
    "event: "@ + name + "\ndata: "@ + data + "\n\n"@
}

fn add(m: &mut Vec<(String, Json)>, name: &str, v: Json)
    ensures
        final(m)@.len() == old(m)@.len() + 1,
        forall|i: int| 0 <= i < old(m)@.len() ==> final(m)@[i] == old(m)@[i],
        final(m)@[old(m)@.len() as int].0@ == name@,
        final(m)@[old(m)@.len() as int].1 == v,
{
    m.push((name.to_owned(), v));
}

fn opt_text(s: Option<String>) -> (r: Json)
    ensures
        is_opt_text(r, s.deep_view()),
{
    match s {
        Some(t) => Json::Text(t),
        None => Json::Null,
    }
}

fn number(n: u64) -> (r: Json)
    ensures
        is_number(r, n as nat),
{
    Json::Number(text::decimal_of(n))
}

impl ResponseContentBlock {
    /// The block as a value.
    fn into_json(self) -> (r: Json)
        ensures
            is_block(r, self),
    {
        let mut m: Vec<(String, Json)> = Vec::new();
        match self {
            ResponseContentBlock::Text { text } => {
                self::add(&mut m, "type", Json::from_str("text"));
                self::add(&mut m, "text", Json::Text(text));
            },
            ResponseContentBlock::Thinking { thinking, signature } => {
                self::add(&mut m, "type", Json::from_str("thinking"));
                self::add(&mut m, "thinking", Json::Text(thinking));
                self::add(&mut m, "signature", Json::Text(signature));
            },
            ResponseContentBlock::ToolUse { id, name, input } => {
                self::add(&mut m, "type", Json::from_str("tool_use"));
                self::add(&mut m, "id", Json::Text(id));
                self::add(&mut m, "name", Json::Text(name));
                self::add(&mut m, "input", input);
            },
        }
        Json::Object(m)
    }
}

impl ContentBlockDelta {
    /// The piece as a value.
    fn into_json(self) -> (r: Json)
        ensures
            is_delta(r, self),
    {
        let mut m: Vec<(String, Json)> = Vec::new();
        match self {
            ContentBlockDelta::Text { text } => {
                self::add(&mut m, "type", Json::from_str("text_delta"));
                self::add(&mut m, "text", Json::Text(text));
            },
            ContentBlockDelta::Thinking { thinking } => {
                self::add(&mut m, "type", Json::from_str("thinking_delta"));
                self::add(&mut m, "thinking", Json::Text(thinking));
            },
            ContentBlockDelta::InputJson { partial_json } => {
                self::add(&mut m, "type", Json::from_str("input_json_delta"));
                self::add(&mut m, "partial_json", Json::Text(partial_json));
            },
        }
        Json::Object(m)
    }
}

fn blocks_json(blocks: Vec<ResponseContentBlock>) -> (r: Json)
    ensures
        are_blocks(r, blocks@),
{
    let ghost all = blocks@;
    let mut rest = blocks;
    let mut out: Vec<Json> = Vec::new();
    let ghost mut done: int = 0;
    assert(all.subrange(0, all.len() as int) =~= all);
    while rest.len() > 0
        invariant
            0 <= done <= all.len(),
            rest@ == all.subrange(done, all.len() as int),
            out@.len() == done,
            forall|i: int| 0 <= i < done ==> is_block(#[trigger] out@[i], all[i]),
        decreases rest@.len(),
    {
        let b = rest.remove(0);
        assert(b == all[done]);
        out.push(b.into_json());
        proof {
            done = done + 1;
        }
        assert(rest@ =~= all.subrange(done, all.len() as int));
    }
    Json::Array(out)
}

impl MessagesResponse {
    /// The answer as a value.
    pub fn into_json(self) -> (r: Json)
        ensures
            is_message(r, self),
    {
        let mut m: Vec<(String, Json)> = Vec::new();
        self::add(&mut m, "id", Json::Text(self.id));
        self::add(&mut m, "type", Json::Text(self.ty));
        self::add(&mut m, "role", Json::Text(self.role));
        self::add(&mut m, "model", Json::Text(self.model));
        self::add(&mut m, "content", blocks_json(self.content));
        if let Some(s) = self.stop_reason {
            self::add(&mut m, "stop_reason", Json::Text(s));
        }
        if let Some(s) = self.stop_sequence {
            self::add(&mut m, "stop_sequence", Json::Text(s));
        }
        let mut u: Vec<(String, Json)> = Vec::new();
        self::add(&mut u, "input_tokens", number(self.usage.input_tokens as u64));
        self::add(&mut u, "output_tokens", number(self.usage.output_tokens as u64));
        self::add(&mut m, "usage", Json::Object(u));
        Json::Object(m)
    }
}

impl MessagesResponseChunk {
    /// How many tokens the answer has, where the event tells it.
    pub fn output_tokens(&self) -> (r: Option<u32>)
        ensures
            r == match *self {
                MessagesResponseChunk::MessageDelta { output_tokens, .. } => output_tokens,
                _ => None,
            },
    {
        match self {
            MessagesResponseChunk::MessageDelta { output_tokens, .. } => *output_tokens,
            _ => None,
        }
    }

    /// The name of the event.
    pub fn event_name(&self) -> (r: &'static str)
        ensures
            r@ == event_of(*self),
    {
        match self {
            MessagesResponseChunk::MessageStart { .. } => "message_start",
            MessagesResponseChunk::ContentBlockStart { .. } => "content_block_start",
            MessagesResponseChunk::ContentBlockDelta { .. } => "content_block_delta",
            MessagesResponseChunk::ContentBlockStop { .. } => "content_block_stop",
            MessagesResponseChunk::MessageDelta { .. } => "message_delta",
            MessagesResponseChunk::MessageStop => "message_stop",
        }
    }

    /// What the event carries, as a value.
    pub fn into_json(self) -> (r: Json)
        ensures
            carries(r, self),
    {
        let mut m: Vec<(String, Json)> = Vec::new();
        self::add(&mut m, "type", Json::from_str(self.event_name()));
        match self {
            MessagesResponseChunk::MessageStart { message } => {
                self::add(&mut m, "message", message.into_json());
            },
            MessagesResponseChunk::ContentBlockStart { index, content_block } => {
                self::add(&mut m, "index", number(index as u64));
                self::add(&mut m, "content_block", content_block.into_json());
            },
            MessagesResponseChunk::ContentBlockDelta { index, delta } => {
                self::add(&mut m, "index", number(index as u64));
                self::add(&mut m, "delta", delta.into_json());
            },
            MessagesResponseChunk::ContentBlockStop { index } => {
                self::add(&mut m, "index", number(index as u64));
            },
            MessagesResponseChunk::MessageDelta { stop_reason, stop_sequence, output_tokens } => {
                let mut d: Vec<(String, Json)> = Vec::new();
                self::add(&mut d, "stop_reason", opt_text(stop_reason));
                self::add(&mut d, "stop_sequence", opt_text(stop_sequence));
                self::add(&mut m, "delta", Json::Object(d));
                if let Some(n) = output_tokens {
                    let mut u: Vec<(String, Json)> = Vec::new();
                    self::add(&mut u, "output_tokens", number(n as u64));
                    self::add(&mut m, "usage", Json::Object(u));
                }
            },
            MessagesResponseChunk::MessageStop => {},
        }
        Json::Object(m)
    }

    /// The event as it goes out, in bytes; nothing if what it carries cannot be
    /// written as JSON.
    pub fn to_sse_bytes(self) -> (r: Option<Vec<u8>>)
        ensures
            exists|v: Json| #[trigger]
                carries(v, self) && match json::printed(v) {
                    Some(data) => r matches Some(b) && b@ == vstd::utf8::encode_utf8(
                        event_text(event_of(self), data),
                    ),
                    None => r is None,
                },
    {
        let name = self.event_name();
        let v = self.into_json();
        match json::print(&v) {
            None => None,
            Some(data) => {
                let t = text::cat5("event: ", name, "\ndata: ", data.as_str(), "\n\n");
                Some(text::bytes_of(t.as_str()))
            },
        }
    }
}

proof fn lemma_member_at(m: Seq<(String, Json)>, name: Seq<char>, i: int, start: int)
    requires
        0 <= start <= i,
        named(m, i, name),
        forall|j: int| start <= j < i ==> (#[trigger] m[j]).0@ != name,
    ensures
        json::member_from(m, name, start) == Some(m[i].1),
    decreases i - start,
{
    if start < i {
        assert(m[start].0@ != name);
        lemma_member_at(m, name, i, start + 1);
    }
}

proof fn lemma_no_member(m: Seq<(String, Json)>, name: Seq<char>, start: int)
    requires
        0 <= start,
        forall|j: int| start <= j < m.len() ==> (#[trigger] m[j]).0@ != name,
    ensures
        json::member_from(m, name, start) is None,
    decreases m.len() - start,
{
    if start < m.len() {
        assert(m[start].0@ != name);
        lemma_no_member(m, name, start + 1);
    }
}

proof fn lemma_number(v: Json, n: nat)
    requires
        is_number(v, n),
        n <= u64::MAX,
    ensures
        v.uint64() == Some(n as int),
{
    text::law_decimal_reads_back(n);
    let d = text::decimal(n);
    assert(48 <= d[0] as int <= 57);
}

/// A block of an answer says under its names what it is and all that it holds.
pub proof fn law_block_tells_what_it_holds(v: Json, b: ResponseContentBlock)
    requires
        is_block(v, b),
    ensures
        match b {
            ResponseContentBlock::Text { text } => {
                &&& v.string_member("type"@) == Some("text"@)
                &&& v.string_member("text"@) == Some(text@)
            },
            ResponseContentBlock::Thinking { thinking, signature } => {
                &&& v.string_member("type"@) == Some("thinking"@)
                &&& v.string_member("thinking"@) == Some(thinking@)
                &&& v.string_member("signature"@) == Some(signature@)
            },
            ResponseContentBlock::ToolUse { id, name, input } => {
                &&& v.string_member("type"@) == Some("tool_use"@)
                &&& v.string_member("id"@) == Some(id@)
                &&& v.string_member("name"@) == Some(name@)
                &&& v.member("input"@) == Some(input)
            },
        },
{
    reveal_strlit("type");
    reveal_strlit("text");
    reveal_strlit("thinking");
    reveal_strlit("signature");
    reveal_strlit("id");
    reveal_strlit("name");
    reveal_strlit("input");
    assert("type"@.len() == 4 && "text"@.len() == 4 && "name"@.len() == 4 && "id"@.len() == 2
        && "input"@.len() == 5 && "thinking"@.len() == 8 && "signature"@.len() == 9);
    assert("type"@[1] == 'y' && "text"@[1] == 'e' && "name"@[1] == 'a');
    let m = v->Object_0@;
    lemma_member_at(m, "type"@, 0, 0);
    match b {
        ResponseContentBlock::Text { text } => {
            lemma_member_at(m, "text"@, 1, 0);
        },
        ResponseContentBlock::Thinking { thinking, signature } => {
            lemma_member_at(m, "thinking"@, 1, 0);
            lemma_member_at(m, "signature"@, 2, 0);
        },
        ResponseContentBlock::ToolUse { id, name, input } => {
            lemma_member_at(m, "id"@, 1, 0);
            lemma_member_at(m, "name"@, 2, 0);
            lemma_member_at(m, "input"@, 3, 0);
        },
    }
}

/// A further piece of a block says of which kind it is, and holds its text.
pub proof fn law_delta_tells_its_text(v: Json, d: ContentBlockDelta)
    requires
        is_delta(v, d),
    ensures
        match d {
            ContentBlockDelta::Text { text } => v.string_member("type"@) == Some("text_delta"@)
                && v.string_member("text"@) == Some(text@),
            ContentBlockDelta::Thinking { thinking } => v.string_member("type"@) == Some(
                "thinking_delta"@,
            ) && v.string_member("thinking"@) == Some(thinking@),
            ContentBlockDelta::InputJson { partial_json } => v.string_member("type"@) == Some(
                "input_json_delta"@,
            ) && v.string_member("partial_json"@) == Some(partial_json@),
        },
{
    reveal_strlit("type");
    reveal_strlit("text");
    reveal_strlit("thinking");
    reveal_strlit("partial_json");
    assert("type"@.len() == 4 && "text"@.len() == 4 && "thinking"@.len() == 8
        && "partial_json"@.len() == 12);
    assert("type"@[1] == 'y' && "text"@[1] == 'e');
    let m = v->Object_0@;
    lemma_member_at(m, "type"@, 0, 0);
    lemma_member_at(m, m[1].0@, 1, 0);
}

/// An answer tells everything under its names: who it is, its blocks in order,
/// how it ended where that is known, and the tokens that it took.
pub proof fn law_message_tells_everything(v: Json, r: MessagesResponse, i: int)
    requires
        is_message(v, r),
        0 <= i < r.content@.len(),
    ensures
        v.string_member("id"@) == Some(r.id@),
        v.string_member("type"@) == Some(r.ty@),
        v.string_member("role"@) == Some(r.role@),
        v.string_member("model"@) == Some(r.model@),
        v.string_member("stop_reason"@) == r.stop_reason.deep_view(),
        v.string_member("stop_sequence"@) == r.stop_sequence.deep_view(),
        v.member("content"@) matches Some(Json::Array(a)) && a@.len() == r.content@.len()
            && is_block(a@[i], r.content@[i]),
        v.member("usage"@) matches Some(u) && json::uint64_member(u, "input_tokens"@) == Some(
            r.usage.input_tokens as int,
        ) && json::uint64_member(u, "output_tokens"@) == Some(r.usage.output_tokens as int),
{
    reveal_strlit("id");
    reveal_strlit("type");
    reveal_strlit("role");
    reveal_strlit("model");
    reveal_strlit("content");
    reveal_strlit("stop_reason");
    reveal_strlit("stop_sequence");
    reveal_strlit("usage");
    reveal_strlit("input_tokens");
    reveal_strlit("output_tokens");
    assert("id"@.len() == 2 && "type"@.len() == 4 && "role"@.len() == 4 && "model"@.len() == 5
        && "content"@.len() == 7 && "stop_reason"@.len() == 11 && "stop_sequence"@.len() == 13
        && "usage"@.len() == 5);
    assert("type"@[0] == 't' && "role"@[0] == 'r' && "model"@[0] == 'm' && "usage"@[0] == 'u');
    assert("input_tokens"@.len() == 12 && "output_tokens"@.len() == 13);
    let m = v->Object_0@;
    let a: int = if r.stop_reason is Some {
        1
    } else {
        0
    };
    let b: int = if r.stop_sequence is Some {
        1
    } else {
        0
    };
    lemma_member_at(m, "id"@, 0, 0);
    lemma_member_at(m, "type"@, 1, 0);
    lemma_member_at(m, "role"@, 2, 0);
    lemma_member_at(m, "model"@, 3, 0);
    lemma_member_at(m, "content"@, 4, 0);
    if a == 1 {
        lemma_member_at(m, "stop_reason"@, 5, 0);
    } else {
        lemma_no_member(m, "stop_reason"@, 0);
    }
    if b == 1 {
        lemma_member_at(m, "stop_sequence"@, 5 + a, 0);
    } else {
        lemma_no_member(m, "stop_sequence"@, 0);
    }
    lemma_member_at(m, "usage"@, 5 + a + b, 0);
    let u = m[5 + a + b].1;
    let w = u->Object_0@;
    lemma_member_at(w, "input_tokens"@, 0, 0);
    lemma_member_at(w, "output_tokens"@, 1, 0);
    lemma_number(w[0].1, r.usage.input_tokens as nat);
    lemma_number(w[1].1, r.usage.output_tokens as nat);
}

/// An event says of which kind it is, to which block it belongs, and holds what it
/// is about.
pub proof fn law_event_tells_what_it_is_about(v: Json, c: MessagesResponseChunk)
    requires
        carries(v, c),
    ensures
        v.string_member("type"@) == Some(event_of(c)),
        match c {
            MessagesResponseChunk::MessageStart { message } => v.member("message"@) matches Some(x)
                && is_message(x, message),
            MessagesResponseChunk::ContentBlockStart { index, content_block } => {
                &&& json::uint64_member(v, "index"@) == Some(index as int)
                &&& v.member("content_block"@) matches Some(x) && is_block(x, content_block)
            },
            MessagesResponseChunk::ContentBlockDelta { index, delta } => {
                &&& json::uint64_member(v, "index"@) == Some(index as int)
                &&& v.member("delta"@) matches Some(x) && is_delta(x, delta)
            },
            MessagesResponseChunk::ContentBlockStop { index } => json::uint64_member(v, "index"@)
                == Some(index as int),
            MessagesResponseChunk::MessageDelta { stop_reason, stop_sequence, output_tokens } => {
                &&& v.member("delta"@) matches Some(x) && x.string_member("stop_reason"@)
                    == stop_reason.deep_view() && x.string_member("stop_sequence"@)
                    == stop_sequence.deep_view()
                &&& output_tokens matches Some(n) ==> (v.member("usage"@) matches Some(u)
                    && json::uint64_member(u, "output_tokens"@) == Some(n as int))
                &&& output_tokens is None ==> v.member("usage"@) is None
            },
            MessagesResponseChunk::MessageStop => true,
        },
{
    reveal_strlit("type");
    reveal_strlit("message");
    reveal_strlit("index");
    reveal_strlit("content_block");
    reveal_strlit("delta");
    reveal_strlit("usage");
    reveal_strlit("stop_reason");
    reveal_strlit("stop_sequence");
    reveal_strlit("output_tokens");
    assert("type"@.len() == 4 && "message"@.len() == 7 && "index"@.len() == 5
        && "content_block"@.len() == 13 && "delta"@.len() == 5 && "usage"@.len() == 5
        && "stop_reason"@.len() == 11 && "stop_sequence"@.len() == 13);
    assert("index"@[0] == 'i' && "delta"@[0] == 'd' && "usage"@[0] == 'u');
    let m = v->Object_0@;
    lemma_member_at(m, "type"@, 0, 0);
    match c {
        MessagesResponseChunk::MessageStart { message } => {
            lemma_member_at(m, "message"@, 1, 0);
        },
        MessagesResponseChunk::ContentBlockStart { index, content_block } => {
            lemma_member_at(m, "index"@, 1, 0);
            lemma_member_at(m, "content_block"@, 2, 0);
            lemma_number(m[1].1, index as nat);
        },
        MessagesResponseChunk::ContentBlockDelta { index, delta } => {
            lemma_member_at(m, "index"@, 1, 0);
            lemma_member_at(m, "delta"@, 2, 0);
            lemma_number(m[1].1, index as nat);
        },
        MessagesResponseChunk::ContentBlockStop { index } => {
            lemma_member_at(m, "index"@, 1, 0);
            lemma_number(m[1].1, index as nat);
        },
        MessagesResponseChunk::MessageDelta { stop_reason, stop_sequence, output_tokens } => {
            lemma_member_at(m, "delta"@, 1, 0);
            let x = m[1].1->Object_0@;
            lemma_member_at(x, "stop_reason"@, 0, 0);
            lemma_member_at(x, "stop_sequence"@, 1, 0);
            match output_tokens {
                Some(n) => {
                    lemma_member_at(m, "usage"@, 2, 0);
                    let u = m[2].1->Object_0@;
                    lemma_member_at(u, "output_tokens"@, 0, 0);
                    lemma_number(u[0].1, n as nat);
                },
                None => {
                    lemma_no_member(m, "usage"@, 0);
                },
            }
        },
        MessagesResponseChunk::MessageStop => {},
    }
}

/// Events of different kinds have different names.
pub proof fn law_event_names_differ(c: MessagesResponseChunk)
    ensures
        event_of(c) == "message_start"@ <==> c is MessageStart,
        event_of(c) == "content_block_start"@ <==> c is ContentBlockStart,
        event_of(c) == "content_block_delta"@ <==> c is ContentBlockDelta,
        event_of(c) == "content_block_stop"@ <==> c is ContentBlockStop,
        event_of(c) == "message_delta"@ <==> c is MessageDelta,
        event_of(c) == "message_stop"@ <==> c is MessageStop,
{
    reveal_strlit("message_start");
    reveal_strlit("content_block_start");
    reveal_strlit("content_block_delta");
    reveal_strlit("content_block_stop");
    reveal_strlit("message_delta");
    reveal_strlit("message_stop");
    assert("message_start"@.len() == 13 && "content_block_start"@.len() == 19
        && "content_block_delta"@.len() == 19 && "content_block_stop"@.len() == 18
        && "message_delta"@.len() == 13 && "message_stop"@.len() == 12);
    assert("message_start"@[8] == 's' && "message_delta"@[8] == 'd');
    assert("content_block_start"@[14] == 's' && "content_block_delta"@[14] == 'd');
}

/// An event goes out as one line with its name and one with its data, and ends
/// with an empty line.
pub proof fn law_event_goes_out_in_two_lines(name: Seq<char>, data: Seq<char>)
    ensures
        text::stands_at(event_text(name, data), "event: "@ + name + "\n"@, 0),
        text::occurs(event_text(name, data), "\ndata: "@ + data + "\n\n"@),
        text::stands_at(event_text(name, data), "\n\n"@, event_text(name, data).len() - 2),
{
    reveal_strlit("\ndata: ");
    reveal_strlit("\n\n");
    reveal_strlit("\n");
    let t = event_text(name, data);
    let head = "event: "@ + name + "\n"@;
    assert(t.subrange(0, head.len() as int) =~= head);
    let tail = "\ndata: "@ + data + "\n\n"@;
    let none = Seq::<char>::empty();
    assert(t =~= ("event: "@ + name) + tail + none);
    text::lemma_occurs_between("event: "@ + name, tail, none);
    assert(t.subrange(t.len() - 2, t.len() as int) =~= "\n\n"@);
}

/// A value is refused as a tool exactly where it is no object, or is of the custom
/// type, by its word or by its silence, and has no name.
pub proof fn law_tools_need_a_name(v: Json)
    ensures
        tool_error(v) is None <==> v is Object && (v.string_member("name"@) is Some || (
        v.string_member("type"@) is Some && v.string_member("type"@) != Some("custom"@))),
{
}

/// A custom tool is taken over with all that its value says of it, and any other
/// is passed over.
pub proof fn law_tool_is_taken_over(v: Json, t: ToolUnion, name: Seq<char>, b: bool)
    requires
        describes(v, t),
    ensures
        t is Other <==> !is_custom(v),
        v.string_member("type"@) is None ==> t is Custom,
        t matches ToolUnion::Custom { name: n, description, input_schema, strict } ==> {
            &&& v.string_member("name"@) == Some(name) <==> n@ == name
            &&& description is Some <==> v.string_member("description"@) is Some
            &&& v.member("input_schema"@) is None ==> input_schema is Null
            &&& v.member("input_schema"@) matches Some(s) ==> input_schema == s
            &&& strict == Some(b) <==> v.member("strict"@) == Some(Json::Bool(b))
        },
{
}

} // verus!
