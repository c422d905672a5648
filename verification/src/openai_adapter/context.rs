//! Long conversations: what of them can be summed up, and under which key a
//! summary is kept.

use vstd::prelude::*;

use crate::config::ContextConfig;
use crate::copies::Duplicate;
use crate::ds_core::attempt;
use crate::ds_core::completions;
use crate::encoding;
use crate::json::Json;
use crate::openai_adapter::types::{
    ChatCompletionsRequest, ContentPart, ContentPartV, Message, MessageContent, MessageContentV,
    MessageV,
};
use crate::text;

verus! {

/// What can be summed up of a conversation, and what stays.
#[derive(Debug)]
pub struct ContextPlan {
    pub cache_key: String,
    pub in_flight_key: String,
    /// The old messages, to be summed up.
    pub prefix: Vec<Message>,
    /// All messages but those of the system.
    pub non_system: Vec<Message>,
    pub systems: Vec<Message>,
    pub prefix_count: usize,
    pub prefix_hash: String,
    pub prefix_chars: usize,
}

/// The model of a `ContextPlan`.
#[verifier::ext_equal]
pub struct PlanV {
    pub cache_key: Seq<char>,
    pub in_flight_key: Seq<char>,
    pub prefix: Seq<MessageV>,
    pub non_system: Seq<MessageV>,
    pub systems: Seq<MessageV>,
    pub prefix_count: int,
    pub prefix_hash: Seq<char>,
    pub prefix_chars: int,
}

impl View for ContextPlan {
    type V = PlanV;

    open spec fn view(&self) -> PlanV {
        PlanV {
            cache_key: self.cache_key@,
            in_flight_key: self.in_flight_key@,
            prefix: self.prefix.deep_view(),
            non_system: self.non_system.deep_view(),
            systems: self.systems.deep_view(),
            prefix_count: self.prefix_count as int,
            prefix_hash: self.prefix_hash@,
            prefix_chars: self.prefix_chars as int,
        }
    }
}

/// The messages of the system among the first `n`.
pub open spec fn systems_of(ms: Seq<MessageV>, n: int) -> Seq<MessageV>
    decreases n,
{
    if n <= 0 {
        Seq::empty()
    } else if ms[n - 1].role == "system"@ {
        systems_of(ms, n - 1).push(ms[n - 1])
    } else {
        systems_of(ms, n - 1)
    }
}

/// The messages among the first `n` that are not of the system.
pub open spec fn others_of(ms: Seq<MessageV>, n: int) -> Seq<MessageV>
    decreases n,
{
    if n <= 0 {
        Seq::empty()
    } else if ms[n - 1].role == "system"@ {
        others_of(ms, n - 1)
    } else {
        others_of(ms, n - 1).push(ms[n - 1])
    }
}

/// A part is text and nothing else.
pub open spec fn is_text_part(p: ContentPartV) -> bool {
    p.text is Some && p.image_url is None && p.input_audio is None && p.file is None && p.refusal
        is None
}

/// All parts are text and nothing else.
pub open spec fn are_text_parts(p: Seq<ContentPartV>) -> bool {
    forall|i: int| 0 <= i < p.len() ==> is_text_part(#[trigger] p[i])
}

/// A content is text and nothing else.
pub open spec fn is_text_only(c: MessageContentV) -> bool {
    match c {
        MessageContentV::Text(_) => true,
        MessageContentV::Parts(p) => are_text_parts(p),
    }
}

/// A message that can be summed up: of the user or the assistant, with nothing
/// but text.
pub open spec fn is_plain_message(m: MessageV) -> bool {
    &&& m.role == "user"@ || m.role == "assistant"@
    &&& m.tool_calls is None
    &&& m.function_call is None
    &&& m.audio is None
    &&& m.refusal is None
    &&& m.content matches Some(c) ==> is_text_only(c)
}

/// How many characters the first `n` parts hold.
pub open spec fn parts_size(p: Seq<ContentPartV>, n: int) -> int
    decreases n,
{
    if n <= 0 {
        0
    } else {
        parts_size(p, n - 1) + match p[n - 1].text {
            Some(t) => t.len() as int,
            None => 0,
        }
    }
}

/// How many characters a content holds.
pub open spec fn content_size(c: MessageContentV) -> int {
    match c {
        MessageContentV::Text(t) => t.len() as int,
        MessageContentV::Parts(p) => parts_size(p, p.len() as int),
    }
}

/// The size of a message: the bytes of its role and the characters of its
/// content.
pub open spec fn message_size(m: MessageV) -> int {
    vstd::utf8::encode_utf8(m.role).len() + match m.content {
        Some(c) => content_size(c),
        None => 0,
    }
}

/// The size of the first `n` messages.
pub open spec fn messages_size(ms: Seq<MessageV>, n: int) -> int
    decreases n,
{
    if n <= 0 {
        0
    } else {
        messages_size(ms, n - 1) + message_size(ms[n - 1])
    }
}

/// The texts of the first `n` parts.
pub open spec fn part_texts(p: Seq<ContentPartV>, n: int) -> Seq<Seq<char>>
    decreases n,
{
    if n <= 0 {
        Seq::empty()
    } else {
        match p[n - 1].text {
            Some(t) => part_texts(p, n - 1).push(t),
            None => part_texts(p, n - 1),
        }
    }
}

/// The text of a content.
pub open spec fn content_text(c: MessageContentV) -> Seq<char> {
    match c {
        MessageContentV::Text(t) => t,
        MessageContentV::Parts(p) => text::joined(
            part_texts(p, p.len() as int),
            "\n"@,
            part_texts(p, p.len() as int).len() as int,
        ),
    }
}

/// A message as it is shown to whoever sums it up.
pub open spec fn message_line(m: MessageV) -> Seq<char> {
    m.role + ": "@ + match m.content {
        Some(c) => content_text(c),
        None => Seq::empty(),
    } + "\n"@
}

/// The first `n` messages as they are shown to whoever sums them up.
pub open spec fn rendered(ms: Seq<MessageV>, n: int) -> Seq<char>
    decreases n,
{
    if n <= 0 {
        Seq::empty()
    } else {
        rendered(ms, n - 1) + message_line(ms[n - 1])
    }
}

/// What of a message goes into a digest.
pub open spec fn message_bytes(m: MessageV) -> Seq<u8> {
    vstd::utf8::encode_utf8(m.role) + seq![0u8] + match m.content {
        Some(c) => vstd::utf8::encode_utf8(content_text(c)),
        None => Seq::empty(),
    } + seq![0xffu8]
}

/// What of the first `n` messages goes into a digest.
pub open spec fn messages_bytes(ms: Seq<MessageV>, n: int) -> Seq<u8>
    decreases n,
{
    if n <= 0 {
        Seq::empty()
    } else {
        messages_bytes(ms, n - 1) + message_bytes(ms[n - 1])
    }
}

/// A digest in hexadecimal digits.
pub open spec fn digest_text(bytes: Seq<u8>) -> Seq<char> {
    encoding::hex_of(encoding::sha256(bytes), encoding::sha256(bytes).len() as int)
}

/// The digest of the first `n` messages.
pub open spec fn messages_digest(ms: Seq<MessageV>, n: int) -> Seq<char> {
    digest_text(messages_bytes(ms, n))
}

/// The first of these members that an object has.
pub open spec fn conversation_member(m: Json) -> Option<Json> {
    if m.member("conversation_id"@) is Some {
        m.member("conversation_id"@)
    } else if m.member("thread_id"@) is Some {
        m.member("thread_id"@)
    } else if m.member("chat_id"@) is Some {
        m.member("chat_id"@)
    } else {
        m.member("id"@)
    }
}

/// The name that the metadata of a request give its conversation.
pub open spec fn conversation_name(metadata: Option<Json>) -> Option<Seq<char>> {
    match metadata {
        None => None,
        Some(m) => match conversation_member(m) {
            Some(v) => match v.string() {
                Some(s) => if s.len() > 0 {
                    Some(s)
                } else {
                    None
                },
                None => None,
            },
            None => None,
        },
    }
}

/// A text that is there and not empty.
pub open spec fn filled_in(s: Option<Seq<char>>) -> bool {
    s matches Some(t) && t.len() > 0
}

/// What tells a conversation without a name from others: its model and user,
/// the messages of the system, and the first two others.
pub open spec fn implicit_bytes(
    model: Seq<char>,
    user: Option<Seq<char>>,
    systems: Seq<MessageV>,
    first: Seq<MessageV>,
) -> Seq<u8> {
    vstd::utf8::encode_utf8(model) + (if filled_in(user) {
        vstd::utf8::encode_utf8(user->0) + seq![0xfeu8]
    } else {
        Seq::empty()
    }) + messages_bytes(systems, systems.len() as int) + messages_bytes(first, first.len() as int)
}

/// The first two messages, or all where there are fewer.
pub open spec fn first_two(ms: Seq<MessageV>) -> Seq<MessageV> {
    if ms.len() <= 2 {
        ms
    } else {
        ms.take(2)
    }
}

/// The key of a conversation.
pub open spec fn key_of(
    req: ChatCompletionsRequest,
    systems: Seq<MessageV>,
    non_system: Seq<MessageV>,
) -> Seq<char> {
    if filled_in(req.prompt_cache_key.deep_view()) {
        "prompt_cache:"@ + req.prompt_cache_key->0@
    } else if conversation_name(req.metadata) is Some {
        "metadata:"@ + conversation_name(req.metadata)->0
    } else {
        "implicit:"@ + digest_text(
            implicit_bytes(req.model@, req.user.deep_view(), systems, first_two(non_system)),
        )
    }
}

/// What can be summed up of a request: all but the last messages and those of
/// the system, where they are plain and large enough.
pub open spec fn plan_of(req: ChatCompletionsRequest, cfg: ContextConfig) -> Option<PlanV> {
    let ms = req.messages.deep_view();
    let systems = systems_of(ms, ms.len() as int);
    let others = others_of(ms, ms.len() as int);
    let split = others.len() - cfg.keep_last_messages;
    if split <= 0 {
        None
    } else {
        let prefix = others.take(split);
        let size = messages_size(prefix, split);
        if !(forall|i: int| 0 <= i < prefix.len() ==> is_plain_message(#[trigger] prefix[i])) || size
            < cfg.prewarm_chars {
            None
        } else {
            let key = key_of(req, systems, others);
            let hash = messages_digest(prefix, split);
            Some(
                PlanV {
                    cache_key: key,
                    in_flight_key: key + ":"@ + text::decimal(split as nat) + ":"@ + hash,
                    prefix,
                    non_system: others,
                    systems,
                    prefix_count: split,
                    prefix_hash: hash,
                    prefix_chars: size,
                },
            )
        }
    }
}

/// Whether a part is text and nothing else.
fn text_part(p: &ContentPart) -> (r: bool)
    ensures
        r == is_text_part(p.deep_view()),
{
    p.text.is_some() && p.image_url.is_none() && p.input_audio.is_none() && p.file.is_none()
        && p.refusal.is_none()
}

/// Whether a content is text and nothing else.
pub fn is_text_only_content(content: &MessageContent) -> (r: bool)
    ensures
        r == is_text_only(content.deep_view()),
{
    match content {
        MessageContent::Text(_) => true,
        MessageContent::Parts(parts) => {
            let ghost p = parts.deep_view();
            let mut i: usize = 0;
            while i < parts.len()
                invariant
                    i <= parts@.len(),
                    p == parts.deep_view(),
                    p.len() == parts@.len(),
                    content.deep_view() == MessageContentV::Parts(p),
                    forall|k: int| 0 <= k < i ==> is_text_part(#[trigger] p[k]),
                decreases parts@.len() - i,
            {
                assert(p[i as int] == parts@[i as int].deep_view());
                if !text_part(&parts[i]) {
                    assert(!are_text_parts(p));
                    return false;
                }
                i += 1;
            }
            true
        },
    }
}

/// Whether a message can be summed up: it is of the user or the assistant, and
/// nothing but text.
pub fn is_safe_text_message(msg: &Message) -> (r: bool)
    ensures
        r == is_plain_message(msg.deep_view()),
{
    if !(text::same(msg.role.as_str(), "user") || text::same(msg.role.as_str(), "assistant")) {
        return false;
    }
    if msg.tool_calls.is_some() || msg.function_call.is_some() || msg.audio.is_some()
        || msg.refusal.is_some() {
        return false;
    }
    match &msg.content {
        Some(c) => is_text_only_content(c),
        None => true,
    }
}

proof fn lemma_parts_size_grows(p: Seq<ContentPartV>, i: int, n: int)
    requires
        0 <= i <= n,
    ensures
        0 <= parts_size(p, i) <= parts_size(p, n),
    decreases n,
{
    if n > i {
        lemma_parts_size_grows(p, i, n - 1);
    } else if n > 0 {
        lemma_parts_size_grows(p, i - 1, n - 1);
    }
}

/// How many characters a content holds.
pub fn content_text_len(content: &MessageContent) -> (r: usize)
    requires
        content_size(content.deep_view()) <= usize::MAX,
    ensures
        r == content_size(content.deep_view()),
{
    match content {
        MessageContent::Text(t) => text::char_count(t.as_str()),
        MessageContent::Parts(parts) => {
            let ghost p = parts.deep_view();
            let mut total: usize = 0;
            let mut i: usize = 0;
            while i < parts.len()
                invariant
                    i <= parts@.len(),
                    p == parts.deep_view(),
                    p.len() == parts@.len(),
                    total == parts_size(p, i as int),
                    parts_size(p, p.len() as int) <= usize::MAX,
                decreases parts@.len() - i,
            {
                proof {
                    lemma_parts_size_grows(p, i + 1, p.len() as int);
                }
                assert(p[i as int] == parts@[i as int].deep_view());
                let n: usize = match &parts[i].text {
                    Some(t) => text::char_count(t.as_str()),
                    None => 0,
                };
                total = total + n;
                i += 1;
            }
            total
        },
    }
}

proof fn lemma_content_size(c: MessageContentV)
    ensures
        content_size(c) >= 0,
{
    if let MessageContentV::Parts(p) = c {
        lemma_parts_size_grows(p, 0, p.len() as int);
    }
}

proof fn lemma_messages_size_grows(ms: Seq<MessageV>, i: int, n: int)
    requires
        0 <= i <= n,
    ensures
        0 <= messages_size(ms, i) <= messages_size(ms, n),
    decreases n,
{
    if n > 0 {
        if let Some(c) = ms[n - 1].content {
            lemma_content_size(c);
        }
        if n > i {
            lemma_messages_size_grows(ms, i, n - 1);
        } else {
            lemma_messages_size_grows(ms, i - 1, n - 1);
        }
    }
}

/// The size of some messages.
pub fn message_chars(messages: &Vec<Message>) -> (r: usize)
    requires
        messages_size(messages.deep_view(), messages@.len() as int) <= usize::MAX,
    ensures
        r == messages_size(messages.deep_view(), messages@.len() as int),
{
    let ghost ms = messages.deep_view();
    let mut total: usize = 0;
    let mut i: usize = 0;
    while i < messages.len()
        invariant
            i <= messages@.len(),
            ms == messages.deep_view(),
            ms.len() == messages@.len(),
            total == messages_size(ms, i as int),
            messages_size(ms, ms.len() as int) <= usize::MAX,
        decreases messages@.len() - i,
    {
        proof {
            lemma_messages_size_grows(ms, i + 1, ms.len() as int);
            lemma_messages_size_grows(ms, i as int, ms.len() as int);
        }
        assert(ms[i as int] == messages@[i as int].deep_view());
        let size: usize = match &messages[i].content {
            Some(c) => {
                proof {
                    lemma_content_size(c.deep_view());
                }
                content_text_len(c)
            },
            None => 0,
        };
        total = total + text::byte_len(messages[i].role.as_str()) + size;
        i += 1;
    }
    total
}

/// The text of a content; the texts of its parts stand on lines of their own.
pub fn content_to_text(content: &MessageContent) -> (r: String)
    ensures
        r@ == content_text(content.deep_view()),
{
    match content {
        MessageContent::Text(t) => t.clone(),
        MessageContent::Parts(parts) => {
            let ghost p = parts.deep_view();
            let mut texts: Vec<String> = Vec::new();
            assert(text::strs(texts@) =~= Seq::empty());
            let mut i: usize = 0;
            while i < parts.len()
                invariant
                    i <= parts@.len(),
                    p == parts.deep_view(),
                    text::strs(texts@) == part_texts(p, i as int),
                decreases parts@.len() - i,
            {
                assert(p[i as int] == parts@[i as int].deep_view());
                if let Some(t) = &parts[i].text {
                    text::add_line(&mut texts, t.as_str());
                }
                i += 1;
            }
            text::join(&texts, "\n")
        },
    }
}

/// The messages as they are shown to whoever sums them up.
pub fn render_messages(messages: &Vec<Message>) -> (r: String)
    ensures
        r@ == rendered(messages.deep_view(), messages@.len() as int),
{
    let ghost ms = messages.deep_view();
    let mut out = String::new();
    assert(out@ =~= Seq::empty());
    let mut i: usize = 0;
    while i < messages.len()
        invariant
            i <= messages@.len(),
            ms == messages.deep_view(),
            out@ == rendered(ms, i as int),
        decreases messages@.len() - i,
    {
        assert(ms[i as int] == messages@[i as int].deep_view());
        let body = match &messages[i].content {
            Some(c) => content_to_text(c),
            None => String::new(),
        };
        assert(body@ =~= match ms[i as int].content {
            Some(c) => content_text(c),
            None => Seq::empty(),
        });
        let line = text::cat4(messages[i].role.as_str(), ": ", body.as_str(), "\n");
        out.append(line.as_str());
        i += 1;
    }
    out
}

/// Appends what of a message goes into a digest.
fn add_message_bytes(buf: &mut Vec<u8>, msg: &Message)
    ensures
        final(buf)@ == old(buf)@ + message_bytes(msg.deep_view()),
{
    let ghost before = buf@;
    attempt::append_bytes(buf, &text::bytes_of(msg.role.as_str()));
    buf.push(0);
    if let Some(c) = &msg.content {
        attempt::append_bytes(buf, &text::bytes_of(content_to_text(c).as_str()));
    }
    buf.push(0xff);
    assert(buf@ =~= before + message_bytes(msg.deep_view()));
}

/// Appends what of the first `n` messages goes into a digest.
fn add_messages_bytes(buf: &mut Vec<u8>, messages: &Vec<Message>, n: usize)
    requires
        n <= messages@.len(),
    ensures
        final(buf)@ == old(buf)@ + messages_bytes(messages.deep_view(), n as int),
{
    let ghost before = buf@;
    let ghost ms = messages.deep_view();
    let mut i: usize = 0;
    assert(before =~= before + messages_bytes(ms, 0));
    while i < n
        invariant
            i <= n <= messages@.len(),
            ms == messages.deep_view(),
            buf@ == before + messages_bytes(ms, i as int),
        decreases n - i,
    {
        assert(ms[i as int] == messages@[i as int].deep_view());
        add_message_bytes(buf, &messages[i]);
        i += 1;
        assert(buf@ =~= before + messages_bytes(ms, i as int));
    }
}

/// A digest as text: 64 hexadecimal digits.
pub open spec fn is_digest(s: Seq<char>) -> bool {
    s.len() == 64 && encoding::is_hex(s)
}

fn digest(bytes: &Vec<u8>) -> (r: String)
    ensures
        r@ == digest_text(bytes@),
        is_digest(r@),
{
    let d = encoding::sha256_of(bytes.as_slice());
    proof {
        encoding::law_hex_length(d@, 32);
        encoding::law_hex_is_hex(d@, 32);
    }
    encoding::encode(d.as_slice())
}

/// The digest of the first `n` messages.
pub fn hash_messages(messages: &Vec<Message>, n: usize) -> (r: String)
    requires
        n <= messages@.len(),
    ensures
        r@ == messages_digest(messages.deep_view(), n as int),
        is_digest(r@),
{
    let mut buf: Vec<u8> = Vec::new();
    add_messages_bytes(&mut buf, messages, n);
    assert(buf@ =~= messages_bytes(messages.deep_view(), n as int));
    digest(&buf)
}

/// The member of the metadata that names the conversation.
fn name_in(metadata: &Json) -> (r: Option<&Json>)
    ensures
        match r {
            Some(v) => conversation_member(*metadata) == Some(*v),
            None => conversation_member(*metadata) is None,
        },
{
    if let Some(v) = metadata.get("conversation_id") {
        return Some(v);
    }
    if let Some(v) = metadata.get("thread_id") {
        return Some(v);
    }
    if let Some(v) = metadata.get("chat_id") {
        return Some(v);
    }
    metadata.get("id")
}

proof fn lemma_same_bytes_prefix(a: Seq<MessageV>, n: int)
    requires
        0 <= n <= a.len(),
    ensures
        messages_bytes(a.take(n), n) == messages_bytes(a, n),
    decreases n,
{
    if n > 0 {
        lemma_same_bytes_prefix(a, n - 1);
        lemma_same_bytes_prefix(a.take(n), n - 1);
        assert(a.take(n).take(n - 1) =~= a.take(n - 1));
        assert(a.take(n)[n - 1] == a[n - 1]);
    }
}

/// The key of a conversation: the one that the request gives, else the name in
/// its metadata, else a digest of what does not change as the conversation
/// grows.
pub fn conversation_key(
    req: &ChatCompletionsRequest,
    systems: &Vec<Message>,
    non_system: &Vec<Message>,
) -> (r: String)
    ensures
        r@ == key_of(*req, systems.deep_view(), non_system.deep_view()),
        !filled_in(req.prompt_cache_key.deep_view()) && conversation_name(req.metadata) is None
            ==> exists|d: Seq<char>| #[trigger] is_digest(d) && r@ == "implicit:"@ + d,
{
    if let Some(key) = &req.prompt_cache_key {
        if !key.as_str().is_empty() {
            return text::cat2("prompt_cache:", key.as_str());
        }
    }
    if let Some(m) = &req.metadata {
        if let Some(v) = name_in(m) {
            if let Some(s) = v.as_str() {
                if !s.as_str().is_empty() {
                    return text::cat2("metadata:", s.as_str());
                }
            }
        }
    }
    let mut buf = text::bytes_of(req.model.as_str());
    let ghost model = buf@;
    let ghost mut user: Seq<u8> = Seq::empty();
    if let Some(u) = &req.user {
        if !u.as_str().is_empty() {
            attempt::append_bytes(&mut buf, &text::bytes_of(u.as_str()));
            buf.push(0xfe);
            proof {
                user = vstd::utf8::encode_utf8(u@) + seq![0xfeu8];
            }
        }
    }
    assert(buf@ =~= model + user);
    let two: usize = if non_system.len() < 2 {
        non_system.len()
    } else {
        2
    };
    add_messages_bytes(&mut buf, systems, systems.len());
    add_messages_bytes(&mut buf, non_system, two);
    proof {
        lemma_same_bytes_prefix(non_system.deep_view(), two as int);
        assert(non_system.deep_view().take(two as int) =~= first_two(non_system.deep_view()));
    }
    assert(buf@ =~= implicit_bytes(
        req.model@,
        req.user.deep_view(),
        systems.deep_view(),
        first_two(non_system.deep_view()),
    ));
    let d = digest(&buf);
    assert(is_digest(d@));
    text::cat2("implicit:", d.as_str())
}

/// What can be summed up of a request, and under which key: all but the last
/// messages and those of the system, where they are plain and large enough.
pub fn plan_request(req: &ChatCompletionsRequest, cfg: &ContextConfig) -> (r: Option<ContextPlan>)
    requires
        messages_size(
            others_of(req.messages.deep_view(), req.messages@.len() as int),
            others_of(req.messages.deep_view(), req.messages@.len() as int).len() as int,
        ) <= usize::MAX,
    ensures
        match r {
            Some(p) => plan_of(*req, *cfg) == Some(p@) && p.prefix_count <= p.non_system@.len(),
            None => plan_of(*req, *cfg) is None,
        },
{
    let ghost ms = req.messages.deep_view();
    let mut systems: Vec<Message> = Vec::new();
    let mut non_system: Vec<Message> = Vec::new();
    assert(systems.deep_view() =~= Seq::empty());
    assert(non_system.deep_view() =~= Seq::empty());
    let mut i: usize = 0;
    while i < req.messages.len()
        invariant
            i <= req.messages@.len(),
            ms == req.messages.deep_view(),
            systems.deep_view() == systems_of(ms, i as int),
            non_system.deep_view() == others_of(ms, i as int),
        decreases req.messages@.len() - i,
    {
        assert(ms[i as int] == req.messages@[i as int].deep_view());
        let ghost a = systems.deep_view();
        let ghost b = non_system.deep_view();
        let copy = req.messages[i].duplicate();
        if text::same(req.messages[i].role.as_str(), "system") {
            systems.push(copy);
            assert(systems.deep_view() =~= a.push(ms[i as int]));
        } else {
            non_system.push(copy);
            assert(non_system.deep_view() =~= b.push(ms[i as int]));
        }
        i += 1;
    }
    let ghost others = non_system.deep_view();
    assert(others.len() == non_system@.len());
    if non_system.len() <= cfg.keep_last_messages {
        return None;
    }
    let split_at: usize = non_system.len() - cfg.keep_last_messages;
    let mut prefix: Vec<Message> = Vec::new();
    let mut j: usize = 0;
    while j < split_at
        invariant
            j <= split_at <= non_system@.len(),
            others == non_system.deep_view(),
            prefix.deep_view() == others.take(j as int),
            forall|k: int| 0 <= k < j ==> is_plain_message(#[trigger] others.take(split_at as int)[k]),
            ms == req.messages.deep_view(),
            others == others_of(ms, ms.len() as int),
            split_at == others.len() - cfg.keep_last_messages,
            split_at > 0,
        decreases split_at - j,
    {
        assert(others.take(split_at as int)[j as int] == non_system@[j as int].deep_view());
        if !is_safe_text_message(&non_system[j]) {
            assert(!is_plain_message(others.take(split_at as int)[j as int]));
            return None;
        }
        let ghost taken = prefix.deep_view();
        prefix.push(non_system[j].duplicate());
        j += 1;
        assert(prefix.deep_view() =~= taken.push(others[j - 1]));
        assert(prefix.deep_view() =~= others.take(j as int));
    }
    proof {
        lemma_messages_size_grows(others, split_at as int, others.len() as int);
        lemma_same_size_prefix(others, split_at as int);
    }
    let prefix_chars: usize = message_chars(&prefix);
    if prefix_chars < cfg.prewarm_chars {
        return None;
    }
    let prefix_hash = hash_messages(&prefix, split_at);
    let cache_key = conversation_key(req, &systems, &non_system);
    let d = text::decimal_of(split_at as u64);
    let in_flight_key = text::cat5(
        cache_key.as_str(),
        ":",
        d.as_str(),
        ":",
        prefix_hash.as_str(),
    );
    Some(
        ContextPlan {
            cache_key,
            in_flight_key,
            prefix,
            non_system,
            systems,
            prefix_count: split_at,
            prefix_hash,
            prefix_chars,
        },
    )
}

proof fn lemma_same_size_prefix(a: Seq<MessageV>, n: int)
    requires
        0 <= n <= a.len(),
    ensures
        messages_size(a.take(n), n) == messages_size(a, n),
    decreases n,
{
    if n > 0 {
        lemma_same_size_prefix(a, n - 1);
        lemma_same_size_prefix(a.take(n), n - 1);
        assert(a.take(n).take(n - 1) =~= a.take(n - 1));
        assert(a.take(n)[n - 1] == a[n - 1]);
    }
}

/// A text cut to so many characters, with a mark where something was cut off.
pub open spec fn truncated(s: Seq<char>, max: int) -> Seq<char> {
    if s.len() <= max {
        s
    } else {
        text::prefix(s, max) + "\n[truncated]"@
    }
}

/// A text cut to so many characters, with a mark where something was cut off.
pub fn truncate_chars(s: &str, max_chars: usize) -> (r: String)
    ensures
        r@ == truncated(s@, max_chars as int),
{
    if text::char_count(s) <= max_chars {
        return s.to_owned();
    }
    let head = text::take_chars(s, max_chars);
    text::cat2(head.as_str(), "\n[truncated]")
}

/// The pieces of a text of so many characters each, and at least one; the last
/// may be shorter.
pub fn split_text_chunks(s: &str, chunk_chars: usize) -> (r: Vec<String>)
    ensures
        text::strs(r@) == completions::pieces_from(
            s@,
            if chunk_chars == 0 { 1 } else { chunk_chars as int },
            0,
        ),
{
    completions::split_prompt_chunks(
        s,
        if chunk_chars == 0 {
            1
        } else {
            chunk_chars
        },
    )
}

/// The message in which a summary stands for what it sums up.
pub open spec fn summary_of(summary: Seq<char>, max: int) -> MessageV {
    MessageV {
        role: "system"@,
        content: Some(
            MessageContentV::Text(
                "Tom tat ngu canh truoc do (da nen de tang toc):\n"@ + truncated(summary, max),
            ),
        ),
        name: None,
        tool_call_id: None,
        tool_calls: None,
        function_call: None,
        refusal: None,
        audio: None,
    }
}

/// The message in which a summary stands for what it sums up.
pub fn summary_message(summary: &str, max_chars: usize) -> (r: Message)
    ensures
        r.deep_view() == summary_of(summary@, max_chars as int),
{
    let body = truncate_chars(summary, max_chars);
    Message {
        role: "system".to_owned(),
        content: Some(
            MessageContent::Text(
                text::cat2(
                    "Tom tat ngu canh truoc do (da nen de tang toc):\n",
                    body.as_str(),
                ),
            ),
        ),
        name: None,
        tool_call_id: None,
        tool_calls: None,
        function_call: None,
        refusal: None,
        audio: None,
    }
}

/// The key of a conversation does not change as the conversation grows: it
/// hangs on the request's own names and, where there are none, on the messages
/// of the system and the first two others.
pub proof fn law_key_outlives_growth(
    a: ChatCompletionsRequest,
    b: ChatCompletionsRequest,
    systems: Seq<MessageV>,
    first: Seq<MessageV>,
    more_a: Seq<MessageV>,
    more_b: Seq<MessageV>,
)
    requires
        a.prompt_cache_key == b.prompt_cache_key,
        a.metadata == b.metadata,
        a.model@ == b.model@,
        a.user == b.user,
        first.len() >= 2,
    ensures
        key_of(a, systems, first + more_a) == key_of(b, systems, first + more_b),
{
    assert(first_two(first + more_a) =~= first.take(2));
    assert(first_two(first + more_b) =~= first.take(2));
}

proof fn lemma_split_counts(ms: Seq<MessageV>, n: int)
    requires
        0 <= n <= ms.len(),
    ensures
        systems_of(ms, n).len() + others_of(ms, n).len() == n,
        forall|i: int| 0 <= i < systems_of(ms, n).len() ==> (#[trigger] systems_of(ms, n)[i]).role
            == "system"@,
        forall|i: int| 0 <= i < others_of(ms, n).len() ==> (#[trigger] others_of(ms, n)[i]).role
            != "system"@,
    decreases n,
{
    if n > 0 {
        lemma_split_counts(ms, n - 1);
    }
}

/// The digest of a plan is that of the old messages among the others.
pub proof fn lemma_plan_digest(req: ChatCompletionsRequest, cfg: ContextConfig)
    requires
        plan_of(req, cfg) is Some,
    ensures
        ({
            let p = plan_of(req, cfg)->0;
            p.prefix_hash == messages_digest(p.non_system, p.prefix_count)
        }),
{
    let p = plan_of(req, cfg)->0;
    lemma_same_bytes_prefix(p.non_system, p.prefix_count);
}

/// A plan leaves the last messages out: what is to be summed up and what stays
/// make up all messages that are not of the system, and exactly the asked
/// number of messages stays.
pub proof fn law_plan_spares_the_last(req: ChatCompletionsRequest, cfg: ContextConfig)
    requires
        plan_of(req, cfg) is Some,
    ensures
        ({
            let p = plan_of(req, cfg)->0;
            &&& p.prefix == p.non_system.take(p.prefix_count)
            &&& p.non_system.len() - p.prefix_count == cfg.keep_last_messages
            &&& p.systems.len() + p.non_system.len() == req.messages@.len()
            &&& forall|i: int| 0 <= i < p.prefix.len() ==> is_plain_message(#[trigger] p.prefix[i])
        }),
{
    lemma_split_counts(req.messages.deep_view(), req.messages@.len() as int);
}

proof fn lemma_split_filters(
    ms: Seq<MessageV>,
    n: int,
    of_system: spec_fn(MessageV) -> bool,
    of_others: spec_fn(MessageV) -> bool,
)
    requires
        0 <= n <= ms.len(),
        forall|m: MessageV| #[trigger] of_system(m) == (m.role == "system"@),
        forall|m: MessageV| #[trigger] of_others(m) == (m.role != "system"@),
    ensures
        systems_of(ms, n) == ms.take(n).filter(of_system),
        others_of(ms, n) == ms.take(n).filter(of_others),
    decreases n,
{
    reveal(Seq::filter);
    if n > 0 {
        lemma_split_filters(ms, n - 1, of_system, of_others);
        assert(ms.take(n).drop_last() =~= ms.take(n - 1));
        assert(ms.take(n).last() == ms[n - 1]);
    }
}

/// The messages of the system and the others are those of the request, each
/// kind in its order.
pub proof fn law_messages_are_parted_by_role(
    ms: Seq<MessageV>,
    of_system: spec_fn(MessageV) -> bool,
    of_others: spec_fn(MessageV) -> bool,
)
    requires
        forall|m: MessageV| #[trigger] of_system(m) == (m.role == "system"@),
        forall|m: MessageV| #[trigger] of_others(m) == (m.role != "system"@),
    ensures
        systems_of(ms, ms.len() as int) == ms.filter(of_system),
        others_of(ms, ms.len() as int) == ms.filter(of_others),
{
    lemma_split_filters(ms, ms.len() as int, of_system, of_others);
    assert(ms.take(ms.len() as int) =~= ms);
}

/// There is a plan exactly where more messages than are to stay are not of the
/// system, the old ones are all plain, and they are large enough. Its parts are
/// those of the request, and its counts and digest are those of the old
/// messages.
pub proof fn law_plan_when_worth_it(
    req: ChatCompletionsRequest,
    cfg: ContextConfig,
    of_system: spec_fn(MessageV) -> bool,
    of_others: spec_fn(MessageV) -> bool,
)
    requires
        forall|m: MessageV| #[trigger] of_system(m) == (m.role == "system"@),
        forall|m: MessageV| #[trigger] of_others(m) == (m.role != "system"@),
    ensures
        ({
            let ms = req.messages.deep_view();
            let others = ms.filter(of_others);
            let split = others.len() - cfg.keep_last_messages;
            let size = messages_size(others, split);
            &&& plan_of(req, cfg) is Some <==> split > 0 && (forall|i: int|
                0 <= i < split ==> is_plain_message(#[trigger] others[i])) && size
                >= cfg.prewarm_chars
            &&& plan_of(req, cfg) matches Some(p) ==> {
                &&& p.non_system == others
                &&& p.systems == ms.filter(of_system)
                &&& p.prefix_count == split
                &&& p.prefix == others.take(split)
                &&& p.prefix_chars == size
                &&& p.prefix_hash == messages_digest(others, split)
                &&& p.cache_key == key_of(req, p.systems, others)
                &&& p.in_flight_key == p.cache_key + ":"@ + text::decimal(split as nat) + ":"@
                    + p.prefix_hash
            }
        }),
{
    let ms = req.messages.deep_view();
    law_messages_are_parted_by_role(ms, of_system, of_others);
    let others = ms.filter(of_others);
    let split = others.len() - cfg.keep_last_messages;
    if split > 0 {
        let prefix = others.take(split);
        lemma_same_size_prefix(others, split);
        lemma_same_bytes_prefix(others, split);
        assert(forall|i: int| 0 <= i < split ==> prefix[i] == others[i]);
        if forall|i: int| 0 <= i < split ==> is_plain_message(#[trigger] others[i]) {
            assert forall|i: int| 0 <= i < prefix.len() implies is_plain_message(
                #[trigger] prefix[i],
            ) by {
                assert(prefix[i] == others[i]);
            }
        }
        if forall|i: int| 0 <= i < prefix.len() ==> is_plain_message(#[trigger] prefix[i]) {
            assert forall|i: int| 0 <= i < split implies is_plain_message(#[trigger] others[i]) by {
                assert(prefix[i] == others[i]);
            }
        }
    }
}

/// Only messages of the user and of the assistant are plain, and only those with
/// nothing but text: no call, no audio, no refusal, no picture, no file.
pub proof fn law_plain_messages_are_text(m: MessageV)
    requires
        is_plain_message(m),
    ensures
        m.role == "user"@ || m.role == "assistant"@,
        m.tool_calls is None && m.function_call is None && m.audio is None && m.refusal is None,
        m.content matches Some(MessageContentV::Parts(p)) ==> forall|i: int|
            0 <= i < p.len() ==> (#[trigger] p[i]).text is Some && p[i].image_url is None
                && p[i].input_audio is None && p[i].file is None && p[i].refusal is None,
{
    if let Some(MessageContentV::Parts(p)) = m.content {
        assert(forall|i: int| 0 <= i < p.len() ==> is_text_part(#[trigger] p[i]));
    }
}

/// A message of the user or the assistant with a text, or without content, is
/// plain where it holds nothing else.
pub proof fn law_text_messages_are_plain(m: MessageV)
    requires
        m.role == "user"@ || m.role == "assistant"@,
        m.tool_calls is None && m.function_call is None && m.audio is None && m.refusal is None,
        m.content is None || m.content matches Some(MessageContentV::Text(_)),
    ensures
        is_plain_message(m),
{
}

/// The size of messages is the sum of their sizes.
pub proof fn law_sizes_add_up(a: Seq<MessageV>, b: Seq<MessageV>, n: int)
    requires
        0 <= n <= b.len(),
    ensures
        messages_size(a + b, a.len() + n) == messages_size(a, a.len() as int) + messages_size(b, n),
    decreases n,
{
    if n > 0 {
        law_sizes_add_up(a, b, n - 1);
        assert((a + b)[a.len() + n - 1] == b[n - 1]);
    } else {
        assert((a + b).take(a.len() as int) =~= a);
        lemma_same_size_prefix(a + b, a.len() as int);
    }
}

/// The size of one message: the bytes of its role, and the characters of its
/// text, whether it comes whole or in parts.
pub proof fn law_size_of_one(m: MessageV)
    ensures
        ({
            let size = messages_size(seq![m], 1);
            let role = vstd::utf8::encode_utf8(m.role).len();
            &&& m.content is None ==> size == role
            &&& m.content matches Some(MessageContentV::Text(t)) ==> size == role + t.len()
            &&& m.content matches Some(MessageContentV::Parts(p)) ==> {
                &&& p.len() == 0 ==> size == role
                &&& p.len() == 1 ==> size == role + (match p[0].text {
                    Some(t) => t.len(),
                    None => 0,
                })
            }
        }),
{
    reveal_with_fuel(messages_size, 2);
    reveal_with_fuel(parts_size, 2);
    assert(seq![m][0] == m);
}

proof fn lemma_parts_size_concat(a: Seq<ContentPartV>, b: Seq<ContentPartV>, n: int)
    requires
        0 <= n <= b.len(),
    ensures
        parts_size(a + b, a.len() + n) == parts_size(a, a.len() as int) + parts_size(b, n),
    decreases n,
{
    if n > 0 {
        lemma_parts_size_concat(a, b, n - 1);
        assert((a + b)[a.len() + n - 1] == b[n - 1]);
    } else {
        lemma_parts_size_prefix(a, b, a.len() as int);
    }
}

proof fn lemma_parts_size_prefix(a: Seq<ContentPartV>, b: Seq<ContentPartV>, n: int)
    requires
        0 <= n <= a.len(),
    ensures
        parts_size(a + b, n) == parts_size(a, n),
    decreases n,
{
    if n > 0 {
        lemma_parts_size_prefix(a, b, n - 1);
        assert((a + b)[n - 1] == a[n - 1]);
    }
}

/// The size of a content in parts is the sum of the sizes of its parts.
pub proof fn law_part_sizes_add_up(a: Seq<ContentPartV>, b: Seq<ContentPartV>)
    ensures
        content_size(MessageContentV::Parts(a + b)) == content_size(MessageContentV::Parts(a))
            + content_size(MessageContentV::Parts(b)),
{
    lemma_parts_size_concat(a, b, b.len() as int);
}

proof fn lemma_part_text_listed(p: Seq<ContentPartV>, n: int, k: int) -> (j: int)
    requires
        0 <= k < n <= p.len(),
        p[k].text is Some,
    ensures
        0 <= j < part_texts(p, n).len(),
        part_texts(p, n)[j] == p[k].text->0,
    decreases n,
{
    if k == n - 1 {
        part_texts(p, n - 1).len() as int
    } else {
        lemma_part_text_listed(p, n - 1, k)
    }
}

/// The text of a content holds the text of each of its parts; a text is its own.
pub proof fn law_content_text_holds_parts(c: MessageContentV, k: int)
    ensures
        c matches MessageContentV::Text(t) ==> content_text(c) == t,
        c matches MessageContentV::Parts(p) ==> (0 <= k < p.len() && p[k].text is Some
            ==> text::occurs(content_text(c), p[k].text->0)),
{
    if let MessageContentV::Parts(p) = c {
        if 0 <= k < p.len() && p[k].text is Some {
            let texts = part_texts(p, p.len() as int);
            let j = lemma_part_text_listed(p, p.len() as int, k);
            text::lemma_joined_holds(texts, "\n"@, texts.len() as int, j);
        }
    }
}

proof fn lemma_rendered_prefix(a: Seq<MessageV>, b: Seq<MessageV>, n: int)
    requires
        0 <= n <= a.len(),
    ensures
        rendered(a + b, n) == rendered(a, n),
    decreases n,
{
    if n > 0 {
        lemma_rendered_prefix(a, b, n - 1);
        assert((a + b)[n - 1] == a[n - 1]);
    }
}

/// Messages are shown one after the other to whoever sums them up, none left
/// out.
pub proof fn law_rendering_goes_in_order(a: Seq<MessageV>, b: Seq<MessageV>, n: int)
    requires
        0 <= n <= b.len(),
    ensures
        rendered(a + b, a.len() + n) == rendered(a, a.len() as int) + rendered(b, n),
    decreases n,
{
    if n > 0 {
        law_rendering_goes_in_order(a, b, n - 1);
        assert((a + b)[a.len() + n - 1] == b[n - 1]);
        assert(rendered(a + b, a.len() + n) =~= rendered(a, a.len() as int) + rendered(b, n));
    } else {
        lemma_rendered_prefix(a, b, a.len() as int);
        assert(rendered(a, a.len() as int) + Seq::<char>::empty() =~= rendered(
            a,
            a.len() as int,
        ));
    }
}

/// One message is shown with its role, its text, and a line break at the end.
pub proof fn law_rendering_of_one(m: MessageV, said: Seq<char>)
    requires
        m.content == Some(MessageContentV::Text(said)) || m.content is None && said.len() == 0,
    ensures
        rendered(seq![m], 1) == m.role + ": "@ + said + "\n"@,
{
    reveal_with_fuel(rendered, 2);
    assert(seq![m][0] == m);
    assert(rendered(seq![m], 1) =~= m.role + ": "@ + said + "\n"@);
}

proof fn lemma_bytes_of_one_differ(a: MessageV, b: MessageV)
    requires
        message_bytes(a) == message_bytes(b),
        a.role == b.role,
        a.content is Some,
        b.content is Some,
    ensures
        content_text(a.content->0) == content_text(b.content->0),
{
    let role = vstd::utf8::encode_utf8(a.role);
    let x = vstd::utf8::encode_utf8(content_text(a.content->0));
    let y = vstd::utf8::encode_utf8(content_text(b.content->0));
    let p = message_bytes(a);
    assert(p.len() == role.len() + 1 + x.len() + 1);
    assert(message_bytes(b).len() == role.len() + 1 + y.len() + 1);
    assert(x =~= p.subrange(role.len() as int + 1, role.len() as int + 1 + x.len()));
    assert(y =~= message_bytes(b).subrange(role.len() as int + 1, role.len() as int + 1 + y.len()));
    vstd::utf8::encode_utf8_decode_utf8(content_text(a.content->0));
    vstd::utf8::encode_utf8_decode_utf8(content_text(b.content->0));
}

/// What goes into a digest tells texts apart: where one message of a
/// conversation says something else, the bytes are others.
pub proof fn law_digested_bytes_tell_texts_apart(ms: Seq<MessageV>, k: int, m: MessageV, n: int)
    requires
        0 <= k < n <= ms.len(),
        m.role == ms[k].role,
        m.content is Some,
        ms[k].content is Some,
        content_text(m.content->0) != content_text(ms[k].content->0),
    ensures
        messages_bytes(ms, n) != messages_bytes(ms.update(k, m), n),
{
    let other = ms.update(k, m);
    if messages_bytes(ms, n) == messages_bytes(other, n) {
        let tail = lemma_same_tail(ms, other, k, n);
        lemma_same_head(ms, other, k);
        let head = messages_bytes(ms, k);
        let a = message_bytes(ms[k]);
        let b = message_bytes(m);
        assert(messages_bytes(ms, k + 1) == head + a);
        assert(messages_bytes(other, k + 1) == head + b);
        let x = messages_bytes(ms, n);
        let y = messages_bytes(other, n);
        assert(x == head + a + tail);
        assert(y == head + b + tail);
        assert(x.len() == head.len() + a.len() + tail.len());
        assert(y.len() == head.len() + b.len() + tail.len());
        assert(a =~= x.subrange(head.len() as int, head.len() as int + a.len()));
        assert(b =~= y.subrange(head.len() as int, head.len() as int + b.len()));
        lemma_bytes_of_one_differ(ms[k], m);
    }
}

proof fn lemma_same_head(a: Seq<MessageV>, b: Seq<MessageV>, k: int)
    requires
        0 <= k <= a.len(),
        a.len() == b.len(),
        forall|i: int| 0 <= i < k ==> a[i] == b[i],
    ensures
        messages_bytes(a, k) == messages_bytes(b, k),
    decreases k,
{
    if k > 0 {
        lemma_same_head(a, b, k - 1);
    }
}

proof fn lemma_same_tail(a: Seq<MessageV>, b: Seq<MessageV>, k: int, n: int) -> (tail: Seq<u8>)
    requires
        0 <= k < n <= a.len(),
        a.len() == b.len(),
        forall|i: int| k < i < n ==> a[i] == b[i],
    ensures
        messages_bytes(a, n) == messages_bytes(a, k + 1) + tail,
        messages_bytes(b, n) == messages_bytes(b, k + 1) + tail,
    decreases n,
{
    if n == k + 1 {
        let none = Seq::<u8>::empty();
        assert(messages_bytes(a, n) + none =~= messages_bytes(a, n));
        assert(messages_bytes(b, n) + none =~= messages_bytes(b, n));
        none
    } else {
        let before = lemma_same_tail(a, b, k, n - 1);
        let tail = before + message_bytes(a[n - 1]);
        assert(messages_bytes(a, n) =~= messages_bytes(a, k + 1) + tail);
        assert(messages_bytes(b, n) =~= messages_bytes(b, k + 1) + tail);
        tail
    }
}

/// The key of a conversation: its own key where it has one, else the first name
/// that its metadata hold, else a digest that hangs on its model, its user and
/// its first messages.
pub proof fn law_key_by_the_best_name(
    req: ChatCompletionsRequest,
    systems: Seq<MessageV>,
    others: Seq<MessageV>,
)
    ensures
        ({
            let key = key_of(req, systems, others);
            let named = |k: Seq<char>| req.metadata is Some && req.metadata->0.member(k) is Some;
            let text_of = |k: Seq<char>| req.metadata->0.string_member(k);
            &&& req.prompt_cache_key matches Some(k) ==> (k@.len() > 0 ==> key
                == "prompt_cache:"@ + k@)
            &&& (req.prompt_cache_key is None || req.prompt_cache_key->0@.len() == 0) ==> {
                &&& named("conversation_id"@) ==> (text_of("conversation_id"@) matches Some(t)
                    ==> (t.len() > 0 ==> key == "metadata:"@ + t))
                &&& !named("conversation_id"@) && named("thread_id"@) ==> (text_of(
                    "thread_id"@,
                ) matches Some(t) ==> (t.len() > 0 ==> key == "metadata:"@ + t))
                &&& !named("conversation_id"@) && !named("thread_id"@) && named("chat_id"@) ==> (
                text_of("chat_id"@) matches Some(t) ==> (t.len() > 0 ==> key == "metadata:"@ + t))
                &&& !named("conversation_id"@) && !named("thread_id"@) && !named("chat_id"@)
                    && named("id"@) ==> (text_of("id"@) matches Some(t) ==> (t.len() > 0 ==> key
                    == "metadata:"@ + t))
                &&& !named("conversation_id"@) && !named("thread_id"@) && !named("chat_id"@)
                    && !named("id"@) ==> key == "implicit:"@ + digest_text(
                    implicit_bytes(
                        req.model@,
                        req.user.deep_view(),
                        systems,
                        if others.len() > 2 {
                            others.subrange(0, 2)
                        } else {
                            others
                        },
                    ),
                )
            }
        }),
{
    if others.len() > 2 {
        assert(first_two(others) =~= others.subrange(0, 2));
    }
}

/// What tells conversations without a name apart holds the model and the user
/// first, and then what is digested of the messages of the system and of the
/// first two others.
pub proof fn law_implicit_bytes_hold_all(
    model: Seq<char>,
    user: Option<Seq<char>>,
    systems: Seq<MessageV>,
    first: Seq<MessageV>,
)
    ensures
        ({
            let m = vstd::utf8::encode_utf8(model);
            let told = messages_bytes(systems, systems.len() as int) + messages_bytes(
                first,
                first.len() as int,
            );
            let b = implicit_bytes(model, user, systems, first);
            &&& user is None || user->0.len() == 0 ==> b == m + told
            &&& user matches Some(u) ==> (u.len() > 0 ==> b == m + vstd::utf8::encode_utf8(u)
                + seq![0xfeu8] + told)
        }),
{
    let m = vstd::utf8::encode_utf8(model);
    let s = messages_bytes(systems, systems.len() as int);
    let f = messages_bytes(first, first.len() as int);
    let b = implicit_bytes(model, user, systems, first);
    if user is None || user->0.len() == 0 {
        assert(b =~= m + (s + f));
    } else {
        assert(b =~= m + vstd::utf8::encode_utf8(user->0) + seq![0xfeu8] + (s + f));
    }
}

/// A text that fits stays as it is; of another, as many characters as fit are
/// kept, and a mark follows them.
pub proof fn law_truncation_keeps_the_head(s: Seq<char>, max: int)
    requires
        0 <= max,
    ensures
        s.len() <= max ==> truncated(s, max) == s,
        s.len() > max ==> truncated(s, max) == s.take(max) + "\n[truncated]"@,
{
}

/// The message that stands for old ones is of the system and ends with their
/// summary, cut where it is too long.
pub proof fn law_summary_message_tells_the_summary(summary: Seq<char>, max: int)
    requires
        0 <= max,
    ensures
        ({
            let m = summary_of(summary, max);
            let told = if summary.len() <= max {
                summary
            } else {
                summary.take(max) + "\n[truncated]"@
            };
            &&& m.role == "system"@
            &&& m.content matches Some(MessageContentV::Text(t)) && t
                == "Tom tat ngu canh truoc do (da nen de tang toc):\n"@ + told
            &&& m.name is None && m.tool_call_id is None && m.tool_calls is None
                && m.function_call is None && m.refusal is None && m.audio is None
        }),
{
}

/// The hexadecimal text of any 32 bytes is a digest, and a digest holds nothing
/// but 64 hexadecimal digits.
pub proof fn law_digests_are_hexadecimal(bytes: Seq<u8>, s: Seq<char>, i: int)
    requires
        bytes.len() == 32,
        0 <= i < s.len(),
    ensures
        is_digest(encoding::hex_of(bytes, 32)),
        is_digest(s) ==> s.len() == 64 && encoding::is_hex_digit(s[i]),
{
    encoding::law_hex_length(bytes, 32);
    encoding::law_hex_is_hex(bytes, 32);
}

} // verus!
