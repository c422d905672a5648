//! Checking a request and settling its optional parameters.

use vstd::prelude::*;

use crate::copies::Duplicate;
use crate::openai_adapter::types::{ChatCompletionsRequest, Message, StopSequence};
use crate::text;

verus! {

/// The settled parameters of a request.
#[derive(Debug)]
pub struct NormalizedParams {
    pub include_usage: bool,
    pub include_obfuscation: bool,
    pub stop: Vec<String>,
}

/// What is wrong with the message at position `i`.
pub open spec fn message_error(msg: Message, i: int) -> Option<Seq<char>> {
    let place = "messages["@ + text::decimal(i as nat);
    if msg.role@ == "tool"@ && msg.tool_call_id is None {
        Some(place + "] có role 'tool' thì phải cung cấp 'tool_call_id'"@)
    } else if msg.role@ == "function"@ && msg.name is None {
        Some(place + "] có role 'function' thì phải cung cấp 'name'"@)
    } else {
        None
    }
}

/// The first thing that is wrong with the messages from position `i` on.
pub open spec fn messages_error(messages: Seq<Message>, i: int) -> Option<Seq<char>>
    decreases messages.len() - i,
{
    if i < 0 || i >= messages.len() {
        None
    } else {
        match message_error(messages[i], i) {
            Some(e) => Some(e),
            None => messages_error(messages, i + 1),
        }
    }
}

/// What is wrong with a request: no model, no messages, a tool's result that
/// names no call, a function's result that names no function.
pub open spec fn request_error(req: ChatCompletionsRequest) -> Option<Seq<char>> {
    if text::trimmed(req.model@).len() == 0 {
        Some("Thiếu trường bắt buộc 'model'"@)
    } else if req.messages@.len() == 0 {
        Some("Thiếu trường bắt buộc 'messages'"@)
    } else {
        messages_error(req.messages@, 0)
    }
}

/// The texts at which the answer to a request stops.
pub open spec fn stop_texts(req: ChatCompletionsRequest) -> Seq<Seq<char>> {
    match req.stop {
        Some(StopSequence::Single(s)) => seq![s@],
        Some(StopSequence::Multiple(v)) => text::strs(v@),
        None => Seq::empty(),
    }
}

fn check_message(msg: &Message, i: usize) -> (r: Result<(), String>)
    ensures
        match r {
            Ok(_) => message_error(*msg, i as int) is None,
            Err(e) => message_error(*msg, i as int) == Some(e@),
        },
{
    let number = text::decimal_of(i as u64);
    if text::same(msg.role.as_str(), "tool") && msg.tool_call_id.is_none() {
        return Err(
            text::cat3(
                "messages[",
                number.as_str(),
                "] có role 'tool' thì phải cung cấp 'tool_call_id'",
            ),
        );
    }
    if text::same(msg.role.as_str(), "function") && msg.name.is_none() {
        return Err(
            text::cat3(
                "messages[",
                number.as_str(),
                "] có role 'function' thì phải cung cấp 'name'",
            ),
        );
    }
    Ok(())
}

/// Checks a request and settles its optional parameters: usage is reported
/// only where asked for, padding comes unless declined.
pub fn apply(req: &ChatCompletionsRequest) -> (r: Result<NormalizedParams, String>)
    ensures
        match r {
            Ok(p) => {
                &&& request_error(*req) is None
                &&& p.include_usage == (req.stream_options matches Some(o) && o.include_usage)
                &&& p.include_obfuscation == (req.stream_options matches Some(o)
                    ==> o.include_obfuscation)
                &&& text::strs(p.stop@) == stop_texts(*req)
            },
            Err(e) => request_error(*req) == Some(e@),
        },
{
    let model = text::trim(req.model.as_str());
    if model.as_str().is_empty() {
        return Err("Thiếu trường bắt buộc 'model'".to_owned());
    }
    if req.messages.len() == 0 {
        return Err("Thiếu trường bắt buộc 'messages'".to_owned());
    }
    let mut i: usize = 0;
    while i < req.messages.len()
        invariant
            i <= req.messages@.len(),
            messages_error(req.messages@, 0) == messages_error(req.messages@, i as int),
            request_error(*req) == messages_error(req.messages@, 0),
        decreases req.messages@.len() - i,
    {
        if let Err(e) = check_message(&req.messages[i], i) {
            return Err(e);
        }
        i += 1;
    }
    let include_usage = match &req.stream_options {
        Some(o) => o.include_usage,
        None => false,
    };
    let include_obfuscation = match &req.stream_options {
        Some(o) => o.include_obfuscation,
        None => true,
    };
    let mut stop: Vec<String> = Vec::new();
    assert(text::strs(stop@) =~= Seq::empty());
    match &req.stop {
        Some(StopSequence::Single(s)) => {
            text::add_line(&mut stop, s.as_str());
        },
        Some(StopSequence::Multiple(v)) => {
            stop = v.duplicate();
            assert(text::strs(stop@) =~= stop.deep_view());
            assert(text::strs(v@) =~= v.deep_view());
        },
        None => {},
    }
    Ok(NormalizedParams { include_usage, include_obfuscation, stop })
}

/// A request is in order exactly where it names a model and has messages, every
/// result of a tool names its call, and every result of a function names the
/// function.
pub proof fn law_request_in_order(req: ChatCompletionsRequest)
    ensures
        request_error(req) is None <==> {
            &&& text::trimmed(req.model@).len() > 0
            &&& req.messages@.len() > 0
            &&& forall|i: int|
                0 <= i < req.messages@.len() ==> ((#[trigger] req.messages@[i]).role@ == "tool"@
                    ==> req.messages@[i].tool_call_id is Some) && (req.messages@[i].role@
                    == "function"@ ==> req.messages@[i].name is Some)
        },
{
    lemma_messages_in_order(req.messages@, 0);
}

proof fn lemma_messages_in_order(messages: Seq<Message>, i: int)
    requires
        0 <= i,
    ensures
        messages_error(messages, i) is None <==> forall|k: int|
            i <= k < messages.len() ==> ((#[trigger] messages[k]).role@ == "tool"@
                ==> messages[k].tool_call_id is Some) && (messages[k].role@ == "function"@
                ==> messages[k].name is Some),
    decreases messages.len() - i,
{
    assert("tool"@ != "function"@) by {
        reveal_strlit("tool");
        reveal_strlit("function");
        assert("tool"@.len() != "function"@.len());
    }
    if i < messages.len() {
        lemma_messages_in_order(messages, i + 1);
        if forall|k: int|
            i <= k < messages.len() ==> ((#[trigger] messages[k]).role@ == "tool"@
                ==> messages[k].tool_call_id is Some) && (messages[k].role@ == "function"@
                ==> messages[k].name is Some) {
            assert(message_error(messages[i], i) is None) by {
                assert(messages[i].role@ == "tool"@ ==> messages[i].tool_call_id is Some);
            }
        }
    }
}

/// The first message that is out of order is the one that is complained of, by
/// its number.
pub proof fn law_first_bad_message_is_named(messages: Seq<Message>, i: int, k: int)
    requires
        0 <= i <= k < messages.len(),
        message_error(messages[k], k) is Some,
        forall|j: int| i <= j < k ==> message_error(#[trigger] messages[j], j) is None,
    ensures
        messages_error(messages, i) == message_error(messages[k], k),
        text::stands_at(
            messages_error(messages, i)->0,
            "messages["@ + text::decimal(k as nat) + "]"@,
            0,
        ),
    decreases k - i,
{
    if i < k {
        assert(message_error(messages[i], i) is None);
        law_first_bad_message_is_named(messages, i + 1, k);
    } else {
        let e = message_error(messages[k], k)->0;
        let place = "messages["@ + text::decimal(k as nat) + "]"@;
        reveal_strlit("]");
        reveal_strlit("] có role 'tool' thì phải cung cấp 'tool_call_id'");
        reveal_strlit("] có role 'function' thì phải cung cấp 'name'");
        assert(e.subrange(0, place.len() as int) =~= place);
    }
}

/// The stop texts are those that the request gives, one or several, in order.
pub proof fn law_stop_texts_are_taken_over(req: ChatCompletionsRequest)
    ensures
        req.stop is None ==> stop_texts(req).len() == 0,
        req.stop matches Some(StopSequence::Single(s)) ==> stop_texts(req).len() == 1 && stop_texts(
            req,
        )[0] == s@,
        req.stop matches Some(StopSequence::Multiple(v)) ==> stop_texts(req).len() == v@.len()
            && forall|i: int| 0 <= i < v@.len() ==> #[trigger] stop_texts(req)[i] == v@[i]@,
{
}

} // verus!
