//! From answers of the OpenAI form to those of the Anthropic form.

use vstd::prelude::*;

use crate::text;

verus! {

/// Why an answer ended, in the words of this side.
pub open spec fn stop_reason_of(reason: Seq<char>) -> Seq<char> {
    if reason == "stop"@ {
        "end_turn"@
    } else if reason == "tool_calls"@ {
        "tool_use"@
    } else {
        reason
    }
}

/// Why an answer ended, in the words of this side.
pub fn finish_reason_map(reason: &str) -> (r: String)
    ensures
        r@ == stop_reason_of(reason@),
{
    if text::same(reason, "stop") {
        "end_turn".to_owned()
    } else if text::same(reason, "tool_calls") {
        "tool_use".to_owned()
    } else {
        reason.to_owned()
    }
}

/// The id of an answer or of a tool call on this side.
pub open spec fn mapped_id(id: Seq<char>) -> Seq<char> {
    if text::stands_at(id, "chatcmpl-"@, 0) {
        "msg_"@ + id.subrange("chatcmpl-"@.len() as int, id.len() as int)
    } else if text::stands_at(id, "call_"@, 0) {
        "toolu_"@ + id.subrange("call_"@.len() as int, id.len() as int)
    } else {
        "msg_"@ + id
    }
}

/// The id of an answer or of a tool call on this side.
pub fn map_id(openai_id: &str) -> (r: String)
    ensures
        r@ == mapped_id(openai_id@),
{
    if let Some(rest) = text::strip_prefix(openai_id, "chatcmpl-") {
        return text::cat2("msg_", rest.as_str());
    }
    if let Some(rest) = text::strip_prefix(openai_id, "call_") {
        return text::cat2("toolu_", rest.as_str());
    }
    text::cat2("msg_", openai_id)
}

/// The two reasons that have other words on this side get them; every other reason
/// is passed on as it is.
pub proof fn law_reasons_have_their_words(reason: Seq<char>)
    ensures
        stop_reason_of("stop"@) == "end_turn"@,
        stop_reason_of("tool_calls"@) == "tool_use"@,
        reason != "stop"@ && reason != "tool_calls"@ ==> stop_reason_of(reason) == reason,
{
    reveal_strlit("stop");
    reveal_strlit("tool_calls");
    assert("stop"@.len() != "tool_calls"@.len());
}

/// Only the beginning of an id changes: what follows it is kept, so that
/// different ids of one kind stay different.
pub proof fn law_ids_keep_their_rest(rest: Seq<char>)
    ensures
        mapped_id("chatcmpl-"@ + rest) == "msg_"@ + rest,
        mapped_id("call_"@ + rest) == "toolu_"@ + rest,
        !text::stands_at(rest, "chatcmpl-"@, 0) && !text::stands_at(rest, "call_"@, 0)
            ==> mapped_id(rest) == "msg_"@ + rest,
{
    reveal_strlit("chatcmpl-");
    reveal_strlit("call_");
    let a = "chatcmpl-"@ + rest;
    let b = "call_"@ + rest;
    assert(a.subrange(0, 9) =~= "chatcmpl-"@);
    assert(a.subrange(9, a.len() as int) =~= rest);
    assert(b.subrange(0, 5) =~= "call_"@);
    assert(b.subrange(5, b.len() as int) =~= rest);
    if text::stands_at(b, "chatcmpl-"@, 0) {
        assert(b.subrange(0, 9)[1] == b[1]);
        assert("chatcmpl-"@[1] == 'h' && "call_"@[1] == 'a');
    }
}

} // verus!
