//! The prompt of a conversation, with the back end's role tags.
//!
//! The roles are tagged `<｜System｜>`, `<｜User｜>`, `<｜Assistant｜>`; the results
//! of tools stand between `<｜tool▁outputs▁begin｜>` and `<｜tool▁outputs▁end｜>`.
//! What the model must keep in mind about tools and formats is told to the
//! system and repeated in an open `<think>` block after the last
//! `<｜Assistant｜>`.

use vstd::prelude::*;

use crate::copies;
use crate::copies::Duplicate;
use crate::json;
use crate::openai_adapter::request::tools::{ToolContext, ToolContextV};
use crate::openai_adapter::response::{TOOL_CALL_END, TOOL_CALL_START};
use crate::openai_adapter::types::{
    ChatCompletionsRequest, ContentPart, ContentPartV, FunctionCall, FunctionCallV, Message,
    MessageContent, MessageContentV, MessageV, ResponseFormat, ToolCall, ToolCallV,
};
use crate::text;

verus! {

/// The value of an optional text, or another where it is missing.
pub open spec fn or_else(o: Option<Seq<char>>, other: Seq<char>) -> Seq<char> {
    match o {
        Some(t) => t,
        None => other,
    }
}

/// The text of an optional string, or another where it is missing.
fn text_or(o: &Option<String>, other: &str) -> (r: String)
    ensures
        r@ == or_else(o.deep_view(), other@),
{
    match o {
        Some(t) => t.clone(),
        None => other.to_owned(),
    }
}

/// One part of a message as text.
pub open spec fn part_text(part: ContentPartV) -> Seq<char> {
    if part.ty == "text"@ {
        or_else(part.text, ""@)
    } else if part.ty == "refusal"@ {
        or_else(part.refusal, ""@)
    } else if part.ty == "image_url"@ {
        match part.image_url {
            Some(img) => if text::stands_at(img.url, "http://"@, 0) || text::stands_at(
                img.url,
                "https://"@,
                0,
            ) {
                "[Hãy truy cập liên kết này: "@ + img.url + "]"@
            } else {
                "[Ảnh: detail="@ + or_else(img.detail, "auto"@) + "]"@
            },
            None => "[Ảnh]"@,
        }
    } else if part.ty == "input_audio"@ {
        let format = match part.input_audio {
            Some(a) => a.format,
            None => "unknown"@,
        };
        "[Âm thanh: format="@ + format + "]"@
    } else if part.ty == "file"@ {
        let filename = match part.file {
            Some(f) => or_else(f.filename, "unknown"@),
            None => "unknown"@,
        };
        match part.text {
            Some(d) => if d.len() > 0 {
                "[Tệp: "@ + d + " (filename="@ + filename + ")]"@
            } else {
                "[Tệp: filename="@ + filename + "]"@
            },
            None => "[Tệp: filename="@ + filename + "]"@,
        }
    } else {
        "[Loại nội dung chưa được hỗ trợ: "@ + part.ty + "]"@
    }
}

/// One part of a message as text.
pub fn format_part(part: &ContentPart) -> (r: String)
    ensures
        r@ == part_text(part.deep_view()),
{
    let ty = part.ty.as_str();
    if text::same(ty, "text") {
        text_or(&part.text, "")
    } else if text::same(ty, "refusal") {
        text_or(&part.refusal, "")
    } else if text::same(ty, "image_url") {
        match &part.image_url {
            Some(img) => {
                if text::starts_with(img.url.as_str(), "http://") || text::starts_with(
                    img.url.as_str(),
                    "https://",
                ) {
                    text::cat3("[Hãy truy cập liên kết này: ", img.url.as_str(), "]")
                } else {
                    let detail = text_or(&img.detail, "auto");
                    text::cat3("[Ảnh: detail=", detail.as_str(), "]")
                }
            },
            None => "[Ảnh]".to_owned(),
        }
    } else if text::same(ty, "input_audio") {
        match &part.input_audio {
            Some(a) => text::cat3("[Âm thanh: format=", a.format.as_str(), "]"),
            None => text::cat3("[Âm thanh: format=", "unknown", "]"),
        }
    } else if text::same(ty, "file") {
        let filename = match &part.file {
            Some(f) => text_or(&f.filename, "unknown"),
            None => "unknown".to_owned(),
        };
        if let Some(d) = &part.text {
            if !d.as_str().is_empty() {
                return text::cat5(
                    "[Tệp: ",
                    d.as_str(),
                    " (filename=",
                    filename.as_str(),
                    ")]",
                );
            }
        }
        text::cat3("[Tệp: filename=", filename.as_str(), "]")
    } else {
        text::cat3("[Loại nội dung chưa được hỗ trợ: ", ty, "]")
    }
}

/// The texts of some parts.
pub open spec fn part_texts(parts: Seq<ContentPartV>) -> Seq<Seq<char>> {
    Seq::new(parts.len(), |i: int| part_text(parts[i]))
}

/// The content of a message as text.
pub open spec fn content_text(content: MessageContentV) -> Seq<char> {
    match content {
        MessageContentV::Text(t) => t,
        MessageContentV::Parts(parts) => text::joined(
            part_texts(parts),
            "\n"@,
            parts.len() as int,
        ),
    }
}

/// The content of a message as text.
pub fn format_content(content: &MessageContent) -> (r: String)
    ensures
        r@ == content_text(content.deep_view()),
{
    match content {
        MessageContent::Text(t) => t.clone(),
        MessageContent::Parts(parts) => {
            let mut lines: Vec<String> = Vec::new();
            let mut i: usize = 0;
            while i < parts.len()
                invariant
                    i <= parts@.len(),
                    lines@.len() == i,
                    text::strs(lines@) =~= part_texts(parts.deep_view()).take(i as int),
                decreases parts@.len() - i,
            {
                text::add_line(&mut lines, format_part(&parts[i]).as_str());
                i += 1;
            }
            assert(text::strs(lines@) =~= part_texts(parts.deep_view()));
            text::join(&lines, "\n")
        },
    }
}

/// Two contents as one: texts and lists of parts are joined in kind, unlike
/// ones as text.
pub open spec fn merged_content(a: MessageContentV, b: MessageContentV) -> MessageContentV {
    match (a, b) {
        (MessageContentV::Text(x), MessageContentV::Text(y)) => MessageContentV::Text(
            x.push('\n') + y,
        ),
        (MessageContentV::Parts(x), MessageContentV::Parts(y)) => MessageContentV::Parts(x + y),
        _ => MessageContentV::Text(content_text(a) + "\n"@ + content_text(b)),
    }
}

fn merge_content(a: MessageContent, b: &MessageContent) -> (r: MessageContent)
    ensures
        r.deep_view() == merged_content(a.deep_view(), b.deep_view()),
{
    let last = format_content(&a);
    let new = format_content(b);
    match (a, b) {
        (MessageContent::Text(x), MessageContent::Text(y)) => {
            let mut x = x;
            x.push('\n');
            x.append(y.as_str());
            MessageContent::Text(x)
        },
        (MessageContent::Parts(x), MessageContent::Parts(y)) => {
            let mut x = x;
            copies::extend_copies(&mut x, y);
            MessageContent::Parts(x)
        },
        _ => MessageContent::Text(text::cat3(last.as_str(), "\n", new.as_str())),
    }
}

/// The later of two optional values.
pub open spec fn latest<T>(old_value: Option<T>, new_value: Option<T>) -> Option<T> {
    if new_value is Some {
        new_value
    } else {
        old_value
    }
}

/// Two messages of one role as one.
pub open spec fn merged_message(last: MessageV, msg: MessageV) -> MessageV {
    MessageV {
        role: last.role,
        content: match (last.content, msg.content) {
            (Some(a), Some(b)) => Some(merged_content(a, b)),
            (a, b) => latest(a, b),
        },
        tool_calls: match (last.tool_calls, msg.tool_calls) {
            (Some(a), Some(b)) => Some(a + b),
            (a, b) => latest(a, b),
        },
        name: latest(last.name, msg.name),
        tool_call_id: latest(last.tool_call_id, msg.tool_call_id),
        function_call: latest(last.function_call, msg.function_call),
        refusal: latest(last.refusal, msg.refusal),
        audio: latest(last.audio, msg.audio),
    }
}

fn keep_latest<T: Duplicate>(old_value: Option<T>, new_value: &Option<T>) -> (r: Option<T>)
    ensures
        r.deep_view() == latest(old_value.deep_view(), new_value.deep_view()),
{
    match new_value {
        Some(v) => Some(v.duplicate()),
        None => old_value,
    }
}

fn merge_message(last: Message, msg: &Message) -> (r: Message)
    ensures
        r.deep_view() == merged_message(last.deep_view(), msg.deep_view()),
{
    let content = match (last.content, &msg.content) {
        (Some(a), Some(b)) => Some(merge_content(a, b)),
        (a, b) => keep_latest(a, b),
    };
    let tool_calls = match (last.tool_calls, &msg.tool_calls) {
        (Some(a), Some(b)) => {
            let mut a = a;
            copies::extend_copies(&mut a, b);
            Some(a)
        },
        (a, b) => keep_latest(a, b),
    };
    Message {
        role: last.role,
        content,
        name: keep_latest(last.name, &msg.name),
        tool_call_id: keep_latest(last.tool_call_id, &msg.tool_call_id),
        tool_calls,
        function_call: keep_latest(last.function_call, &msg.function_call),
        refusal: keep_latest(last.refusal, &msg.refusal),
        audio: keep_latest(last.audio, &msg.audio),
    }
}

/// The first `n` messages with neighbours of one role made one. The results of
/// tools stay apart.
pub open spec fn merged(messages: Seq<MessageV>, n: int) -> Seq<MessageV>
    decreases n,
{
    if n <= 0 {
        Seq::empty()
    } else {
        let before = merged(messages, n - 1);
        let msg = messages[n - 1];
        if before.len() > 0 && before.last().role == msg.role && msg.role != "tool"@ {
            before.drop_last().push(merged_message(before.last(), msg))
        } else {
            before.push(msg)
        }
    }
}

/// The messages with neighbours of one role made one.
pub fn merge_messages(messages: &Vec<Message>) -> (r: Vec<Message>)
    ensures
        r.deep_view() == merged(messages.deep_view(), messages@.len() as int),
{
    let mut out: Vec<Message> = Vec::new();
    let mut i: usize = 0;
    assert(out.deep_view() =~= Seq::empty());
    while i < messages.len()
        invariant
            i <= messages@.len(),
            out.deep_view() == merged(messages.deep_view(), i as int),
        decreases messages@.len() - i,
    {
        let ghost before = out.deep_view();
        let msg = &messages[i];
        assert(msg.deep_view() == messages.deep_view()[i as int]);
        let n: usize = out.len();
        if n > 0 && text::same(out[n - 1].role.as_str(), msg.role.as_str()) && !text::same(
            msg.role.as_str(),
            "tool",
        ) {
            assert(before.last() == out@[n - 1].deep_view());
            if let Some(last) = out.pop() {
                let one = merge_message(last, msg);
                out.push(one);
                assert(out.deep_view() =~= before.drop_last().push(one.deep_view()));
            }
        } else {
            assert(n > 0 ==> before.last() == out@[n - 1].deep_view());
            let copy = msg.duplicate();
            out.push(copy);
            assert(out.deep_view() =~= before.push(copy.deep_view()));
        }
        i += 1;
    }
    out
}

/// A role with its first letter as an ASCII capital.
pub open spec fn capitalized(role: Seq<char>) -> Seq<char> {
    if role.len() > 0 && 97 <= role[0] as int <= 122 {
        role.update(0, (role[0] as int - 32) as char)
    } else {
        role
    }
}

/// The tag of a role.
pub open spec fn tag_text(role: Seq<char>) -> Seq<char> {
    "<｜"@ + capitalized(role) + "｜>"@
}

fn capitalize(role: &str) -> (r: String)
    ensures
        r@ == capitalized(role@),
{
    let mut v = text::chars_of(role);
    if v.len() > 0 {
        let c: u32 = text::code_of(v[0]);
        if 97 <= c && c <= 122 {
            let upper: u8 = (c - 32) as u8;
            v.set(0, upper as char);
        }
    }
    let n: usize = v.len();
    let r = text::text_of(&v, 0, n);
    assert(r@ =~= v@);
    assert(v@ =~= capitalized(role@));
    r
}

/// The tag of a role.
pub fn role_tag(role: &str) -> (r: String)
    ensures
        r@ == tag_text(role@),
{
    text::cat3("<｜", capitalize(role).as_str(), "｜>")
}

/// The JSON text of a call's arguments: printed again where they are JSON,
/// `null` where not.
pub open spec fn arguments_text(arguments: Seq<char>) -> Seq<char> {
    match json::parsed(arguments) {
        Some(v) => match json::printed(v) {
            Some(t) => t,
            None => "null"@,
        },
        None => "null"@,
    }
}

fn print_arguments(arguments: &str) -> (r: String)
    ensures
        r@ == arguments_text(arguments@),
{
    match json::parse(arguments) {
        Some(v) => match json::print(&v) {
            Some(t) => t,
            None => "null".to_owned(),
        },
        None => "null".to_owned(),
    }
}

/// A call written as JSON, from the JSON of its name and of its arguments.
pub open spec fn call_item(name: Seq<char>, arguments: Seq<char>) -> Seq<char> {
    "{\"name\": "@ + name + ", \"arguments\": "@ + arguments + "}"@
}

/// A call written as JSON, from the JSON of its name and of its arguments.
pub fn write_call(name: &str, arguments: &str) -> (r: String)
    ensures
        r@ == call_item(name@, arguments@),
{
    text::cat5("{\"name\": ", name, ", \"arguments\": ", arguments, "}")
}

/// A call of a function written as JSON.
pub open spec fn function_call_text(func: FunctionCallV) -> Seq<char> {
    call_item(json::quoted(func.name), arguments_text(func.arguments))
}

fn format_call(func: &FunctionCall) -> (r: String)
    ensures
        r@ == function_call_text(func.deep_view()),
{
    let name = json::quote(func.name.as_str());
    let arguments = print_arguments(func.arguments.as_str());
    write_call(name.as_str(), arguments.as_str())
}

/// The function calls among the first `n` tool calls, written as JSON.
pub open spec fn call_items(calls: Seq<ToolCallV>, n: int) -> Seq<Seq<char>>
    decreases n,
{
    if n <= 0 {
        Seq::empty()
    } else {
        match calls[n - 1].function {
            Some(f) => call_items(calls, n - 1).push(function_call_text(f)),
            None => call_items(calls, n - 1),
        }
    }
}

/// A block of written calls.
pub open spec fn calls_block(items: Seq<char>) -> Seq<char> {
    TOOL_CALL_START@ + "\n["@ + items + "]\n"@ + TOOL_CALL_END@
}

fn wrap_items(items: &str) -> (r: String)
    ensures
        r@ == calls_block(items@),
{
    text::cat5(TOOL_CALL_START, "\n[", items, "]\n", TOOL_CALL_END)
}

/// One text, or none, as a sequence.
pub open spec fn optional_line(o: Option<Seq<char>>) -> Seq<Seq<char>> {
    match o {
        Some(t) => Seq::empty().push(t),
        None => Seq::empty(),
    }
}

/// The content of a message as an optional text.
pub open spec fn content_line(msg: MessageV) -> Option<Seq<char>> {
    match msg.content {
        Some(c) => Some(content_text(c)),
        None => None,
    }
}

/// The lines of an assistant's message: what was said, the tools called, the
/// function called, the refusal.
pub open spec fn assistant_lines(msg: MessageV) -> Seq<Seq<char>> {
    let calls = match msg.tool_calls {
        Some(c) => {
            let items = call_items(c, c.len() as int);
            Some(calls_block(text::joined(items, ", "@, items.len() as int)))
        },
        None => None,
    };
    let call = match msg.function_call {
        Some(f) => Some(calls_block(function_call_text(f))),
        None => None,
    };
    let refusal = match msg.refusal {
        Some(t) => Some("(refusal: "@ + t + ")"@),
        None => None,
    };
    optional_line(content_line(msg)) + optional_line(calls) + optional_line(call) + optional_line(
        refusal,
    )
}

/// The lines of a message with a name: the name, then what was said.
pub open spec fn named_lines(msg: MessageV) -> Seq<Seq<char>> {
    let name = match msg.name {
        Some(n) => Some("(name: "@ + n + ")"@),
        None => None,
    };
    optional_line(name) + optional_line(content_line(msg))
}

/// Lines as one text.
pub open spec fn as_lines(lines: Seq<Seq<char>>) -> Seq<char> {
    text::joined(lines, "\n"@, lines.len() as int)
}

/// The result of one tool.
pub open spec fn output_text(content: Seq<char>) -> Seq<char> {
    "<｜tool▁output▁begin｜>"@ + content + "<｜tool▁output▁end｜>"@
}

/// A block with the results of tools.
pub open spec fn outputs_block(inner: Seq<char>) -> Seq<char> {
    "<｜tool▁outputs▁begin｜>"@ + inner + "<｜tool▁outputs▁end｜>"@
}

/// A message as it stands in the prompt.
pub open spec fn message_text(msg: MessageV) -> Seq<char> {
    if msg.role == "assistant"@ {
        ""@ + tag_text(msg.role) + as_lines(assistant_lines(msg))
    } else if msg.role == "tool"@ {
        ""@ + ""@ + outputs_block(output_text(or_else(content_line(msg), ""@)))
    } else if msg.role == "user"@ {
        "<｜end▁of▁sentence｜>"@ + tag_text(msg.role) + as_lines(named_lines(msg))
    } else {
        ""@ + tag_text(msg.role) + as_lines(named_lines(msg))
    }
}

/// Adds a line where there is one.
fn add_content(lines: &mut Vec<String>, msg: &Message)
    ensures
        text::strs(final(lines)@) == text::strs(old(lines)@) + optional_line(
            content_line(msg.deep_view()),
        ),
{
    let ghost before = text::strs(lines@);
    if let Some(c) = &msg.content {
        text::add_line(lines, format_content(c).as_str());
    }
    assert(text::strs(lines@) =~= before + optional_line(content_line(msg.deep_view())));
}

fn format_generic(msg: &Message) -> (r: String)
    ensures
        r@ == as_lines(named_lines(msg.deep_view())),
{
    let mut lines: Vec<String> = Vec::new();
    if let Some(name) = &msg.name {
        text::add_line(&mut lines, text::cat3("(name: ", name.as_str(), ")").as_str());
    }
    add_content(&mut lines, msg);
    assert(text::strs(lines@) =~= named_lines(msg.deep_view()));
    text::join(&lines, "\n")
}

fn format_tool_calls(calls: &Vec<ToolCall>) -> (r: String)
    ensures
        ({
            let items = call_items(calls.deep_view(), calls@.len() as int);
            r@ == calls_block(text::joined(items, ", "@, items.len() as int))
        }),
{
    let mut items: Vec<String> = Vec::new();
    let mut i: usize = 0;
    assert(text::strs(items@) =~= Seq::empty());
    while i < calls.len()
        invariant
            i <= calls@.len(),
            text::strs(items@) == call_items(calls.deep_view(), i as int),
        decreases calls@.len() - i,
    {
        assert(calls.deep_view()[i as int] == calls@[i as int].deep_view());
        if let Some(f) = &calls[i].function {
            text::add_line(&mut items, format_call(f).as_str());
        }
        i += 1;
    }
    wrap_items(text::join(&items, ", ").as_str())
}

fn format_assistant(msg: &Message) -> (r: String)
    ensures
        r@ == as_lines(assistant_lines(msg.deep_view())),
{
    let mut lines: Vec<String> = Vec::new();
    add_content(&mut lines, msg);
    if let Some(calls) = &msg.tool_calls {
        text::add_line(&mut lines, format_tool_calls(calls).as_str());
    }
    if let Some(f) = &msg.function_call {
        text::add_line(&mut lines, wrap_items(format_call(f).as_str()).as_str());
    }
    if let Some(t) = &msg.refusal {
        text::add_line(&mut lines, text::cat3("(refusal: ", t.as_str(), ")").as_str());
    }
    assert(text::strs(lines@) =~= assistant_lines(msg.deep_view()));
    text::join(&lines, "\n")
}

fn format_tool(msg: &Message) -> (r: String)
    ensures
        r@ == outputs_block(output_text(or_else(content_line(msg.deep_view()), ""@))),
{
    let content = match &msg.content {
        Some(c) => format_content(c),
        None => "".to_owned(),
    };
    let output = text::cat3(
        "<｜tool▁output▁begin｜>",
        content.as_str(),
        "<｜tool▁output▁end｜>",
    );
    text::cat3("<｜tool▁outputs▁begin｜>", output.as_str(), "<｜tool▁outputs▁end｜>")
}

/// A message as it stands in the prompt.
pub fn format_message(msg: &Message) -> (r: String)
    ensures
        r@ == message_text(msg.deep_view()),
{
    let role = msg.role.as_str();
    let body = if text::same(role, "assistant") {
        format_assistant(msg)
    } else if text::same(role, "tool") {
        format_tool(msg)
    } else {
        format_generic(msg)
    };
    let tag = if text::same(role, "tool") {
        "".to_owned()
    } else {
        role_tag(role)
    };
    let prefix: &str = if text::same(role, "user") {
        "<｜end▁of▁sentence｜>"
    } else {
        ""
    };
    proof {
        reveal_strlit("assistant");
        reveal_strlit("tool");
        reveal_strlit("user");
        assert("assistant"@.len() != "tool"@.len());
        assert("assistant"@.len() != "user"@.len());
        assert("tool"@[0] != "user"@[0]);
    }
    text::cat3(prefix, tag.as_str(), body.as_str())
}

/// The demand that a response format makes.
pub open spec fn format_text(rf: ResponseFormat) -> Seq<char> {
    if rf.ty@ == "json_object"@ {
        "Hãy xuất trực tiếp một đối tượng JSON hợp lệ, không kèm code block markdown hoặc văn bản giải thích khác."@
    } else if rf.ty@ == "json_schema"@ {
        schema_text(
            match rf.json_schema {
                Some(s) => or_else(json::printed(s), ""@),
                None => ""@,
            },
        )
    } else if rf.ty@ == "text"@ {
        ""@
    } else {
        "Hãy xuất theo định dạng "@ + rf.ty@ + "."@
    }
}

/// The demand that an answer follow a JSON schema, from the schema's text.
pub open spec fn schema_text(schema: Seq<char>) -> Seq<char> {
    if schema.len() == 0 {
        "Xuất ở dạng JSON."@
    } else {
        "Xuất ở dạng JSON; JSON đầu ra phải tuân theo định dạng sau:\n\n~~~json\n"@ + schema
            + "\n~~~"@
    }
}

/// The demand that an answer follow a JSON schema, from the schema's text.
pub fn describe_schema(schema: &str) -> (r: String)
    ensures
        r@ == schema_text(schema@),
{
    if schema.is_empty() {
        "Xuất ở dạng JSON.".to_owned()
    } else {
        text::cat3(
            "Xuất ở dạng JSON; JSON đầu ra phải tuân theo định dạng sau:\n\n~~~json\n",
            schema,
            "\n~~~",
        )
    }
}

/// The demand that a response format makes.
pub fn format_response_text(rf: &ResponseFormat) -> (r: String)
    ensures
        r@ == format_text(*rf),
{
    let ty = rf.ty.as_str();
    if text::same(ty, "json_object") {
        "Hãy xuất trực tiếp một đối tượng JSON hợp lệ, không kèm code block markdown hoặc văn bản giải thích khác.".to_owned()
    } else if text::same(ty, "json_schema") {
        let schema = match &rf.json_schema {
            Some(s) => match json::print(s) {
                Some(t) => t,
                None => "".to_owned(),
            },
            None => "".to_owned(),
        };
        describe_schema(schema.as_str())
    } else if text::same(ty, "text") {
        "".to_owned()
    } else {
        text::cat3("Hãy xuất theo định dạng ", ty, ".")
    }
}

/// The position after the results of tools that begin at `i`.
pub open spec fn tools_end(messages: Seq<MessageV>, i: int) -> int
    decreases messages.len() - i,
{
    if 0 <= i < messages.len() && messages[i].role == "tool"@ {
        tools_end(messages, i + 1)
    } else {
        i
    }
}

/// The results of tools at positions `i` to `end`, one after the other.
pub open spec fn tool_outputs(messages: Seq<MessageV>, i: int, end: int) -> Seq<char>
    decreases end - i,
{
    if end <= i {
        Seq::empty()
    } else {
        match content_line(messages[end - 1]) {
            Some(c) => tool_outputs(messages, i, end - 1) + output_text(c),
            None => tool_outputs(messages, i, end - 1),
        }
    }
}

/// A run of tool results ends within the messages, after at least one of them.
pub proof fn lemma_tools_end(messages: Seq<MessageV>, i: int)
    requires
        0 <= i <= messages.len(),
    ensures
        i <= tools_end(messages, i) <= messages.len(),
        i < messages.len() && messages[i].role == "tool"@ ==> i < tools_end(messages, i),
    decreases messages.len() - i,
{
    if i < messages.len() && messages[i].role == "tool"@ {
        lemma_tools_end(messages, i + 1);
    }
}

/// The messages from position `i` on as parts of the prompt; the results of
/// tools that follow one another form one part.
pub open spec fn turn_parts(messages: Seq<MessageV>, i: int) -> Seq<Seq<char>>
    decreases messages.len() - i,
{
    if i < 0 || i >= messages.len() {
        Seq::empty()
    } else if messages[i].role == "tool"@ {
        proof {
            lemma_tools_end(messages, i);
        }
        let end = tools_end(messages, i);
        Seq::empty().push(outputs_block(tool_outputs(messages, i, end))) + turn_parts(
            messages,
            end,
        )
    } else {
        Seq::empty().push(message_text(messages[i])) + turn_parts(messages, i + 1)
    }
}

fn format_turns(messages: &Vec<Message>) -> (parts: Vec<String>)
    ensures
        text::strs(parts@) == turn_parts(messages.deep_view(), 0),
{
    let mut parts: Vec<String> = Vec::new();
    let ghost all = messages.deep_view();
    let mut i: usize = 0;
    assert(text::strs(parts@) + turn_parts(all, 0) =~= turn_parts(all, 0));
    while i < messages.len()
        invariant
            i <= messages@.len(),
            all == messages.deep_view(),
            text::strs(parts@) + turn_parts(all, i as int) == turn_parts(all, 0),
        decreases messages@.len() - i,
    {
        let ghost before = text::strs(parts@);
        let ghost start = i as int;
        assert(all[i as int] == messages@[i as int].deep_view());
        if text::same(messages[i].role.as_str(), "tool") {
            let mut inner = String::new();
            let ghost end = tools_end(all, start);
            proof {
                lemma_tools_end(all, start);
            }
            while i < messages.len() && text::same(messages[i].role.as_str(), "tool")
                invariant
                    start <= i <= messages@.len(),
                    all == messages.deep_view(),
                    tools_end(all, start) == tools_end(all, i as int),
                    inner@ == tool_outputs(all, start, i as int),
                decreases messages@.len() - i,
            {
                assert(all[i as int] == messages@[i as int].deep_view());
                if let Some(c) = &messages[i].content {
                    let output = text::cat3(
                        "<｜tool▁output▁begin｜>",
                        format_content(c).as_str(),
                        "<｜tool▁output▁end｜>",
                    );
                    inner.append(output.as_str());
                }
                i += 1;
            }
            assert(i < messages@.len() ==> all[i as int] == messages@[i as int].deep_view());
            assert(tools_end(all, i as int) == i);
            let part = text::cat3(
                "<｜tool▁outputs▁begin｜>",
                inner.as_str(),
                "<｜tool▁outputs▁end｜>",
            );
            text::add_line(&mut parts, part.as_str());
            assert(before.push(part@) + turn_parts(all, i as int) =~= before + (Seq::empty().push(
                part@,
            ) + turn_parts(all, i as int)));
        } else {
            let part = format_message(&messages[i]);
            text::add_line(&mut parts, part.as_str());
            i += 1;
            assert(before.push(part@) + turn_parts(all, i as int) =~= before + (Seq::empty().push(
                part@,
            ) + turn_parts(all, i as int)));
        }
    }
    assert(turn_parts(all, i as int) =~= Seq::empty());
    assert(text::strs(parts@) + turn_parts(all, i as int) =~= text::strs(parts@));
    parts
}

/// What is told of the tools: the format of a call, the definitions, and the
/// demands.
pub open spec fn tool_sections(ctx: ToolContextV) -> Seq<Seq<char>> {
    let format = match ctx.format_block {
        Some(t) => Some("### Quy chuẩn định dạng\n"@ + t),
        None => None,
    };
    let defs = match ctx.defs_text {
        Some(t) => Some("### Định nghĩa công cụ\n"@ + t),
        None => None,
    };
    let instruction = match ctx.instruction_text {
        Some(t) => Some("### Chỉ dẫn gọi\n"@ + t),
        None => None,
    };
    optional_line(format) + optional_line(defs) + optional_line(instruction)
}

/// What must be kept in mind: of the tools and of the format of the answer.
pub open spec fn reminders(ctx: ToolContextV, format: Seq<char>) -> Seq<Seq<char>> {
    let sections = tool_sections(ctx);
    let tools = if sections.len() > 0 {
        Some("## Gọi công cụ\n"@ + text::joined(sections, "\n\n"@, sections.len() as int))
    } else {
        None
    };
    let answer = if format.len() > 0 {
        Some("## Định dạng đầu ra\n"@ + format)
    } else {
        None
    };
    optional_line(tools) + optional_line(answer)
}

/// Reminders as one text.
pub open spec fn as_blocks(lines: Seq<Seq<char>>) -> Seq<char> {
    text::joined(lines, "\n\n"@, lines.len() as int)
}

fn collect_reminders(ctx: &ToolContext, format: &str) -> (lines: Vec<String>)
    ensures
        text::strs(lines@) == reminders(ctx@, format@),
{
    let mut sections: Vec<String> = Vec::new();
    if let Some(t) = &ctx.format_block {
        text::add_line(
            &mut sections,
            text::cat2("### Quy chuẩn định dạng\n", t.as_str()).as_str(),
        );
    }
    if let Some(t) = &ctx.defs_text {
        text::add_line(
            &mut sections,
            text::cat2("### Định nghĩa công cụ\n", t.as_str()).as_str(),
        );
    }
    if let Some(t) = &ctx.instruction_text {
        text::add_line(&mut sections, text::cat2("### Chỉ dẫn gọi\n", t.as_str()).as_str());
    }
    assert(text::strs(sections@) =~= tool_sections(ctx@));
    let mut lines: Vec<String> = Vec::new();
    if sections.len() > 0 {
        let all = text::join(&sections, "\n\n");
        text::add_line(&mut lines, text::cat2("## Gọi công cụ\n", all.as_str()).as_str());
    }
    if !format.is_empty() {
        text::add_line(&mut lines, text::cat2("## Định dạng đầu ra\n", format).as_str());
    }
    assert(text::strs(lines@) =~= reminders(ctx@, format@));
    lines
}

/// `s` without the line break at its end, if it ends with one.
pub open spec fn without_break(s: Seq<char>) -> Seq<char> {
    if s.len() > 0 && s.last() == '\n' {
        s.drop_last()
    } else {
        s
    }
}

/// `s` with `inner` at its end, before one line break.
pub open spec fn with_inner(s: Seq<char>, inner: Seq<char>) -> Seq<char> {
    without_break(s) + inner + "\n"@
}

fn insert_inner(s: &str, inner: &str) -> (r: String)
    ensures
        r@ == with_inner(s@, inner@),
{
    let v = text::chars_of(s);
    let n: usize = v.len();
    if n > 0 && v[n - 1] == '\n' {
        let head = text::text_of(&v, 0, n - 1);
        assert(head@ =~= without_break(s@));
        text::cat3(head.as_str(), inner, "\n")
    } else {
        text::cat3(s, inner, "\n")
    }
}

/// The first part from position `i` on that begins with `tag`.
pub open spec fn first_tagged(parts: Seq<Seq<char>>, tag: Seq<char>, i: int) -> Option<int>
    decreases parts.len() - i,
{
    if i < 0 || i >= parts.len() {
        None
    } else if text::stands_at(parts[i], tag, 0) {
        Some(i)
    } else {
        first_tagged(parts, tag, i + 1)
    }
}

fn find_tagged(parts: &Vec<String>, tag: &str) -> (r: Option<usize>)
    ensures
        match r {
            Some(i) => first_tagged(text::strs(parts@), tag@, 0) == Some(i as int) && i
                < parts@.len(),
            None => first_tagged(text::strs(parts@), tag@, 0) is None,
        },
{
    let mut i: usize = 0;
    while i < parts.len()
        invariant
            i <= parts@.len(),
            first_tagged(text::strs(parts@), tag@, 0) == first_tagged(
                text::strs(parts@),
                tag@,
                i as int,
            ),
        decreases parts@.len() - i,
    {
        if text::starts_with(parts[i].as_str(), tag) {
            return Some(i);
        }
        i += 1;
    }
    None
}

/// The parts with a reminder told to the system: in the first system part, or
/// in a new one at the beginning.
pub open spec fn with_system(parts: Seq<Seq<char>>, reminder: Seq<char>) -> Seq<Seq<char>> {
    match first_tagged(parts, "<｜System｜>"@, 0) {
        Some(k) => parts.update(k, with_inner(parts[k], "\n\n"@ + reminder)),
        None => Seq::empty().push("<｜System｜>"@ + ("\n\n"@ + reminder) + "\n"@) + parts,
    }
}

fn tell_system(parts: Vec<String>, reminder: &str) -> (r: Vec<String>)
    ensures
        text::strs(r@) == with_system(text::strs(parts@), reminder@),
{
    let mut parts = parts;
    let ghost before = text::strs(parts@);
    let inner = text::cat2("\n\n", reminder);
    match find_tagged(&parts, "<｜System｜>") {
        Some(k) => {
            let told = insert_inner(parts[k].as_str(), inner.as_str());
            parts.set(k, told);
            assert(text::strs(parts@) =~= before.update(
                k as int,
                with_inner(before[k as int], inner@),
            ));
        },
        None => {
            let told = text::cat3("<｜System｜>", inner.as_str(), "\n");
            parts.insert(0, told);
            assert(text::strs(parts@) =~= Seq::empty().push(told@) + before);
        },
    }
    parts
}

/// The part that repeats the reminders before the answer.
pub open spec fn think_part(lines: Seq<Seq<char>>) -> Seq<char> {
    "<｜Assistant｜><think>"@ + ("Tôi vừa được hệ thống nhắc cần tuân thủ nội dung sau:\n\n"@
        + as_blocks(lines)) + "\n"@
}

/// The parts with all reminders: told to the system, and repeated last.
pub open spec fn with_reminders(
    parts: Seq<Seq<char>>,
    ctx: ToolContextV,
    format: Seq<char>,
) -> Seq<Seq<char>> {
    let all = reminders(ctx, format);
    if all.len() == 0 {
        parts
    } else {
        with_system(parts, as_blocks(all)).push(think_part(all))
    }
}

/// The last part opens the answer.
pub open spec fn opens_answer(parts: Seq<Seq<char>>) -> bool {
    parts.len() > 0 && text::stands_at(parts.last(), "<｜Assistant｜>"@, 0)
}

/// The parts with a last one that opens the answer.
pub open spec fn with_opening(parts: Seq<Seq<char>>) -> Seq<Seq<char>> {
    if opens_answer(parts) {
        parts
    } else {
        parts.push("<｜Assistant｜>\n"@)
    }
}

/// The demand on the format of the answer that a request makes.
pub open spec fn request_format(req: ChatCompletionsRequest) -> Seq<char> {
    match req.response_format {
        Some(rf) => format_text(rf),
        None => ""@,
    }
}

/// The parts of the prompt of a request.
pub open spec fn prompt_parts(req: ChatCompletionsRequest, ctx: ToolContextV) -> Seq<Seq<char>> {
    let messages = merged(req.messages.deep_view(), req.messages@.len() as int);
    with_opening(with_reminders(turn_parts(messages, 0), ctx, request_format(req)))
}

/// The prompt of a request.
pub open spec fn prompt_text(req: ChatCompletionsRequest, ctx: ToolContextV) -> Seq<char> {
    let parts = prompt_parts(req, ctx);
    text::joined(parts, ""@, parts.len() as int)
}

/// The prompt of a request: the turns of the conversation, the system told of
/// tools and formats, the same repeated where the answer begins.
pub fn build(req: &ChatCompletionsRequest, tool_ctx: &ToolContext) -> (r: String)
    ensures
        r@ == prompt_text(*req, tool_ctx@),
{
    let messages = merge_messages(&req.messages);
    let mut parts = format_turns(&messages);
    let format = match &req.response_format {
        Some(rf) => format_response_text(rf),
        None => "".to_owned(),
    };
    let all = collect_reminders(tool_ctx, format.as_str());
    if all.len() > 0 {
        let reminder = text::join(&all, "\n\n");
        parts = tell_system(parts, reminder.as_str());
        let told = text::cat2(
            "Tôi vừa được hệ thống nhắc cần tuân thủ nội dung sau:\n\n",
            reminder.as_str(),
        );
        let part = text::cat3("<｜Assistant｜><think>", told.as_str(), "\n");
        text::add_line(&mut parts, part.as_str());
    }
    let n: usize = parts.len();
    assert(text::strs(parts@).len() == n);
    if !(n > 0 && text::starts_with(parts[n - 1].as_str(), "<｜Assistant｜>")) {
        text::add_line(&mut parts, "<｜Assistant｜>\n");
    }
    text::join(&parts, "")
}

/// A tagged part before which none is tagged is the first.
proof fn lemma_first_tagged_is(parts: Seq<Seq<char>>, tag: Seq<char>, i: int, k: int)
    requires
        0 <= i <= k < parts.len(),
        text::stands_at(parts[k], tag, 0),
        forall|j: int| i <= j < k ==> !text::stands_at(#[trigger] parts[j], tag, 0),
    ensures
        first_tagged(parts, tag, i) == Some(k),
    decreases k - i,
{
    if i < k {
        lemma_first_tagged_is(parts, tag, i + 1, k);
    }
}

/// A found part is tagged, and none before it is.
proof fn lemma_found_tagged(parts: Seq<Seq<char>>, tag: Seq<char>, i: int)
    requires
        0 <= i,
    ensures
        first_tagged(parts, tag, i) matches Some(k) ==> i <= k < parts.len() && text::stands_at(
            parts[k],
            tag,
            0,
        ) && (forall|j: int| i <= j < k ==> !text::stands_at(#[trigger] parts[j], tag, 0)),
    decreases parts.len() - i,
{
    if i < parts.len() && !text::stands_at(parts[i], tag, 0) {
        lemma_found_tagged(parts, tag, i + 1);
    }
}

/// Parts joined without a separator end with the last of them.
proof fn lemma_joined_ends_with_last(parts: Seq<Seq<char>>)
    requires
        parts.len() > 0,
    ensures
        ({
            let whole = text::joined(parts, ""@, parts.len() as int);
            let last = parts.last();
            text::stands_at(whole, last, whole.len() - last.len())
        }),
{
    reveal_strlit("");
    let n = parts.len() as int;
    let whole = text::joined(parts, ""@, n);
    let last = parts.last();
    assert(whole =~= text::joined(parts, ""@, n - 1) + last);
    assert(whole.subrange(whole.len() - last.len(), whole.len() as int) =~= last);
}

/// Every prompt ends with an open answer: its last part begins with an assistant
/// tag.
pub proof fn law_prompt_opens_answer(req: ChatCompletionsRequest, ctx: ToolContextV)
    ensures
        ({
            let last = prompt_parts(req, ctx).last();
            let prompt = prompt_text(req, ctx);
            &&& opens_answer(prompt_parts(req, ctx))
            &&& text::stands_at(prompt, last, prompt.len() - last.len())
        }),
{
    assert(text::stands_at("<｜Assistant｜>\n"@, "<｜Assistant｜>"@, 0)) by {
        reveal_strlit("<｜Assistant｜>");
        reveal_strlit("<｜Assistant｜>\n");
        assert("<｜Assistant｜>\n"@.subrange(0, "<｜Assistant｜>"@.len() as int)
            =~= "<｜Assistant｜>"@);
    }
    lemma_joined_ends_with_last(prompt_parts(req, ctx));
}

proof fn lemma_think_part_opens(lines: Seq<Seq<char>>)
    ensures
        text::stands_at(think_part(lines), "<｜Assistant｜>"@, 0),
{
    reveal_strlit("<｜Assistant｜>");
    reveal_strlit("<｜Assistant｜><think>");
    assert(think_part(lines).subrange(0, "<｜Assistant｜>"@.len() as int) =~= "<｜Assistant｜>"@);
}

/// Where anything must be kept in mind about tools or about the format of the
/// answer, the prompt ends with all of it.
pub proof fn law_reminders_come_last(req: ChatCompletionsRequest, ctx: ToolContextV)
    requires
        reminders(ctx, request_format(req)).len() > 0,
    ensures
        ({
            let part = think_part(reminders(ctx, request_format(req)));
            let prompt = prompt_text(req, ctx);
            &&& prompt_parts(req, ctx).last() == part
            &&& text::stands_at(prompt, part, prompt.len() - part.len())
        }),
{
    lemma_think_part_opens(reminders(ctx, request_format(req)));
    lemma_joined_ends_with_last(prompt_parts(req, ctx));
}

/// A part that the system was told in still begins with its tag.
proof fn lemma_told_part(s: Seq<char>, inner: Seq<char>)
    requires
        text::stands_at(s, "<｜System｜>"@, 0),
    ensures
        text::stands_at(with_inner(s, inner), "<｜System｜>"@, 0),
{
    let tag = "<｜System｜>"@;
    assert(s.subrange(0, tag.len() as int) == tag);
    assert(without_break(s).len() >= tag.len()) by {
        reveal_strlit("<｜System｜>");
        if s.len() == tag.len() {
            assert(s.subrange(0, tag.len() as int).last() == s.last());
        }
    }
    assert(with_inner(s, inner).subrange(0, tag.len() as int) =~= tag);
}

/// The first system part of parts that the system was told in ends with the
/// reminder and a line break.
proof fn lemma_system_is_told(parts: Seq<Seq<char>>, reminder: Seq<char>) -> (k: int)
    ensures
        0 <= k < with_system(parts, reminder).len(),
        first_tagged(with_system(parts, reminder), "<｜System｜>"@, 0) == Some(k),
        ({
            let told = with_system(parts, reminder)[k];
            let end = reminder + "\n"@;
            text::stands_at(told, end, told.len() - end.len())
        }),
{
    let tag = "<｜System｜>"@;
    let inner = "\n\n"@ + reminder;
    let end = reminder + "\n"@;
    let told = with_system(parts, reminder);
    lemma_found_tagged(parts, tag, 0);
    let k = match first_tagged(parts, tag, 0) {
        Some(k) => {
            lemma_told_part(parts[k], inner);
            k
        },
        None => {
            assert(told[0].subrange(0, tag.len() as int) =~= tag);
            0
        },
    };
    lemma_first_tagged_is(told, tag, 0, k);
    assert(told[k].subrange(told[k].len() - end.len(), told[k].len() as int) =~= end);
    k
}

/// Where anything must be kept in mind about tools or about the format of the
/// answer, the first system part ends with all of it.
pub proof fn law_system_ends_with_reminders(req: ChatCompletionsRequest, ctx: ToolContextV)
    requires
        reminders(ctx, request_format(req)).len() > 0,
    ensures
        ({
            let parts = prompt_parts(req, ctx);
            let end = as_blocks(reminders(ctx, request_format(req))) + "\n"@;
            first_tagged(parts, "<｜System｜>"@, 0) matches Some(k) && 0 <= k < parts.len()
                && text::stands_at(parts[k], end, parts[k].len() - end.len())
        }),
{
    let tag = "<｜System｜>"@;
    let lines = reminders(ctx, request_format(req));
    let turns = turn_parts(merged(req.messages.deep_view(), req.messages@.len() as int), 0);
    let told = with_system(turns, as_blocks(lines));
    let k = lemma_system_is_told(turns, as_blocks(lines));
    lemma_think_part_opens(lines);
    let parts = prompt_parts(req, ctx);
    assert(parts == told.push(think_part(lines)));
    lemma_found_tagged(told, tag, 0);
    assert forall|j: int| 0 <= j < k implies !text::stands_at(#[trigger] parts[j], tag, 0) by {
        assert(parts[j] == told[j]);
    }
    lemma_first_tagged_is(parts, tag, 0, k);
}

/// The reminders hold the definitions of the tools.
proof fn lemma_reminders_hold_definitions(ctx: ToolContextV, format: Seq<char>)
    requires
        ctx.defs_text is Some,
    ensures
        reminders(ctx, format).len() > 0,
        text::occurs(as_blocks(reminders(ctx, format)), ctx.defs_text->0),
{
    let none = Seq::<char>::empty();
    let defs = ctx.defs_text->0;
    let sections = tool_sections(ctx);
    let head = "### Định nghĩa công cụ\n"@;
    let section = head + defs;
    let at: int = if ctx.format_block is Some {
        1
    } else {
        0
    };
    assert(sections[at] == section);
    assert(section =~= head + defs + none);
    text::lemma_occurs_between(head, defs, none);
    let all_sections = text::joined(sections, "\n\n"@, sections.len() as int);
    text::lemma_joined_holds(sections, "\n\n"@, sections.len() as int, at);
    text::lemma_occurs_through(all_sections, section, defs);
    let lines = reminders(ctx, format);
    let tools = "## Gọi công cụ\n"@ + all_sections;
    assert(lines[0] == tools);
    assert(tools =~= "## Gọi công cụ\n"@ + all_sections + none);
    text::lemma_occurs_between("## Gọi công cụ\n"@, all_sections, none);
    text::lemma_occurs_through(tools, all_sections, defs);
    text::lemma_joined_holds(lines, "\n\n"@, lines.len() as int, 0);
    text::lemma_occurs_through(as_blocks(lines), tools, defs);
}

/// Whatever the conversation, the definitions of the tools are told twice: in
/// the first system part, and in the open `<think>` block with which the prompt
/// ends.
pub proof fn law_definitions_are_told(req: ChatCompletionsRequest, ctx: ToolContextV)
    requires
        ctx.defs_text is Some,
    ensures
        ({
            let parts = prompt_parts(req, ctx);
            let prompt = prompt_text(req, ctx);
            let last = think_part(reminders(ctx, request_format(req)));
            &&& first_tagged(parts, "<｜System｜>"@, 0) matches Some(k) && text::occurs(
                parts[k],
                ctx.defs_text->0,
            )
            &&& text::occurs(last, ctx.defs_text->0)
            &&& text::stands_at(last, "<｜Assistant｜><think>"@, 0)
            &&& text::stands_at(prompt, last, prompt.len() - last.len())
            &&& text::occurs(prompt, ctx.defs_text->0)
        }),
{
    let defs = ctx.defs_text->0;
    let format = request_format(req);
    let lines = reminders(ctx, format);
    let reminder = as_blocks(lines);
    let last = think_part(lines);
    lemma_reminders_hold_definitions(ctx, format);
    law_reminders_come_last(req, ctx);
    let head = "<｜Assistant｜><think>"@;
    let lead = "Tôi vừa được hệ thống nhắc cần tuân thủ nội dung sau:\n\n"@;
    assert(last =~= (head + lead) + reminder + "\n"@);
    text::lemma_occurs_between(head + lead, reminder, "\n"@);
    text::lemma_occurs_through(last, reminder, defs);
    assert(last.subrange(0, head.len() as int) =~= head);
    law_system_ends_with_reminders(req, ctx);
    let parts = prompt_parts(req, ctx);
    let k = first_tagged(parts, "<｜System｜>"@, 0)->0;
    let front = parts[k].subrange(0, parts[k].len() - (reminder + "\n"@).len());
    assert(parts[k] =~= front + (reminder + "\n"@));
    assert(parts[k] =~= front + reminder + "\n"@);
    text::lemma_occurs_between(front, reminder, "\n"@);
    text::lemma_occurs_through(parts[k], reminder, defs);
    text::lemma_joined_holds(parts, ""@, parts.len() as int, k);
    text::lemma_occurs_through(prompt_text(req, ctx), parts[k], defs);
}

/// After merging, neighbours of one role are results of tools.
pub proof fn law_merged_roles_alternate(messages: Seq<MessageV>, n: int)
    requires
        0 <= n <= messages.len(),
    ensures
        forall|i: int|
            0 < i < merged(messages, n).len() && (#[trigger] merged(messages, n)[i]).role
                == merged(messages, n)[i - 1].role ==> merged(messages, n)[i].role == "tool"@,
    decreases n,
{
    if n > 0 {
        law_merged_roles_alternate(messages, n - 1);
        let before = merged(messages, n - 1);
        let after = merged(messages, n);
        assert forall|i: int|
            0 < i < after.len() && (#[trigger] after[i]).role == after[i - 1].role implies after[i].role
            == "tool"@ by {
            if i < before.len() {
                assert(after[i].role == before[i].role);
            }
            if i - 1 < before.len() {
                assert(after[i - 1].role == before[i - 1].role);
            }
        }
    }
}

/// Messages whose neighbours differ in role, or are results of tools, are
/// merged into themselves.
proof fn lemma_merged_fixed(messages: Seq<MessageV>, n: int)
    requires
        0 <= n <= messages.len(),
        forall|i: int|
            0 < i < messages.len() && (#[trigger] messages[i]).role == messages[i - 1].role
                ==> messages[i].role == "tool"@,
    ensures
        merged(messages, n) == messages.subrange(0, n),
    decreases n,
{
    if n == 0 {
        assert(messages.subrange(0, 0) =~= Seq::empty());
    } else {
        lemma_merged_fixed(messages, n - 1);
        let before = messages.subrange(0, n - 1);
        if before.len() > 0 {
            assert(before.last() == messages[n - 2]);
            assert(messages[n - 1].role == messages[n - 2].role ==> messages[n - 1].role
                == "tool"@);
        }
        assert(messages.subrange(0, n) =~= before.push(messages[n - 1]));
    }
}

/// Merging twice is merging once.
pub proof fn law_merging_is_idempotent(messages: Seq<MessageV>)
    ensures
        ({
            let once = merged(messages, messages.len() as int);
            merged(once, once.len() as int) == once
        }),
{
    let once = merged(messages, messages.len() as int);
    law_merged_roles_alternate(messages, messages.len() as int);
    lemma_merged_fixed(once, once.len() as int);
    assert(once.subrange(0, once.len() as int) =~= once);
}

proof fn lemma_occurs_at_end(a: Seq<char>, pat: Seq<char>)
    ensures
        text::occurs(a + pat, pat),
{
    let none = Seq::<char>::empty();
    assert(a + pat =~= a + pat + none);
    text::lemma_occurs_between(a, pat, none);
}

proof fn lemma_occurs_at_start(pat: Seq<char>, b: Seq<char>)
    ensures
        text::occurs(pat + b, pat),
{
    let none = Seq::<char>::empty();
    assert(pat + b =~= none + pat + b);
    text::lemma_occurs_between(none, pat, b);
}

proof fn lemma_occurs_in_itself(s: Seq<char>)
    ensures
        text::occurs(s, s),
{
    let none = Seq::<char>::empty();
    assert(s =~= none + s + none);
    text::lemma_occurs_between(none, s, none);
}

proof fn lemma_nothing_occurs(s: Seq<char>, none: Seq<char>)
    requires
        none.len() == 0,
    ensures
        text::occurs(s, none),
{
    assert(s.subrange(0, 0) =~= none);
    text::lemma_find_is_first(s, none, 0, 0);
}

/// Two contents made one say what each of them said, the first one first.
pub proof fn law_merged_content_says_both(a: MessageContentV, b: MessageContentV)
    ensures
        text::occurs(content_text(merged_content(a, b)), content_text(a)),
        text::occurs(content_text(merged_content(a, b)), content_text(b)),
        content_text(a).len() > 0 && content_text(b).len() > 0 ==> content_text(
            merged_content(a, b),
        ) == content_text(a) + "\n"@ + content_text(b),
{
    let x = content_text(a);
    let y = content_text(b);
    let both = content_text(merged_content(a, b));
    match (a, b) {
        (MessageContentV::Parts(p), MessageContentV::Parts(q)) => {
            let pt = part_texts(p);
            let qt = part_texts(q);
            assert(part_texts(p + q) =~= pt + qt);
            if p.len() == 0 {
                assert(p + q =~= q);
                lemma_nothing_occurs(both, x);
                lemma_occurs_in_itself(y);
            } else if q.len() == 0 {
                assert(p + q =~= p);
                lemma_nothing_occurs(both, y);
                lemma_occurs_in_itself(x);
            } else {
                text::law_joining_goes_in_order(pt, qt, "\n"@, q.len() as int);
                assert(both == x + "\n"@ + y);
                assert(both =~= x + ("\n"@ + y));
                lemma_occurs_at_start(x, "\n"@ + y);
                lemma_occurs_at_end(x + "\n"@, y);
            }
        },
        _ => {
            reveal_strlit("\n");
            assert(x.push('\n') + y =~= x + "\n"@ + y);
            assert(both =~= x + "\n"@ + y);
            assert(both =~= x + ("\n"@ + y));
            lemma_occurs_at_start(x, "\n"@ + y);
            lemma_occurs_at_end(x + "\n"@, y);
        },
    }
}

/// Two messages of one role in turn become one message of that role: it says
/// what both said, makes the calls of both, and has the later of their other
/// parts.
pub proof fn law_two_of_one_role_become_one(a: MessageV, b: MessageV)
    requires
        a.role == b.role,
        a.role != "tool"@,
    ensures
        ({
            let r = merged(seq![a, b], 2);
            let m = r[0];
            &&& r.len() == 1
            &&& m.role == a.role
            &&& a.content is Some ==> m.content is Some && text::occurs(
                content_text(m.content->0),
                content_text(a.content->0),
            )
            &&& b.content is Some ==> m.content is Some && text::occurs(
                content_text(m.content->0),
                content_text(b.content->0),
            )
            &&& a.content is None && b.content is None ==> m.content is None
            &&& a.tool_calls is Some && b.tool_calls is Some ==> m.tool_calls == Some(
                a.tool_calls->0 + b.tool_calls->0,
            )
            &&& b.tool_calls is None ==> m.tool_calls == a.tool_calls
            &&& a.tool_calls is None ==> m.tool_calls == b.tool_calls
            &&& m.name == (if b.name is Some { b.name } else { a.name })
            &&& m.tool_call_id == (if b.tool_call_id is Some { b.tool_call_id } else {
                a.tool_call_id
            })
            &&& m.function_call == (if b.function_call is Some { b.function_call } else {
                a.function_call
            })
            &&& m.refusal == (if b.refusal is Some { b.refusal } else { a.refusal })
            &&& m.audio == (if b.audio is Some { b.audio } else { a.audio })
        }),
{
    reveal_with_fuel(merged, 3);
    let s = seq![a, b];
    assert(merged(s, 1) =~= seq![a]);
    assert(merged(s, 1).drop_last() =~= Seq::empty());
    assert(merged(s, 2) =~= seq![merged_message(a, b)]);
    if a.content is Some && b.content is Some {
        law_merged_content_says_both(a.content->0, b.content->0);
    } else if a.content is Some {
        lemma_occurs_in_itself(content_text(a.content->0));
    } else if b.content is Some {
        lemma_occurs_in_itself(content_text(b.content->0));
    }
}

proof fn lemma_merged_prefix(a: Seq<MessageV>, b: Seq<MessageV>, n: int)
    requires
        0 <= n <= a.len(),
    ensures
        merged(a + b, n) == merged(a, n),
    decreases n,
{
    if n > 0 {
        lemma_merged_prefix(a, b, n - 1);
        assert((a + b)[n - 1] == a[n - 1]);
    }
}

proof fn lemma_merged_last_role(messages: Seq<MessageV>, n: int)
    requires
        0 < n <= messages.len(),
    ensures
        merged(messages, n).len() > 0,
        merged(messages, n).last().role == messages[n - 1].role,
    decreases n,
{
}

/// Where the role changes, and between results of tools, messages are merged
/// apart.
pub proof fn law_merging_parts_where_the_role_changes(a: Seq<MessageV>, b: Seq<MessageV>, n: int)
    requires
        a.len() > 0,
        0 <= n <= b.len(),
        b.len() > 0,
        a.last().role != b[0].role || b[0].role == "tool"@,
    ensures
        merged(a + b, a.len() + n) == merged(a, a.len() as int) + merged(b, n),
    decreases n,
{
    let head = merged(a, a.len() as int);
    if n == 0 {
        lemma_merged_prefix(a, b, a.len() as int);
        assert(head + Seq::<MessageV>::empty() =~= head);
    } else {
        law_merging_parts_where_the_role_changes(a, b, n - 1);
        assert((a + b)[a.len() + n - 1] == b[n - 1]);
        lemma_merged_last_role(a, a.len() as int);
        let before = merged(b, n - 1);
        if n == 1 {
            assert(before =~= Seq::empty());
            assert(head + before =~= head);
            assert(head.push(b[0]) =~= head + merged(b, 1));
        } else {
            lemma_merged_last_role(b, n - 1);
            assert((head + before).last() == before.last());
            assert((head + before).drop_last() =~= head + before.drop_last());
            assert(merged(a + b, a.len() + n) =~= head + merged(b, n));
        }
    }
}

/// Merged messages still say what a message said.
proof fn lemma_merged_holds(messages: Seq<MessageV>, n: int, i: int) -> (j: int)
    requires
        0 <= i < n <= messages.len(),
        messages[i].content is Some,
    ensures
        0 <= j < merged(messages, n).len(),
        merged(messages, n)[j].content is Some,
        text::occurs(
            content_text(merged(messages, n)[j].content->0),
            content_text(messages[i].content->0),
        ),
    decreases n,
{
    let before = merged(messages, n - 1);
    let after = merged(messages, n);
    let msg = messages[n - 1];
    let joins = before.len() > 0 && before.last().role == msg.role && msg.role != "tool"@;
    let said = content_text(messages[i].content->0);
    if i == n - 1 {
        lemma_occurs_in_itself(said);
        if joins {
            let last = before.last();
            if last.content is Some {
                law_merged_content_says_both(last.content->0, msg.content->0);
            }
            before.len() as int - 1
        } else {
            before.len() as int
        }
    } else {
        let j = lemma_merged_holds(messages, n - 1, i);
        if joins && j == before.len() - 1 {
            if msg.content is Some {
                let last = before.last();
                law_merged_content_says_both(last.content->0, msg.content->0);
                text::lemma_occurs_through(
                    content_text(merged_content(last.content->0, msg.content->0)),
                    content_text(last.content->0),
                    said,
                );
            }
        }
        j
    }
}

/// A message that is no result of a tool says its content in its text.
proof fn lemma_message_says(msg: MessageV)
    requires
        msg.content is Some,
    ensures
        text::occurs(message_text(msg), content_text(msg.content->0)),
{
    let said = content_text(msg.content->0);
    let whole = message_text(msg);
    if msg.role == "assistant"@ {
        let lines = assistant_lines(msg);
        assert(lines[0] == said);
        text::lemma_joined_holds(lines, "\n"@, lines.len() as int, 0);
        lemma_occurs_at_end(""@ + tag_text(msg.role), as_lines(lines));
        text::lemma_occurs_through(whole, as_lines(lines), said);
    } else if msg.role == "tool"@ {
        let out = output_text(said);
        text::lemma_occurs_between("<｜tool▁output▁begin｜>"@, said, "<｜tool▁output▁end｜>"@);
        text::lemma_occurs_between("<｜tool▁outputs▁begin｜>"@, out, "<｜tool▁outputs▁end｜>"@);
        text::lemma_occurs_through(outputs_block(out), out, said);
        lemma_occurs_at_end(""@ + ""@, outputs_block(out));
        text::lemma_occurs_through(whole, outputs_block(out), said);
    } else {
        let lines = named_lines(msg);
        let k = lines.len() - 1;
        assert(lines[k] == said);
        text::lemma_joined_holds(lines, "\n"@, lines.len() as int, k);
        if msg.role == "user"@ {
            lemma_occurs_at_end(
                "<｜end▁of▁sentence｜>"@ + tag_text(msg.role),
                as_lines(lines),
            );
        } else {
            lemma_occurs_at_end(""@ + tag_text(msg.role), as_lines(lines));
        }
        text::lemma_occurs_through(whole, as_lines(lines), said);
    }
}

proof fn lemma_outputs_hold(messages: Seq<MessageV>, i: int, end: int, j: int)
    requires
        0 <= i <= j < end <= messages.len(),
        messages[j].content is Some,
    ensures
        text::occurs(
            tool_outputs(messages, i, end),
            output_text(content_text(messages[j].content->0)),
        ),
    decreases end - i,
{
    let wanted = output_text(content_text(messages[j].content->0));
    let before = tool_outputs(messages, i, end - 1);
    if j == end - 1 {
        lemma_occurs_at_end(before, wanted);
    } else {
        lemma_outputs_hold(messages, i, end - 1, j);
        if let Some(c) = content_line(messages[end - 1]) {
            lemma_occurs_at_start(before, output_text(c));
            text::lemma_occurs_through(tool_outputs(messages, i, end), before, wanted);
        }
    }
}

/// The parts from a position on say what each message from there on said; the
/// result of a tool stands there as an output.
proof fn lemma_turns_hold(messages: Seq<MessageV>, i: int, j: int) -> (p: int)
    requires
        0 <= i <= j < messages.len(),
        messages[j].content is Some,
    ensures
        0 <= p < turn_parts(messages, i).len(),
        text::occurs(turn_parts(messages, i)[p], content_text(messages[j].content->0)),
        messages[j].role == "tool"@ ==> text::occurs(
            turn_parts(messages, i)[p],
            output_text(content_text(messages[j].content->0)),
        ),
    decreases messages.len() - i,
{
    let said = content_text(messages[j].content->0);
    let parts = turn_parts(messages, i);
    if messages[i].role == "tool"@ {
        lemma_tools_end(messages, i);
        let end = tools_end(messages, i);
        let inner = tool_outputs(messages, i, end);
        if j < end {
            lemma_outputs_hold(messages, i, end, j);
            let out = output_text(said);
            text::lemma_occurs_between("<｜tool▁outputs▁begin｜>"@, inner, "<｜tool▁outputs▁end｜>"@);
            text::lemma_occurs_through(outputs_block(inner), inner, out);
            text::lemma_occurs_between("<｜tool▁output▁begin｜>"@, said, "<｜tool▁output▁end｜>"@);
            text::lemma_occurs_through(outputs_block(inner), out, said);
            assert(parts[0] == outputs_block(inner));
            0
        } else {
            let p = lemma_turns_hold(messages, end, j);
            assert(parts[p + 1] == turn_parts(messages, end)[p]);
            p + 1
        }
    } else if j == i {
        lemma_message_says(messages[i]);
        assert(parts[0] == message_text(messages[i]));
        0
    } else {
        let p = lemma_turns_hold(messages, i + 1, j);
        assert(parts[p + 1] == turn_parts(messages, i + 1)[p]);
        p + 1
    }
}

/// A part that the system is told in still says all that it said.
proof fn lemma_told_part_says(s: Seq<char>, reminder: Seq<char>)
    ensures
        text::occurs(with_inner(s, "\n\n"@ + reminder), s),
{
    reveal_strlit("\n\n");
    let told = with_inner(s, "\n\n"@ + reminder);
    assert(told.subrange(0, s.len() as int) =~= s);
    text::lemma_find_is_first(told, s, 0, 0);
}

/// Every part of the turns is said in the prompt.
proof fn lemma_prompt_holds_turn(req: ChatCompletionsRequest, ctx: ToolContextV, p: int)
    requires
        ({
            let messages = merged(req.messages.deep_view(), req.messages@.len() as int);
            0 <= p < turn_parts(messages, 0).len()
        }),
    ensures
        ({
            let messages = merged(req.messages.deep_view(), req.messages@.len() as int);
            text::occurs(prompt_text(req, ctx), turn_parts(messages, 0)[p])
        }),
{
    let messages = merged(req.messages.deep_view(), req.messages@.len() as int);
    let turns = turn_parts(messages, 0);
    let all = reminders(ctx, request_format(req));
    let parts = prompt_parts(req, ctx);
    let mut at: int = p;
    lemma_occurs_in_itself(turns[p]);
    if all.len() > 0 {
        let reminder = as_blocks(all);
        let told = with_system(turns, reminder);
        lemma_found_tagged(turns, "<｜System｜>"@, 0);
        match first_tagged(turns, "<｜System｜>"@, 0) {
            Some(k) => {
                if k == p {
                    lemma_told_part_says(turns[p], reminder);
                }
                assert(text::occurs(told[p], turns[p]));
            },
            None => {
                at = p + 1;
                assert(told[p + 1] == turns[p]);
            },
        }
        assert(parts[at] == told[at]);
    } else {
        assert(parts[at] == turns[at]);
    }
    text::lemma_joined_holds(parts, ""@, parts.len() as int, at);
    text::lemma_occurs_through(prompt_text(req, ctx), parts[at], turns[p]);
}

/// Whatever was said in a request is said in its prompt: the text of the content
/// of every message, of whatever role, occurs there.
pub proof fn law_every_message_is_in_the_prompt(
    req: ChatCompletionsRequest,
    ctx: ToolContextV,
    i: int,
)
    requires
        0 <= i < req.messages@.len(),
        req.messages.deep_view()[i].content is Some,
    ensures
        text::occurs(
            prompt_text(req, ctx),
            content_text(req.messages.deep_view()[i].content->0),
        ),
{
    let ms = req.messages.deep_view();
    let messages = merged(ms, ms.len() as int);
    let said = content_text(ms[i].content->0);
    let j = lemma_merged_holds(ms, ms.len() as int, i);
    let p = lemma_turns_hold(messages, 0, j);
    let part = turn_parts(messages, 0)[p];
    text::lemma_occurs_through(part, content_text(messages[j].content->0), said);
    lemma_prompt_holds_turn(req, ctx, p);
    text::lemma_occurs_through(prompt_text(req, ctx), part, said);
}

proof fn lemma_tool_stays(messages: Seq<MessageV>, n: int, i: int) -> (j: int)
    requires
        0 <= i < n <= messages.len(),
        messages[i].role == "tool"@,
    ensures
        0 <= j < merged(messages, n).len(),
        merged(messages, n)[j] == messages[i],
    decreases n,
{
    let before = merged(messages, n - 1);
    if i == n - 1 {
        before.len() as int
    } else {
        lemma_tool_stays(messages, n - 1, i)
    }
}

/// The result of every tool is in the prompt, marked as an output.
pub proof fn law_every_tool_result_is_in_the_prompt(
    req: ChatCompletionsRequest,
    ctx: ToolContextV,
    i: int,
)
    requires
        0 <= i < req.messages@.len(),
        req.messages.deep_view()[i].role == "tool"@,
        req.messages.deep_view()[i].content is Some,
    ensures
        text::occurs(
            prompt_text(req, ctx),
            "<｜tool▁output▁begin｜>"@ + content_text(req.messages.deep_view()[i].content->0)
                + "<｜tool▁output▁end｜>"@,
        ),
{
    let ms = req.messages.deep_view();
    let messages = merged(ms, ms.len() as int);
    let j = lemma_tool_stays(ms, ms.len() as int, i);
    let p = lemma_turns_hold(messages, 0, j);
    let part = turn_parts(messages, 0)[p];
    lemma_prompt_holds_turn(req, ctx, p);
    text::lemma_occurs_through(
        prompt_text(req, ctx),
        part,
        output_text(content_text(ms[i].content->0)),
    );
}

proof fn lemma_all_tools_end(ms: Seq<MessageV>, i: int)
    requires
        0 <= i <= ms.len(),
        forall|k: int| 0 <= k < ms.len() ==> (#[trigger] ms[k]).role == "tool"@,
    ensures
        tools_end(ms, i) == ms.len(),
    decreases ms.len() - i,
{
    if i < ms.len() {
        assert(ms[i].role == "tool"@);
        lemma_all_tools_end(ms, i + 1);
    }
}

proof fn lemma_outputs_joined(ms: Seq<MessageV>, outs: Seq<Seq<char>>, n: int)
    requires
        0 <= n <= ms.len(),
        outs.len() == ms.len(),
        forall|k: int| 0 <= k < ms.len() ==> (#[trigger] ms[k]).content is Some,
        forall|k: int|
            0 <= k < ms.len() ==> #[trigger] outs[k] == "<｜tool▁output▁begin｜>"@ + content_text(
                ms[k].content->0,
            ) + "<｜tool▁output▁end｜>"@,
    ensures
        tool_outputs(ms, 0, n) == text::joined(outs, ""@, n),
    decreases n,
{
    reveal_strlit("");
    if n > 0 {
        lemma_outputs_joined(ms, outs, n - 1);
        assert(ms[n - 1].content is Some);
        assert(outs[n - 1] == output_text(content_text(ms[n - 1].content->0)));
        assert(tool_outputs(ms, 0, n) =~= text::joined(outs, ""@, n));
    }
}

/// The results of tools that follow one another stand in one block, each marked
/// as an output, in the order of the messages.
pub proof fn law_tool_results_stand_in_order(ms: Seq<MessageV>, outs: Seq<Seq<char>>)
    requires
        ms.len() > 0,
        outs.len() == ms.len(),
        forall|k: int|
            0 <= k < ms.len() ==> (#[trigger] ms[k]).role == "tool"@ && ms[k].content is Some,
        forall|k: int|
            0 <= k < ms.len() ==> #[trigger] outs[k] == "<｜tool▁output▁begin｜>"@ + content_text(
                ms[k].content->0,
            ) + "<｜tool▁output▁end｜>"@,
    ensures
        turn_parts(ms, 0) == seq![
            "<｜tool▁outputs▁begin｜>"@ + text::joined(outs, ""@, outs.len() as int)
                + "<｜tool▁outputs▁end｜>"@,
        ],
{
    lemma_all_tools_end(ms, 0);
    lemma_outputs_joined(ms, outs, ms.len() as int);
    assert(ms[0].role == "tool"@);
    assert(turn_parts(ms, ms.len() as int) =~= Seq::empty());
    assert(turn_parts(ms, 0) =~= seq![outputs_block(tool_outputs(ms, 0, ms.len() as int))]);
}

proof fn lemma_tools_end_shift(a: Seq<MessageV>, b: Seq<MessageV>, i: int)
    requires
        0 <= i <= b.len(),
    ensures
        tools_end(a + b, a.len() + i) == a.len() + tools_end(b, i),
    decreases b.len() - i,
{
    if i < b.len() {
        assert((a + b)[a.len() + i] == b[i]);
        if b[i].role == "tool"@ {
            lemma_tools_end_shift(a, b, i + 1);
        }
    }
}

proof fn lemma_outputs_shift(a: Seq<MessageV>, b: Seq<MessageV>, i: int, end: int)
    requires
        0 <= i,
        end <= b.len(),
    ensures
        tool_outputs(a + b, a.len() + i, a.len() + end) == tool_outputs(b, i, end),
    decreases end - i,
{
    if end > i {
        lemma_outputs_shift(a, b, i, end - 1);
        assert((a + b)[a.len() + end - 1] == b[end - 1]);
    }
}

proof fn lemma_turns_shift(a: Seq<MessageV>, b: Seq<MessageV>, i: int)
    requires
        0 <= i <= b.len(),
    ensures
        turn_parts(a + b, a.len() + i) == turn_parts(b, i),
    decreases b.len() - i,
{
    if i < b.len() {
        assert((a + b)[a.len() + i] == b[i]);
        if b[i].role == "tool"@ {
            lemma_tools_end(b, i);
            lemma_tools_end_shift(a, b, i);
            let end = tools_end(b, i);
            lemma_outputs_shift(a, b, i, end);
            lemma_turns_shift(a, b, end);
        } else {
            lemma_turns_shift(a, b, i + 1);
        }
    }
}

proof fn lemma_tools_end_within(a: Seq<MessageV>, b: Seq<MessageV>, i: int)
    requires
        0 <= i <= a.len(),
        b.len() == 0 || b[0].role != "tool"@ || a.last().role != "tool"@,
        i < a.len() || b.len() == 0 || b[0].role != "tool"@,
    ensures
        tools_end(a + b, i) == tools_end(a, i),
    decreases a.len() - i,
{
    if i < a.len() {
        assert((a + b)[i] == a[i]);
        if a[i].role == "tool"@ {
            if i + 1 == a.len() {
                assert(a[i] == a.last());
            }
            lemma_tools_end_within(a, b, i + 1);
        }
    } else if b.len() > 0 {
        assert((a + b)[i] == b[0]);
    }
}

proof fn lemma_outputs_within(a: Seq<MessageV>, b: Seq<MessageV>, i: int, end: int)
    requires
        0 <= i,
        end <= a.len(),
    ensures
        tool_outputs(a + b, i, end) == tool_outputs(a, i, end),
    decreases end - i,
{
    if end > i {
        lemma_outputs_within(a, b, i, end - 1);
        assert((a + b)[end - 1] == a[end - 1]);
    }
}

proof fn lemma_turns_within(a: Seq<MessageV>, b: Seq<MessageV>, i: int)
    requires
        0 <= i <= a.len(),
        b.len() == 0 || b[0].role != "tool"@ || a.len() > 0 && a.last().role != "tool"@,
    ensures
        turn_parts(a + b, i) == turn_parts(a, i) + turn_parts(b, 0),
    decreases a.len() - i,
{
    if i == a.len() {
        lemma_turns_shift(a, b, 0);
        assert(turn_parts(a, i) =~= Seq::empty());
        assert(Seq::<Seq<char>>::empty() + turn_parts(b, 0) =~= turn_parts(b, 0));
    } else {
        assert((a + b)[i] == a[i]);
        if a[i].role == "tool"@ {
            lemma_tools_end(a, i);
            let end = tools_end(a, i);
            lemma_tools_end_within(a, b, i);
            lemma_outputs_within(a, b, i, end);
            lemma_turns_within(a, b, end);
            let part = outputs_block(tool_outputs(a, i, end));
            assert(Seq::empty().push(part) + (turn_parts(a, end) + turn_parts(b, 0))
                =~= Seq::empty().push(part) + turn_parts(a, end) + turn_parts(b, 0));
        } else {
            lemma_turns_within(a, b, i + 1);
            let part = message_text(a[i]);
            assert(Seq::empty().push(part) + (turn_parts(a, i + 1) + turn_parts(b, 0))
                =~= Seq::empty().push(part) + turn_parts(a, i + 1) + turn_parts(b, 0));
        }
    }
}

/// The parts of a conversation follow its messages: those of its beginning, then
/// those of its rest, wherever no run of tool results is cut.
pub proof fn law_turns_follow_the_conversation(a: Seq<MessageV>, b: Seq<MessageV>)
    requires
        b.len() == 0 || b[0].role != "tool"@ || a.len() > 0 && a.last().role != "tool"@,
    ensures
        turn_parts(a + b, 0) == turn_parts(a, 0) + turn_parts(b, 0),
{
    lemma_turns_within(a, b, 0);
}

/// A message that only says something is its role's tag and what it says; one of
/// the user begins with the end of the sentence before.
pub proof fn law_plain_turn(m: MessageV, said: Seq<char>)
    requires
        m.role != "tool"@,
        m.content == Some(MessageContentV::Text(said)),
        m.name is None && m.tool_calls is None && m.function_call is None && m.refusal is None,
    ensures
        ({
            let tagged = "<｜"@ + capitalized(m.role) + "｜>"@ + said;
            turn_parts(seq![m], 0) == seq![
                if m.role == "user"@ {
                    "<｜end▁of▁sentence｜>"@ + tagged
                } else {
                    tagged
                },
            ]
        }),
{
    reveal_strlit("");
    let tagged = "<｜"@ + capitalized(m.role) + "｜>"@ + said;
    assert(seq![m][0] == m);
    assert(turn_parts(seq![m], 1) =~= Seq::empty());
    assert(turn_parts(seq![m], 0) =~= seq![message_text(m)]);
    assert(named_lines(m) =~= seq![said]);
    assert(assistant_lines(m) =~= seq![said]);
    assert(as_lines(seq![said]) == said);
    if m.role == "user"@ {
        assert("user"@ != "assistant"@) by {
            reveal_strlit("user");
            reveal_strlit("assistant");
            assert("user"@.len() != "assistant"@.len());
        }
        assert(message_text(m) =~= "<｜end▁of▁sentence｜>"@ + tagged);
    } else {
        assert(message_text(m) =~= tagged);
    }
}

/// Only the first letter of a role changes in its tag, and only a small one, to
/// the capital.
pub proof fn law_tag_capitalizes_the_first_letter(role: Seq<char>)
    ensures
        ({
            let c = capitalized(role);
            &&& c.len() == role.len()
            &&& forall|i: int| 0 < i < role.len() ==> #[trigger] c[i] == role[i]
            &&& role.len() > 0 && 'a' as int <= role[0] as int <= 'z' as int ==> c[0] as int
                == role[0] as int - 'a' as int + 'A' as int
            &&& role.len() > 0 && !('a' as int <= role[0] as int <= 'z' as int) ==> c[0] == role[0]
            &&& tag_text(role) == "<｜"@ + c + "｜>"@
        }),
{
}

proof fn lemma_call_listed(calls: Seq<ToolCallV>, n: int, k: int) -> (j: int)
    requires
        0 <= k < n <= calls.len(),
        calls[k].function is Some,
    ensures
        0 <= j < call_items(calls, n).len(),
        call_items(calls, n)[j] == function_call_text(calls[k].function->0),
    decreases n,
{
    if k == n - 1 {
        call_items(calls, n - 1).len() as int
    } else {
        lemma_call_listed(calls, n - 1, k)
    }
}

/// What an assistant called is in the text of its message: every function call,
/// with its name and its arguments as JSON, between the tags of calls. So is
/// what it refused.
pub proof fn law_assistant_turn_tells_its_calls(m: MessageV, k: int)
    requires
        m.role == "assistant"@,
    ensures
        m.tool_calls matches Some(calls) ==> (0 <= k < calls.len() && calls[k].function is Some
            ==> text::occurs(
            message_text(m),
            "{\"name\": "@ + json::quoted(calls[k].function->0.name) + ", \"arguments\": "@
                + arguments_text(calls[k].function->0.arguments) + "}"@,
        )),
        m.function_call matches Some(f) ==> text::occurs(
            message_text(m),
            "<|tool▁calls▁begin|>"@ + "\n["@ + ("{\"name\": "@ + json::quoted(f.name)
                + ", \"arguments\": "@ + arguments_text(f.arguments) + "}"@) + "]\n"@
                + "<|tool▁calls▁end|>"@,
        ),
        m.refusal matches Some(t) ==> text::occurs(message_text(m), "(refusal: "@ + t + ")"@),
{
    let lines = assistant_lines(m);
    let whole = message_text(m);
    lemma_occurs_at_end(""@ + tag_text(m.role), as_lines(lines));
    let said: int = if m.content is Some { 1 } else { 0 };
    let called: int = if m.tool_calls is Some { 1 } else { 0 };
    let one: int = if m.function_call is Some { 1 } else { 0 };
    if let Some(calls) = m.tool_calls {
        if 0 <= k < calls.len() && calls[k].function is Some {
            let items = call_items(calls, calls.len() as int);
            let list = text::joined(items, ", "@, items.len() as int);
            let j = lemma_call_listed(calls, calls.len() as int, k);
            text::lemma_joined_holds(items, ", "@, items.len() as int, j);
            let block = calls_block(list);
            assert(block =~= (TOOL_CALL_START@ + "\n["@) + list + ("]\n"@ + TOOL_CALL_END@));
            text::lemma_occurs_between(
                TOOL_CALL_START@ + "\n["@,
                list,
                "]\n"@ + TOOL_CALL_END@,
            );
            text::lemma_occurs_through(block, list, items[j]);
            assert(lines[said] == block);
            text::lemma_joined_holds(lines, "\n"@, lines.len() as int, said);
            text::lemma_occurs_through(as_lines(lines), block, items[j]);
            text::lemma_occurs_through(whole, as_lines(lines), items[j]);
        }
    }
    if let Some(f) = m.function_call {
        let block = calls_block(function_call_text(f));
        assert(lines[said + called] == block);
        text::lemma_joined_holds(lines, "\n"@, lines.len() as int, said + called);
        text::lemma_occurs_through(whole, as_lines(lines), block);
    }
    if let Some(t) = m.refusal {
        let line = "(refusal: "@ + t + ")"@;
        assert(lines[said + called + one] == line);
        text::lemma_joined_holds(lines, "\n"@, lines.len() as int, said + called + one);
        text::lemma_occurs_through(whole, as_lines(lines), line);
    }
}

proof fn lemma_items_prefix(a: Seq<ToolCallV>, b: Seq<ToolCallV>, n: int)
    requires
        0 <= n <= a.len(),
    ensures
        call_items(a + b, n) == call_items(a, n),
    decreases n,
{
    if n > 0 {
        lemma_items_prefix(a, b, n - 1);
        assert((a + b)[n - 1] == a[n - 1]);
    }
}

/// Calls are written in their order, none left out and none twice.
pub proof fn law_calls_stand_in_order(a: Seq<ToolCallV>, b: Seq<ToolCallV>, n: int)
    requires
        0 <= n <= b.len(),
    ensures
        call_items(a + b, a.len() + n) == call_items(a, a.len() as int) + call_items(b, n),
    decreases n,
{
    if n == 0 {
        lemma_items_prefix(a, b, a.len() as int);
        assert(call_items(a, a.len() as int) + Seq::<Seq<char>>::empty() =~= call_items(
            a,
            a.len() as int,
        ));
    } else {
        law_calls_stand_in_order(a, b, n - 1);
        assert((a + b)[a.len() + n - 1] == b[n - 1]);
        assert(call_items(a + b, a.len() + n) =~= call_items(a, a.len() as int) + call_items(b, n));
    }
}

/// Arguments that are JSON are printed as that JSON, others as `null`.
pub proof fn law_arguments_stay_json(arguments: Seq<char>)
    ensures
        json::parsed(arguments) matches Some(v) ==> (json::printed(v) matches Some(t)
            ==> arguments_text(arguments) == t),
        json::parsed(arguments) is None ==> arguments_text(arguments) == "null"@,
{
}

/// The name of whoever speaks stands before what is said, on a line of its own.
pub proof fn law_names_come_first(m: MessageV, name: Seq<char>, said: Seq<char>)
    requires
        m.role != "tool"@,
        m.role != "assistant"@,
        m.name == Some(name),
        m.content == Some(MessageContentV::Text(said)),
    ensures
        ({
            let whole = message_text(m);
            let end = tag_text(m.role) + ("(name: "@ + name + ")"@ + "\n"@ + said);
            text::stands_at(whole, end, whole.len() - end.len())
        }),
{
    let line = "(name: "@ + name + ")"@;
    let lines = named_lines(m);
    assert(lines =~= seq![line, said]);
    reveal_with_fuel(text::joined, 3);
    assert(as_lines(lines) =~= line + "\n"@ + said);
    let whole = message_text(m);
    let end = tag_text(m.role) + (line + "\n"@ + said);
    assert(whole.subrange(whole.len() - end.len(), whole.len() as int) =~= end);
}

/// A part of a message is shown as what it is: text and refusals as they are,
/// pictures by their address where they have one, sounds by their format, files
/// by their name, all else by its type.
pub proof fn law_parts_are_shown(part: ContentPartV)
    ensures
        ({
            let shown = part_text(part);
            let linked = part.image_url matches Some(img) && (text::stands_at(
                img.url,
                "http://"@,
                0,
            ) || text::stands_at(img.url, "https://"@, 0));
            &&& part.ty == "text"@ ==> shown == or_else(part.text, ""@)
            &&& part.ty == "refusal"@ ==> shown == or_else(part.refusal, ""@)
            &&& part.ty == "image_url"@ && linked ==> text::occurs(shown, part.image_url->0.url)
            &&& part.ty == "input_audio"@ && part.input_audio is Some ==> text::occurs(
                shown,
                part.input_audio->0.format,
            )
            &&& part.ty == "file"@ ==> (part.file matches Some(f) ==> (f.filename matches Some(n)
                ==> text::occurs(shown, n)))
            &&& part.ty == "file"@ ==> (part.text matches Some(d) ==> text::occurs(shown, d))
            &&& part.ty != "text"@ && part.ty != "refusal"@ && part.ty != "image_url"@ && part.ty
                != "input_audio"@ && part.ty != "file"@ ==> text::occurs(shown, part.ty)
        }),
{
    reveal_strlit("text");
    reveal_strlit("refusal");
    reveal_strlit("image_url");
    reveal_strlit("input_audio");
    reveal_strlit("file");
    assert("text"@.len() == 4 && "refusal"@.len() == 7 && "image_url"@.len() == 9
        && "input_audio"@.len() == 11 && "file"@.len() == 4);
    assert("text"@[0] != "file"@[0]);
    let shown = part_text(part);
    if part.ty == "image_url"@ {
        if let Some(img) = part.image_url {
            text::lemma_occurs_between("[Hãy truy cập liên kết này: "@, img.url, "]"@);
        }
    } else if part.ty == "input_audio"@ {
        if let Some(a) = part.input_audio {
            text::lemma_occurs_between("[Âm thanh: format="@, a.format, "]"@);
        }
    } else if part.ty == "file"@ {
        let name = match part.file {
            Some(f) => or_else(f.filename, "unknown"@),
            None => "unknown"@,
        };
        text::lemma_occurs_between("[Tệp: filename="@, name, "]"@);
        if let Some(d) = part.text {
            if d.len() > 0 {
                assert(shown =~= "[Tệp: "@ + d + (" (filename="@ + name + ")]"@));
                text::lemma_occurs_between("[Tệp: "@, d, " (filename="@ + name + ")]"@);
                assert(shown =~= ("[Tệp: "@ + d + " (filename="@) + name + ")]"@);
                text::lemma_occurs_between("[Tệp: "@ + d + " (filename="@, name, ")]"@);
            } else {
                lemma_nothing_occurs(shown, d);
            }
        }
    } else if part.ty != "text"@ && part.ty != "refusal"@ {
        text::lemma_occurs_between("[Loại nội dung chưa được hỗ trợ: "@, part.ty, "]"@);
    }
}

/// Parts are shown one to a line, in their order; a text is shown as it is.
pub proof fn law_content_is_shown_in_order(a: Seq<ContentPartV>, b: Seq<ContentPartV>)
    requires
        a.len() > 0,
        b.len() > 0,
    ensures
        content_text(MessageContentV::Parts(a + b)) == content_text(MessageContentV::Parts(a))
            + "\n"@ + content_text(MessageContentV::Parts(b)),
        content_text(MessageContentV::Parts(seq![a[0]])) == part_text(a[0]),
{
    assert(part_texts(a + b) =~= part_texts(a) + part_texts(b));
    text::law_joining_goes_in_order(part_texts(a), part_texts(b), "\n"@, b.len() as int);
    assert(part_texts(seq![a[0]])[0] == part_text(a[0]));
}

/// A demanded format is told where it is one: a schema is told with its JSON, an
/// unknown format by its name, plain text not at all.
pub proof fn law_format_is_told(req: ChatCompletionsRequest, ctx: ToolContextV, rf: ResponseFormat)
    requires
        req.response_format == Some(rf),
    ensures
        rf.ty@ == "text"@ ==> request_format(req).len() == 0,
        rf.ty@ != "text"@ ==> request_format(req).len() > 0 && text::occurs(
            prompt_text(req, ctx),
            request_format(req),
        ),
        rf.ty@ == "json_schema"@ ==> (rf.json_schema matches Some(s) ==> (json::printed(s) matches
            Some(t) ==> text::occurs(request_format(req), t))),
        rf.ty@ != "text"@ && rf.ty@ != "json_schema"@ && rf.ty@ != "json_object"@ ==> text::occurs(
            request_format(req),
            rf.ty@,
        ),
{
    reveal_strlit("");
    reveal_strlit("text");
    reveal_strlit("json_schema");
    reveal_strlit("json_object");
    assert("text"@.len() != "json_schema"@.len());
    assert("json_object"@[5] != "json_schema"@[5]);
    let demand = request_format(req);
    if rf.ty@ == "json_object"@ {
        reveal_strlit(
            "Hãy xuất trực tiếp một đối tượng JSON hợp lệ, không kèm code block markdown hoặc văn bản giải thích khác.",
        );
    } else if rf.ty@ == "json_schema"@ {
        reveal_strlit("Xuất ở dạng JSON.");
        if let Some(s) = rf.json_schema {
            if let Some(t) = json::printed(s) {
                if t.len() == 0 {
                    lemma_nothing_occurs(demand, t);
                } else {
                    text::lemma_occurs_between(
                        "Xuất ở dạng JSON; JSON đầu ra phải tuân theo định dạng sau:\n\n~~~json\n"@,
                        t,
                        "\n~~~"@,
                    );
                }
            }
        }
    } else if rf.ty@ != "text"@ {
        reveal_strlit(".");
        text::lemma_occurs_between("Hãy xuất theo định dạng "@, rf.ty@, "."@);
    }
    if rf.ty@ != "text"@ {
        let lines = reminders(ctx, demand);
        let line = "## Định dạng đầu ra\n"@ + demand;
        assert(lines.last() == line);
        lemma_occurs_at_end("## Định dạng đầu ra\n"@, demand);
        text::lemma_joined_holds(lines, "\n\n"@, lines.len() as int, lines.len() - 1);
        text::lemma_occurs_through(as_blocks(lines), line, demand);
        lemma_prompt_holds_reminders(req, ctx);
        text::lemma_occurs_through(prompt_text(req, ctx), as_blocks(lines), demand);
    }
}

proof fn lemma_prompt_holds_reminders(req: ChatCompletionsRequest, ctx: ToolContextV)
    requires
        reminders(ctx, request_format(req)).len() > 0,
    ensures
        text::occurs(prompt_text(req, ctx), as_blocks(reminders(ctx, request_format(req)))),
{
    let lines = reminders(ctx, request_format(req));
    let reminder = as_blocks(lines);
    let part = think_part(lines);
    law_reminders_come_last(req, ctx);
    let prompt = prompt_text(req, ctx);
    text::lemma_find_is_first(prompt, part, 0, prompt.len() - part.len());
    let head = "<｜Assistant｜><think>"@;
    let lead = "Tôi vừa được hệ thống nhắc cần tuân thủ nội dung sau:\n\n"@;
    assert(part =~= (head + lead) + reminder + "\n"@);
    text::lemma_occurs_between(head + lead, reminder, "\n"@);
    text::lemma_occurs_through(prompt, part, reminder);
}

/// All that is to be told of the tools is told in the prompt: how a call is
/// written, which tools there are, and what the request demands.
pub proof fn law_tool_context_is_told(req: ChatCompletionsRequest, ctx: ToolContextV)
    ensures
        ctx.format_block matches Some(t) ==> text::occurs(prompt_text(req, ctx), t),
        ctx.defs_text matches Some(t) ==> text::occurs(prompt_text(req, ctx), t),
        ctx.instruction_text matches Some(t) ==> text::occurs(prompt_text(req, ctx), t),
{
    let sections = tool_sections(ctx);
    let all = text::joined(sections, "\n\n"@, sections.len() as int);
    let lines = reminders(ctx, request_format(req));
    if sections.len() > 0 {
        let tools = "## Gọi công cụ\n"@ + all;
        assert(lines[0] == tools);
        lemma_occurs_at_end("## Gọi công cụ\n"@, all);
        text::lemma_joined_holds(lines, "\n\n"@, lines.len() as int, 0);
        lemma_prompt_holds_reminders(req, ctx);
        text::lemma_occurs_through(prompt_text(req, ctx), as_blocks(lines), tools);
        text::lemma_occurs_through(prompt_text(req, ctx), tools, all);
    }
    let first: int = if ctx.format_block is Some { 1 } else { 0 };
    let second: int = if ctx.defs_text is Some { 1 } else { 0 };
    if let Some(t) = ctx.format_block {
        let section = "### Quy chuẩn định dạng\n"@ + t;
        assert(sections[0] == section);
        text::lemma_joined_holds(sections, "\n\n"@, sections.len() as int, 0);
        lemma_occurs_at_end("### Quy chuẩn định dạng\n"@, t);
        text::lemma_occurs_through(prompt_text(req, ctx), all, section);
        text::lemma_occurs_through(prompt_text(req, ctx), section, t);
    }
    if let Some(t) = ctx.defs_text {
        let section = "### Định nghĩa công cụ\n"@ + t;
        assert(sections[first] == section);
        text::lemma_joined_holds(sections, "\n\n"@, sections.len() as int, first);
        lemma_occurs_at_end("### Định nghĩa công cụ\n"@, t);
        text::lemma_occurs_through(prompt_text(req, ctx), all, section);
        text::lemma_occurs_through(prompt_text(req, ctx), section, t);
    }
    if let Some(t) = ctx.instruction_text {
        let section = "### Chỉ dẫn gọi\n"@ + t;
        assert(sections[first + second] == section);
        text::lemma_joined_holds(sections, "\n\n"@, sections.len() as int, first + second);
        lemma_occurs_at_end("### Chỉ dẫn gọi\n"@, t);
        text::lemma_occurs_through(prompt_text(req, ctx), all, section);
        text::lemma_occurs_through(prompt_text(req, ctx), section, t);
    }
}

/// The turns keep their places in the prompt: they follow one another as in the
/// conversation, and only the first part of the system is added to, or a part of
/// the system comes before them. Without anything to keep in mind, they are all
/// that the prompt holds but for the opening of the answer.
pub proof fn law_turns_keep_their_places(req: ChatCompletionsRequest, ctx: ToolContextV, p: int)
    requires
        ({
            let messages = merged(req.messages.deep_view(), req.messages@.len() as int);
            0 <= p < turn_parts(messages, 0).len()
        }),
    ensures
        ({
            let messages = merged(req.messages.deep_view(), req.messages@.len() as int);
            let turns = turn_parts(messages, 0);
            let parts = prompt_parts(req, ctx);
            let told = reminders(ctx, request_format(req)).len() > 0;
            let system = first_tagged(turns, "<｜System｜>"@, 0);
            &&& !told ==> parts[p] == turns[p] && (parts.len() == turns.len() || parts.len()
                == turns.len() + 1 && parts.last() == "<｜Assistant｜>\n"@)
            &&& told && system is Some ==> parts.len() == turns.len() + 1 && (system != Some(p)
                ==> parts[p] == turns[p])
            &&& told && system is None ==> parts.len() == turns.len() + 2 && parts[p + 1]
                == turns[p]
        }),
{
    let messages = merged(req.messages.deep_view(), req.messages@.len() as int);
    let turns = turn_parts(messages, 0);
    let all = reminders(ctx, request_format(req));
    if all.len() > 0 {
        lemma_think_part_opens(all);
        lemma_found_tagged(turns, "<｜System｜>"@, 0);
        let told = with_system(turns, as_blocks(all));
        assert(prompt_parts(req, ctx) == told.push(think_part(all)));
    }
}

/// What is put into a part comes after all that the part holds, and before a line
/// break that ends it.
pub proof fn law_inner_text_comes_last(s: Seq<char>, inner: Seq<char>)
    ensures
        with_inner(s + "\n"@, inner) == s + inner + "\n"@,
        s.len() == 0 || s.last() != '\n' ==> with_inner(s, inner) == s + inner + "\n"@,
{
    reveal_strlit("\n");
    let t = s + "\n"@;
    assert(t.last() == '\n');
    assert(t.drop_last() =~= s);
}

} // verus!
