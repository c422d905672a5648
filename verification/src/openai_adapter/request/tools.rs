//! Checking the tools of a request and describing them in words.

use vstd::prelude::*;

use crate::json;
use crate::json::Json;
use crate::openai_adapter::response::{TOOL_CALL_END, TOOL_CALL_START};
use crate::openai_adapter::types::{
    AllowedTools, ChatCompletionsRequest, CustomTool, CustomToolFormat, FunctionDefinition, Tool,
    ToolChoice,
};
use crate::text;

verus! {

/// What the prompt says of the tools of a request.
#[derive(Debug)]
pub struct ToolContext {
    /// The format of a call, its rules and examples.
    pub format_block: Option<String>,
    /// The definitions of the tools.
    pub defs_text: Option<String>,
    /// What the choice of tools demands.
    pub instruction_text: Option<String>,
}

/// The model of a `ToolContext`.
#[verifier::ext_equal]
pub struct ToolContextV {
    pub format_block: Option<Seq<char>>,
    pub defs_text: Option<Seq<char>>,
    pub instruction_text: Option<Seq<char>>,
}

impl View for ToolContext {
    type V = ToolContextV;

    open spec fn view(&self) -> ToolContextV {
        ToolContextV {
            format_block: self.format_block.deep_view(),
            defs_text: self.defs_text.deep_view(),
            instruction_text: self.instruction_text.deep_view(),
        }
    }
}

/// The tools of a request, none where the field is missing.
pub open spec fn tools_of(req: ChatCompletionsRequest) -> Seq<Tool> {
    match req.tools {
        Some(t) => t@,
        None => Seq::empty(),
    }
}

fn has_tools(req: &ChatCompletionsRequest) -> (r: bool)
    ensures
        r == (tools_of(*req).len() > 0),
{
    match &req.tools {
        Some(t) => t.len() > 0,
        None => false,
    }
}

/// Why a choice of tools cannot be met, `None` where it can.
pub open spec fn choice_error(tc: ToolChoice, tools: Option<Seq<Tool>>) -> Option<Seq<char>> {
    match tc {
        ToolChoice::Mode(mode) => if mode@ != "none"@ && mode@ != "auto"@ && mode@ != "required"@ {
            Some("Chế độ tool_choice không hợp lệ: "@ + mode@)
        } else if mode@ != "none"@ && (tools is None || tools->0.len() == 0) {
            Some("Khi tool_choice là 'auto' hoặc 'required' thì phải cung cấp tools"@)
        } else {
            None
        },
        ToolChoice::Named(_) | ToolChoice::Custom(_) => if tools is None {
            Some("Khi tool_choice chỉ định công cụ cụ thể thì phải cung cấp tools"@)
        } else {
            None
        },
        ToolChoice::AllowedTools(choice) => if tools is None {
            Some("Khi tool_choice chỉ định allowed_tools thì phải cung cấp tools"@)
        } else if choice.allowed_tools.mode@ != "auto"@ && choice.allowed_tools.mode@
            != "required"@ {
            Some(
                "allowed_tools.mode phải là 'auto' hoặc 'required', nhận được: "@
                    + choice.allowed_tools.mode@,
            )
        } else {
            None
        },
    }
}

/// The sequence of tools behind an optional list.
pub open spec fn opt_tools(tools: Option<Vec<Tool>>) -> Option<Seq<Tool>> {
    match tools {
        Some(t) => Some(t@),
        None => None,
    }
}

/// Checks that a choice of tools can be met.
pub fn validate_tool_choice(tc: &ToolChoice, tools: &Option<Vec<Tool>>) -> (r: Result<(), String>)
    ensures
        match r {
            Ok(_) => choice_error(*tc, opt_tools(*tools)) is None,
            Err(e) => choice_error(*tc, opt_tools(*tools)) == Some(e@),
        },
{
    match tc {
        ToolChoice::Mode(mode) => {
            let none = text::same(mode.as_str(), "none");
            if !none && !text::same(mode.as_str(), "auto") && !text::same(
                mode.as_str(),
                "required",
            ) {
                return Err(text::cat2("Chế độ tool_choice không hợp lệ: ", mode.as_str()));
            }
            let empty = match tools {
                Some(t) => t.len() == 0,
                None => true,
            };
            if !none && empty {
                return Err(
                    "Khi tool_choice là 'auto' hoặc 'required' thì phải cung cấp tools".to_owned(),
                );
            }
            Ok(())
        },
        ToolChoice::Named(_) | ToolChoice::Custom(_) => {
            if tools.is_none() {
                return Err(
                    "Khi tool_choice chỉ định công cụ cụ thể thì phải cung cấp tools".to_owned(),
                );
            }
            Ok(())
        },
        ToolChoice::AllowedTools(choice) => {
            if tools.is_none() {
                return Err(
                    "Khi tool_choice chỉ định allowed_tools thì phải cung cấp tools".to_owned(),
                );
            }
            let mode = choice.allowed_tools.mode.as_str();
            if !text::same(mode, "auto") && !text::same(mode, "required") {
                return Err(
                    text::cat2(
                        "allowed_tools.mode phải là 'auto' hoặc 'required', nhận được: ",
                        mode,
                    ),
                );
            }
            Ok(())
        },
    }
}

/// The function names that the first `n` entries of a list of tools hold.
pub open spec fn allowed_names(tools: Seq<Json>, n: int) -> Seq<Seq<char>>
    decreases n,
{
    if n <= 0 {
        Seq::empty()
    } else {
        match tools[n - 1].member("function"@) {
            Some(f) => match f.string_member("name"@) {
                Some(name) => allowed_names(tools, n - 1).push(name),
                None => allowed_names(tools, n - 1),
            },
            None => allowed_names(tools, n - 1),
        }
    }
}

/// The demand that some tool be called.
pub open spec fn must_call_line() -> Seq<char> {
    "**Lưu ý: bạn phải gọi một hoặc nhiều công cụ.**"@
}

/// What a choice among some tools demands.
pub open spec fn allowed_lines(allowed: AllowedTools) -> Seq<Seq<char>> {
    let names = match allowed.tools {
        Some(t) => allowed_names(t@, t@.len() as int),
        None => Seq::empty(),
    };
    let choice = if names.len() > 0 {
        Seq::empty().push(
            "**Lưu ý:** bạn chỉ được chọn trong các công cụ được phép sau: "@ + text::joined(
                names,
                ", "@,
                names.len() as int,
            ) + "."@,
        )
    } else {
        Seq::empty()
    };
    if allowed.mode@ == "required"@ {
        choice.push(must_call_line())
    } else {
        choice
    }
}

/// Adds what a choice among some tools demands to no lines.
fn build_allowed_tools_instruction(allowed: &AllowedTools) -> (lines: Vec<String>)
    ensures
        text::strs(lines@) == allowed_lines(*allowed),
{
    let mut lines: Vec<String> = Vec::new();
    assert(text::strs(lines@) =~= Seq::empty());
    if let Some(list) = &allowed.tools {
        let mut names: Vec<String> = Vec::new();
        let mut i: usize = 0;
        assert(text::strs(names@) =~= Seq::empty());
        while i < list.len()
            invariant
                i <= list@.len(),
                text::strs(names@) == allowed_names(list@, i as int),
            decreases list@.len() - i,
        {
            if let Some(f) = list[i].get("function") {
                if let Some(name) = f.get_str("name") {
                    text::add_line(&mut names, name.as_str());
                }
            }
            i += 1;
        }
        if names.len() > 0 {
            let all = text::join(&names, ", ");
            let line = text::cat3(
                "**Lưu ý:** bạn chỉ được chọn trong các công cụ được phép sau: ",
                all.as_str(),
                ".",
            );
            text::add_line(&mut lines, line.as_str());
        }
    }
    if text::same(allowed.mode.as_str(), "required") {
        text::add_line(&mut lines, "**Lưu ý: bạn phải gọi một hoặc nhiều công cụ.**");
    }
    lines
}

/// A text without the white space at its ends, empty where it is missing.
pub open spec fn trimmed_or_empty(o: Option<String>) -> Seq<char> {
    match o {
        Some(d) => text::trimmed(d@),
        None => Seq::empty(),
    }
}

fn trim_or_empty(o: &Option<String>) -> (r: String)
    ensures
        r@ == trimmed_or_empty(*o),
{
    match o {
        Some(d) => text::trim(d.as_str()),
        None => String::new(),
    }
}

/// The JSON text of a function's parameters.
pub open spec fn params_text(params: Json) -> Seq<char> {
    match json::printed(params) {
        Some(t) => t,
        None => "{}"@,
    }
}

/// The description of a function, given the JSON text of its parameters.
pub open spec fn function_text(func: FunctionDefinition, params: Seq<char>) -> Result<
    Seq<char>,
    Seq<char>,
> {
    if text::trimmed(func.name@).len() == 0 {
        Err("function trong tools thiếu trường bắt buộc 'name'"@)
    } else {
        let call = TOOL_CALL_START@ + "[{\"name\": \""@ + func.name@ + "\", \"arguments\": "@
            + params + "}]"@ + TOOL_CALL_END@;
        let desc = trimmed_or_empty(func.description);
        let block = if desc.len() == 0 {
            "  Không có mô tả"@
        } else {
            "~~~markdown\n  "@ + desc + "\n~~~\n"@
        };
        Ok(
            "- **"@ + func.name@ + "** (function):\n  - Cách gọi: `"@ + call
                + "`\n  - Mô tả ngắn:\n"@ + block,
        )
    }
}

/// The text of a result, kept apart by success and failure.
pub open spec fn text_result(r: Result<String, String>) -> Result<Seq<char>, Seq<char>> {
    match r {
        Ok(s) => Ok(s@),
        Err(e) => Err(e@),
    }
}

/// Describes a function, given the JSON text of its parameters.
pub fn describe_function(func: &FunctionDefinition, params: &str) -> (r: Result<String, String>)
    ensures
        text_result(r) == function_text(*func, params@),
{
    let name = text::trim(func.name.as_str());
    if name.as_str().is_empty() {
        return Err("function trong tools thiếu trường bắt buộc 'name'".to_owned());
    }
    let call = text::cat7(
        TOOL_CALL_START,
        "[{\"name\": \"",
        func.name.as_str(),
        "\", \"arguments\": ",
        params,
        "}]",
        TOOL_CALL_END,
    );
    let desc = trim_or_empty(&func.description);
    let block = if desc.as_str().is_empty() {
        "  Không có mô tả".to_owned()
    } else {
        text::cat3("~~~markdown\n  ", desc.as_str(), "\n~~~\n")
    };
    Ok(
        text::cat6(
            "- **",
            func.name.as_str(),
            "** (function):\n  - Cách gọi: `",
            call.as_str(),
            "`\n  - Mô tả ngắn:\n",
            block.as_str(),
        ),
    )
}

/// Describes a function.
fn format_function(func: &FunctionDefinition) -> (r: Result<String, String>)
    ensures
        text_result(r) == function_text(*func, params_text(func.parameters)),
{
    let params = match json::print(&func.parameters) {
        Some(t) => t,
        None => "{}".to_owned(),
    };
    describe_function(func, params.as_str())
}

/// The description of a custom tool.
pub open spec fn custom_text(custom: CustomTool) -> Seq<char> {
    let method = match custom.format {
        Some(CustomToolFormat::Text) => "text"@,
        Some(CustomToolFormat::Grammar { grammar }) => "grammar(syntax: "@ + grammar.syntax@
            + ")"@,
        None => "Không ràng buộc"@,
    };
    let desc = trimmed_or_empty(custom.description);
    "- **"@ + custom.name@ + "** (custom):\n  - Cách gọi: `"@ + method + "`\n  - Mô tả ngắn: "@
        + (if desc.len() == 0 {
        "Không có mô tả"@
    } else {
        desc
    })
}

/// Describes a custom tool.
pub fn format_custom(custom: &CustomTool) -> (r: String)
    ensures
        r@ == custom_text(*custom),
{
    let method = match &custom.format {
        Some(CustomToolFormat::Text) => "text".to_owned(),
        Some(CustomToolFormat::Grammar { grammar }) => text::cat3(
            "grammar(syntax: ",
            grammar.syntax.as_str(),
            ")",
        ),
        None => "Không ràng buộc".to_owned(),
    };
    let trimmed = trim_or_empty(&custom.description);
    let desc = if trimmed.as_str().is_empty() {
        "Không có mô tả".to_owned()
    } else {
        trimmed
    };
    text::cat6(
        "- **",
        custom.name.as_str(),
        "** (custom):\n  - Cách gọi: `",
        method.as_str(),
        "`\n  - Mô tả ngắn: ",
        desc.as_str(),
    )
}

/// The description of the tool at position `idx` of a request.
pub open spec fn tool_text(tool: Tool, idx: int) -> Result<Seq<char>, Seq<char>> {
    let place = "tools["@ + text::decimal(idx as nat);
    if tool.ty@ == "function"@ {
        match tool.function {
            Some(func) => function_text(func, params_text(func.parameters)),
            None => Err(
                place + "] có type 'function' thì phải cung cấp định nghĩa function"@,
            ),
        }
    } else if tool.ty@ == "custom"@ {
        match tool.custom {
            Some(custom) => Ok(custom_text(custom)),
            None => Err(place + "] có type 'custom' thì phải cung cấp định nghĩa custom"@),
        }
    } else {
        Err(place + "] có type không được hỗ trợ: "@ + tool.ty@)
    }
}

/// Describes the tool at position `idx` of a request.
pub fn format_tool(tool: &Tool, idx: usize) -> (r: Result<String, String>)
    ensures
        text_result(r) == tool_text(*tool, idx as int),
{
    let number = text::decimal_of(idx as u64);
    if text::same(tool.ty.as_str(), "function") {
        match &tool.function {
            Some(func) => format_function(func),
            None => Err(
                text::cat3(
                    "tools[",
                    number.as_str(),
                    "] có type 'function' thì phải cung cấp định nghĩa function",
                ),
            ),
        }
    } else if text::same(tool.ty.as_str(), "custom") {
        match &tool.custom {
            Some(custom) => Ok(format_custom(custom)),
            None => Err(
                text::cat3(
                    "tools[",
                    number.as_str(),
                    "] có type 'custom' thì phải cung cấp định nghĩa custom",
                ),
            ),
        }
    } else {
        Err(
            text::cat4(
                "tools[",
                number.as_str(),
                "] có type không được hỗ trợ: ",
                tool.ty.as_str(),
            ),
        )
    }
}

/// The format of a call and its rules.
pub open spec fn rule_lines() -> Seq<Seq<char>> {
    seq![
        "**Định dạng gọi công cụ - hãy tuân thủ nghiêm ngặt:**"@,
        ""@,
        "Bọc mảng JSON bằng thẻ gọi công cụ:"@,
        ""@,
        TOOL_CALL_START@ + "[{\"name\": \"tên_công_cụ\", \"arguments\": {JSON_tham_số}}]"@ + TOOL_CALL_END@,
        ""@,
        "**Quy tắc:**"@,
        ""@,
        "**Cốt lõi: khi quyết định gọi công cụ, phản hồi chỉ được chứa chính văn bản gọi công cụ; cấm mọi giải thích, tiền tố, tóm tắt, lời chào hoặc nội dung thừa.**"@,
        ""@,
        "1. Mảng JSON phải bắt đầu bằng `"@ + TOOL_CALL_START@ + "` và kết thúc bằng `"@ + TOOL_CALL_END@ + "`; mảng phải được **bọc trọn vẹn** trong thẻ."@,
        "2. Mọi lệnh gọi công cụ phải nằm trong **một** mảng JSON; nhiều lệnh gọi phân tách bằng dấu phẩy."@,
        "3. Sau khi xuất `"@ + TOOL_CALL_END@ + "`, **dừng ngay**; không thêm văn bản, thẻ XML hoặc chú thích phía sau."@,
        "4. Không bọc lệnh gọi công cụ trong code block markdown."@,
        "5. Giá trị tham số kiểu chuỗi phải được bọc bằng **dấu nháy kép** (chuẩn JSON)."@,
        "6. Khi quyết định gọi công cụ, **ký tự không trắng đầu tiên** trong output phải là `"@ + TOOL_CALL_START@ + "`."@,
        "7. Toàn bộ phản hồi **chỉ được có một khối `"@ + TOOL_CALL_START@ + "`**; không xuất lặp nhiều khối `"@ + TOOL_CALL_START@ + "`."@,
        "8. **Nhắc lại:** toàn bộ phản hồi chỉ được có một khối `"@ + TOOL_CALL_START@ + "`. Nếu đã xuất một khối `"@ + TOOL_CALL_START@ + "`, tuyệt đối không xuất khối thứ hai."@,
        "9. **Nhắc lại:** cấm xuất bất kỳ chữ nào trước `"@ + TOOL_CALL_START@ + "`, gồm giải thích, xác nhận, tóm tắt, lời chào."@,
        "10. Không đặt phản hồi cuối hoặc lệnh gọi công cụ trong nội dung suy nghĩ."@,
        "11. **Nhắc lại:** nội dung suy nghĩ (trong thẻ <think>) chỉ dùng cho suy luận nội bộ; không đặt phản hồi cuối hoặc lệnh gọi công cụ trong thẻ <think>."@,
        ""@,
    ]
}

/// The format of a call and its rules.
fn rules() -> (lines: Vec<String>)
    ensures
        text::strs(lines@) == rule_lines(),
{
    let mut lines: Vec<String> = Vec::new();
    assert(text::strs(lines@) =~= Seq::empty());
    text::add_line(&mut lines, "**Định dạng gọi công cụ - hãy tuân thủ nghiêm ngặt:**");
    text::add_line(&mut lines, "");
    text::add_line(&mut lines, "Bọc mảng JSON bằng thẻ gọi công cụ:");
    text::add_line(&mut lines, "");
    text::add_line(
        &mut lines,
        text::cat3(TOOL_CALL_START, "[{\"name\": \"tên_công_cụ\", \"arguments\": {JSON_tham_số}}]", TOOL_CALL_END).as_str(),
    );
    text::add_line(&mut lines, "");
    text::add_line(&mut lines, "**Quy tắc:**");
    text::add_line(&mut lines, "");
    text::add_line(&mut lines, "**Cốt lõi: khi quyết định gọi công cụ, phản hồi chỉ được chứa chính văn bản gọi công cụ; cấm mọi giải thích, tiền tố, tóm tắt, lời chào hoặc nội dung thừa.**");
    text::add_line(&mut lines, "");
    text::add_line(
        &mut lines,
        text::cat5("1. Mảng JSON phải bắt đầu bằng `", TOOL_CALL_START, "` và kết thúc bằng `", TOOL_CALL_END, "`; mảng phải được **bọc trọn vẹn** trong thẻ.").as_str(),
    );
    text::add_line(&mut lines, "2. Mọi lệnh gọi công cụ phải nằm trong **một** mảng JSON; nhiều lệnh gọi phân tách bằng dấu phẩy.");
    text::add_line(
        &mut lines,
        text::cat3("3. Sau khi xuất `", TOOL_CALL_END, "`, **dừng ngay**; không thêm văn bản, thẻ XML hoặc chú thích phía sau.").as_str(),
    );
    text::add_line(&mut lines, "4. Không bọc lệnh gọi công cụ trong code block markdown.");
    text::add_line(&mut lines, "5. Giá trị tham số kiểu chuỗi phải được bọc bằng **dấu nháy kép** (chuẩn JSON).");
    text::add_line(
        &mut lines,
        text::cat3("6. Khi quyết định gọi công cụ, **ký tự không trắng đầu tiên** trong output phải là `", TOOL_CALL_START, "`.").as_str(),
    );
    text::add_line(
        &mut lines,
        text::cat5("7. Toàn bộ phản hồi **chỉ được có một khối `", TOOL_CALL_START, "`**; không xuất lặp nhiều khối `", TOOL_CALL_START, "`.").as_str(),
    );
    text::add_line(
        &mut lines,
        text::cat5("8. **Nhắc lại:** toàn bộ phản hồi chỉ được có một khối `", TOOL_CALL_START, "`. Nếu đã xuất một khối `", TOOL_CALL_START, "`, tuyệt đối không xuất khối thứ hai.").as_str(),
    );
    text::add_line(
        &mut lines,
        text::cat3("9. **Nhắc lại:** cấm xuất bất kỳ chữ nào trước `", TOOL_CALL_START, "`, gồm giải thích, xác nhận, tóm tắt, lời chào.").as_str(),
    );
    text::add_line(&mut lines, "10. Không đặt phản hồi cuối hoặc lệnh gọi công cụ trong nội dung suy nghĩ.");
    text::add_line(&mut lines, "11. **Nhắc lại:** nội dung suy nghĩ (trong thẻ <think>) chỉ dùng cho suy luận nội bộ; không đặt phản hồi cuối hoặc lệnh gọi công cụ trong thẻ <think>.");
    text::add_line(&mut lines, "");
    lines
}

/// Sample arguments for the tool named `name`.
pub open spec fn example_args_text(name: Seq<char>) -> Seq<char> {
    let args = if name == "Read"@ || name == "read_file"@ {
        "\"file_path\": \"/path/to/file\""@
    } else if name == "Bash"@ || name == "execute_command"@ || name == "exec_command"@ {
        "\"command\": \"ls -la\""@
    } else if name == "Write"@ || name == "write_to_file"@ {
        "\"file_path\": \"/path/to/file\", \"content\": \"hello\""@
    } else if name == "Edit"@ {
        "\"file_path\": \"/path/to/file\", \"old_string\": \"foo\", \"new_string\": \"bar\""@
    } else if name == "Glob"@ {
        "\"pattern\": \"**/*.rs\", \"path\": \".\""@
    } else if name == "search_files"@ {
        "\"query\": \"TODO\", \"path\": \".\""@
    } else if name == "get_weather"@ {
        "\"city\": \"Beijing\""@
    } else if name == "get_time"@ {
        "\"timezone\": \"Asia/Shanghai\""@
    } else if name == "list_files"@ {
        "\"path\": \".\""@
    } else {
        "\"key\": \"value\""@
    };
    "{"@ + args + "}"@
}

/// Sample arguments for the tool named `name`.
pub fn example_args(name: &str) -> (r: String)
    ensures
        r@ == example_args_text(name@),
{
    let args: &str = if text::same(name, "Read") || text::same(name, "read_file") {
        "\"file_path\": \"/path/to/file\""
    } else if text::same(name, "Bash") || text::same(name, "execute_command") || text::same(name, "exec_command") {
        "\"command\": \"ls -la\""
    } else if text::same(name, "Write") || text::same(name, "write_to_file") {
        "\"file_path\": \"/path/to/file\", \"content\": \"hello\""
    } else if text::same(name, "Edit") {
        "\"file_path\": \"/path/to/file\", \"old_string\": \"foo\", \"new_string\": \"bar\""
    } else if text::same(name, "Glob") {
        "\"pattern\": \"**/*.rs\", \"path\": \".\""
    } else if text::same(name, "search_files") {
        "\"query\": \"TODO\", \"path\": \".\""
    } else if text::same(name, "get_weather") {
        "\"city\": \"Beijing\""
    } else if text::same(name, "get_time") {
        "\"timezone\": \"Asia/Shanghai\""
    } else if text::same(name, "list_files") {
        "\"path\": \".\""
    } else {
        "\"key\": \"value\""
    };
    text::cat3("{", args, "}")
}

/// Sample nested arguments for the tool named `name`.
pub open spec fn example_nested_args_text(name: Seq<char>) -> Seq<char> {
    if name == "Edit"@ {
        "{\"file_path\": \"/path/to/file\", \"edits\": [{\"old_string\": \"foo\", \"new_string\": \"bar\"}, {\"old_string\": \"x\", \"new_string\": \"y\"}]}"@
    } else {
        "{\"config\": {\"enabled\": true, \"items\": [\"a\", \"b\"]}}"@
    }
}

/// Sample nested arguments for the tool named `name`.
pub fn example_nested_args(name: &str) -> (r: String)
    ensures
        r@ == example_nested_args_text(name@),
{
    if text::same(name, "Edit") {
        "{\"file_path\": \"/path/to/file\", \"edits\": [{\"old_string\": \"foo\", \"new_string\": \"bar\"}, {\"old_string\": \"x\", \"new_string\": \"y\"}]}".to_owned()
    } else {
        "{\"config\": {\"enabled\": true, \"items\": [\"a\", \"b\"]}}".to_owned()
    }
}

/// A sample call.
pub open spec fn call_text(name: Seq<char>, args: Seq<char>) -> Seq<char> {
    "{\"name\": \""@ + name + "\", \"arguments\": "@ + args + "}"@
}

/// Sample calls of the first `n` of some tools.
pub open spec fn sample_calls(names: Seq<Seq<char>>, n: int) -> Seq<Seq<char>>
    decreases n,
{
    if n <= 0 {
        Seq::empty()
    } else {
        sample_calls(names, n - 1).push(call_text(names[n - 1], example_args_text(names[n - 1])))
    }
}

/// A block of calls.
pub open spec fn call_block(calls: Seq<char>) -> Seq<char> {
    TOOL_CALL_START@ + "["@ + calls + "]"@ + TOOL_CALL_END@
}

/// The names of the functions among the first `n` tools.
pub open spec fn function_names(tools: Seq<Tool>, n: int) -> Seq<Seq<char>>
    decreases n,
{
    if n <= 0 {
        Seq::empty()
    } else {
        match tools[n - 1].function {
            Some(f) => function_names(tools, n - 1).push(f.name@),
            None => function_names(tools, n - 1),
        }
    }
}

/// A block with sample calls of the first `n` of some tools.
pub open spec fn sample_block(names: Seq<Seq<char>>, n: int) -> Seq<char> {
    call_block(text::joined(sample_calls(names, n), ", "@, n))
}

/// The examples that go with the rules, for tools of the given names.
pub open spec fn example_lines(names: Seq<Seq<char>>) -> Seq<Seq<char>> {
    let first = if names.len() > 0 {
        names[0]
    } else {
        "tool_a"@
    };
    let a = seq![
        "**Ví dụ đúng:**"@,
        ""@,
        "**Ví dụ A** - gọi một công cụ:"@,
        call_block(call_text(first, example_args_text(first))),
        ""@,
    ];
    let b = if names.len() >= 2 {
        seq![
            "**Ví dụ B** - gọi nhiều công cụ cùng lúc (một mảng chứa mọi lệnh gọi):"@,
            ""@,
            sample_block(names, 2),
            ""@,
        ]
    } else {
        Seq::empty()
    };
    let c = if names.len() >= 3 {
        seq![
            "**Ví dụ C** - gọi ba công cụ cùng lúc (mọi lệnh gọi nằm trong một mảng):"@,
            ""@,
            sample_block(names, 3),
            ""@,
        ]
    } else {
        Seq::empty()
    };
    let d = if names.len() > 0 {
        seq![
            "**Ví dụ D** - tham số là object/array lồng nhau (vẫn là JSON chuẩn):"@,
            ""@,
            call_block(call_text(first, example_nested_args_text(first))),
            ""@,
        ]
    } else {
        Seq::empty()
    };
    a + b + c + d
}

/// The format of a call, its rules and examples, for some tools.
pub open spec fn instruction_block(tools: Seq<Tool>) -> Seq<char> {
    let lines = rule_lines() + example_lines(function_names(tools, tools.len() as int));
    text::joined(lines, "\n"@, lines.len() as int)
}

fn sample_call(name: &str, args: &str) -> (r: String)
    ensures
        r@ == call_text(name@, args@),
{
    text::cat5("{\"name\": \"", name, "\", \"arguments\": ", args, "}")
}

fn wrap_calls(calls: &str) -> (r: String)
    ensures
        r@ == call_block(calls@),
{
    text::cat5(TOOL_CALL_START, "[", calls, "]", TOOL_CALL_END)
}

fn sample_calls_block(names: &Vec<String>, n: usize) -> (r: String)
    requires
        n <= names@.len(),
    ensures
        r@ == sample_block(text::strs(names@), n as int),
{
    let mut calls: Vec<String> = Vec::new();
    let mut i: usize = 0;
    assert(text::strs(calls@) =~= Seq::empty());
    while i < n
        invariant
            i <= n <= names@.len(),
            calls@.len() == i,
            text::strs(calls@) == sample_calls(text::strs(names@), i as int),
        decreases n - i,
    {
        let name = names[i].as_str();
        let call = sample_call(name, example_args(name).as_str());
        text::add_line(&mut calls, call.as_str());
        i += 1;
    }
    wrap_calls(text::join(&calls, ", ").as_str())
}

/// Adds four lines: a title, a blank, a sample and a blank.
fn add_example(lines: &mut Vec<String>, title: &str, sample: &str)
    ensures
        text::strs(final(lines)@) == text::strs(old(lines)@) + seq![title@, ""@, sample@, ""@],
{
    let ghost before = text::strs(lines@);
    text::add_line(lines, title);
    text::add_line(lines, "");
    text::add_line(lines, sample);
    text::add_line(lines, "");
    assert(text::strs(lines@) =~= before + seq![title@, ""@, sample@, ""@]);
}

/// The examples that go with the rules, for tools of the given names.
fn examples(names: &Vec<String>) -> (lines: Vec<String>)
    ensures
        text::strs(lines@) == example_lines(text::strs(names@)),
{
    let first: &str = if names.len() > 0 {
        names[0].as_str()
    } else {
        "tool_a"
    };
    let mut lines: Vec<String> = Vec::new();
    assert(text::strs(lines@) =~= Seq::empty());
    text::add_line(&mut lines, "**Ví dụ đúng:**");
    text::add_line(&mut lines, "");
    text::add_line(&mut lines, "**Ví dụ A** - gọi một công cụ:");
    let call = sample_call(first, example_args(first).as_str());
    text::add_line(&mut lines, wrap_calls(call.as_str()).as_str());
    text::add_line(&mut lines, "");
    if names.len() >= 2 {
        let sample = sample_calls_block(names, 2);
        add_example(
            &mut lines,
            "**Ví dụ B** - gọi nhiều công cụ cùng lúc (một mảng chứa mọi lệnh gọi):",
            sample.as_str(),
        );
    }
    if names.len() >= 3 {
        let sample = sample_calls_block(names, 3);
        add_example(
            &mut lines,
            "**Ví dụ C** - gọi ba công cụ cùng lúc (mọi lệnh gọi nằm trong một mảng):",
            sample.as_str(),
        );
    }
    if names.len() > 0 {
        let call = sample_call(first, example_nested_args(first).as_str());
        add_example(
            &mut lines,
            "**Ví dụ D** - tham số là object/array lồng nhau (vẫn là JSON chuẩn):",
            wrap_calls(call.as_str()).as_str(),
        );
    }
    assert(text::strs(lines@) =~= example_lines(text::strs(names@)));
    lines
}

/// The format of a call, its rules and examples, for some tools.
pub fn build_tool_instruction_block(tools: &Vec<Tool>) -> (r: String)
    ensures
        r@ == instruction_block(tools@),
{
    let mut names: Vec<String> = Vec::new();
    let mut i: usize = 0;
    assert(text::strs(names@) =~= Seq::empty());
    while i < tools.len()
        invariant
            i <= tools@.len(),
            text::strs(names@) == function_names(tools@, i as int),
        decreases tools@.len() - i,
    {
        if let Some(f) = &tools[i].function {
            text::add_line(&mut names, f.name.as_str());
        }
        i += 1;
    }
    let mut lines = rules();
    let mut more = examples(&names);
    let ghost a = text::strs(lines@);
    let ghost b = text::strs(more@);
    lines.append(&mut more);
    assert(text::strs(lines@) =~= a + b);
    text::join(&lines, "\n")
}

/// The title and the descriptions of the first `n` tools, or the first error.
pub open spec fn definition_lines(tools: Seq<Tool>, n: int) -> Result<Seq<Seq<char>>, Seq<char>>
    decreases n,
{
    if n <= 0 {
        Ok(seq!["Bạn có thể dùng các công cụ sau:"@])
    } else {
        match definition_lines(tools, n - 1) {
            Ok(lines) => match tool_text(tools[n - 1], n - 1) {
                Ok(t) => Ok(lines.push(t)),
                Err(e) => Err(e),
            },
            Err(e) => Err(e),
        }
    }
}

/// What a choice of tools demands.
pub open spec fn choice_lines(tc: ToolChoice) -> Seq<Seq<char>> {
    match tc {
        ToolChoice::Mode(mode) => if mode@ == "required"@ {
            Seq::empty().push(must_call_line())
        } else {
            Seq::empty()
        },
        ToolChoice::AllowedTools(choice) => allowed_lines(choice.allowed_tools),
        ToolChoice::Named(named) => Seq::empty().push(
            "**Lưu ý: bạn phải gọi công cụ '"@ + named.function.name@ + "'.**"@,
        ),
        ToolChoice::Custom(custom) => Seq::empty().push(
            "**Lưu ý: bạn phải gọi công cụ tùy chỉnh '"@ + custom.custom.name@ + "'.**"@,
        ),
    }
}

/// All demands of a request on how tools are called.
pub open spec fn demand_lines(req: ChatCompletionsRequest) -> Seq<Seq<char>> {
    let lines = match req.tool_choice {
        Some(tc) => choice_lines(tc),
        None => Seq::empty(),
    };
    if req.parallel_tool_calls == Some(false) {
        lines.push("**Lưu ý: mỗi lần chỉ được gọi một công cụ.**"@)
    } else {
        lines
    }
}

/// Whether a request asks for no tools: by its choice, or by naming neither a
/// choice nor tools.
pub open spec fn asks_for_none(req: ChatCompletionsRequest) -> bool {
    match req.tool_choice {
        Some(ToolChoice::Mode(mode)) => mode@ == "none"@,
        Some(_) => false,
        None => tools_of(req).len() == 0,
    }
}

/// What the prompt says of the tools of a request, or why they are refused.
pub open spec fn tool_context(req: ChatCompletionsRequest) -> Result<ToolContextV, Seq<char>> {
    let refused = match req.tool_choice {
        Some(tc) => choice_error(tc, opt_tools(req.tools)),
        None => None,
    };
    let tools = tools_of(req);
    if refused is Some {
        Err(refused->0)
    } else if asks_for_none(req) {
        Ok(ToolContextV { format_block: None, defs_text: None, instruction_text: None })
    } else {
        let demands = demand_lines(req);
        let instruction_text = if demands.len() == 0 {
            None
        } else {
            Some(text::joined(demands, "\n"@, demands.len() as int))
        };
        if tools.len() == 0 {
            Ok(ToolContextV { format_block: None, defs_text: None, instruction_text })
        } else {
            match definition_lines(tools, tools.len() as int) {
                Ok(lines) => Ok(
                    ToolContextV {
                        format_block: Some(instruction_block(tools)),
                        defs_text: Some(text::joined(lines, "\n"@, lines.len() as int)),
                        instruction_text,
                    },
                ),
                Err(e) => Err(e),
            }
        }
    }
}

/// What a choice of tools demands.
fn choice_instructions(tc: &ToolChoice) -> (lines: Vec<String>)
    ensures
        text::strs(lines@) == choice_lines(*tc),
{
    let mut lines: Vec<String> = Vec::new();
    assert(text::strs(lines@) =~= Seq::empty());
    match tc {
        ToolChoice::Mode(mode) => {
            if text::same(mode.as_str(), "required") {
                text::add_line(&mut lines, "**Lưu ý: bạn phải gọi một hoặc nhiều công cụ.**");
            }
        },
        ToolChoice::AllowedTools(choice) => {
            lines = build_allowed_tools_instruction(&choice.allowed_tools);
        },
        ToolChoice::Named(named) => {
            let line = text::cat3(
                "**Lưu ý: bạn phải gọi công cụ '",
                named.function.name.as_str(),
                "'.**",
            );
            text::add_line(&mut lines, line.as_str());
        },
        ToolChoice::Custom(custom) => {
            let line = text::cat3(
                "**Lưu ý: bạn phải gọi công cụ tùy chỉnh '",
                custom.custom.name.as_str(),
                "'.**",
            );
            text::add_line(&mut lines, line.as_str());
        },
    }
    lines
}

/// The title and the descriptions of the tools, or the first error.
fn definitions(tools: &Vec<Tool>) -> (r: Result<Vec<String>, String>)
    ensures
        match r {
            Ok(lines) => definition_lines(tools@, tools@.len() as int) == Ok::<
                Seq<Seq<char>>,
                Seq<char>,
            >(text::strs(lines@)),
            Err(e) => definition_lines(tools@, tools@.len() as int) == Err::<
                Seq<Seq<char>>,
                Seq<char>,
            >(e@),
        },
{
    let mut lines: Vec<String> = Vec::new();
    assert(text::strs(lines@) =~= Seq::empty());
    text::add_line(&mut lines, "Bạn có thể dùng các công cụ sau:");
    let mut i: usize = 0;
    while i < tools.len()
        invariant
            i <= tools@.len(),
            definition_lines(tools@, i as int) == Ok::<Seq<Seq<char>>, Seq<char>>(
                text::strs(lines@),
            ),
        decreases tools@.len() - i,
    {
        match format_tool(&tools[i], i) {
            Ok(t) => {
                text::add_line(&mut lines, t.as_str());
            },
            Err(e) => {
                proof {
                    lemma_error_stays(tools@, i + 1, tools@.len() as int, e@);
                }
                return Err(e);
            },
        }
        i += 1;
    }
    Ok(lines)
}

/// An error among the first tools is the error of all.
proof fn lemma_error_stays(tools: Seq<Tool>, i: int, n: int, e: Seq<char>)
    requires
        0 < i <= n,
        definition_lines(tools, i) == Err::<Seq<Seq<char>>, Seq<char>>(e),
    ensures
        definition_lines(tools, n) == Err::<Seq<Seq<char>>, Seq<char>>(e),
    decreases n - i,
{
    if i < n {
        lemma_error_stays(tools, i, n - 1, e);
    }
}

/// Checks the tools of a request and says what the prompt tells of them.
///
/// Where the request asks for no tools, the prompt says nothing.
pub fn extract(req: &ChatCompletionsRequest) -> (r: Result<ToolContext, String>)
    ensures
        match r {
            Ok(ctx) => tool_context(*req) == Ok::<ToolContextV, Seq<char>>(ctx@),
            Err(e) => tool_context(*req) == Err::<ToolContextV, Seq<char>>(e@),
        },
{
    if let Some(tc) = &req.tool_choice {
        if let Err(e) = validate_tool_choice(tc, &req.tools) {
            return Err(e);
        }
    }
    let none = match &req.tool_choice {
        Some(ToolChoice::Mode(mode)) => text::same(mode.as_str(), "none"),
        Some(_) => false,
        None => !has_tools(req),
    };
    if none {
        return Ok(ToolContext { format_block: None, defs_text: None, instruction_text: None });
    }
    let mut lines = match &req.tool_choice {
        Some(tc) => choice_instructions(tc),
        None => Vec::new(),
    };
    assert(req.tool_choice is None ==> text::strs(lines@) =~= Seq::empty());
    if let Some(parallel) = req.parallel_tool_calls {
        if !parallel {
            text::add_line(&mut lines, "**Lưu ý: mỗi lần chỉ được gọi một công cụ.**");
        }
    }
    assert(text::strs(lines@) == demand_lines(*req));
    let instruction_text = if lines.len() == 0 {
        None
    } else {
        Some(text::join(&lines, "\n"))
    };
    if let Some(tools) = &req.tools {
        if tools.len() > 0 {
            let defs = definitions(tools);
            return match defs {
                Ok(defs) => Ok(
                    ToolContext {
                        format_block: Some(build_tool_instruction_block(tools)),
                        defs_text: Some(text::join(&defs, "\n")),
                        instruction_text,
                    },
                ),
                Err(e) => Err(e),
            };
        }
    }
    Ok(ToolContext { format_block: None, defs_text: None, instruction_text })
}

/// The descriptions stand in the order of the tools, one for each, after the
/// title.
pub proof fn law_definitions_stand_in_order(tools: Seq<Tool>, n: int, i: int)
    requires
        0 <= i < n <= tools.len(),
        definition_lines(tools, n) is Ok,
    ensures
        ({
            let lines = definition_lines(tools, n)->Ok_0;
            &&& lines.len() == n + 1
            &&& tool_text(tools[i], i) == Ok::<Seq<char>, Seq<char>>(lines[i + 1])
        }),
    decreases n,
{
    if i < n - 1 {
        law_definitions_stand_in_order(tools, n - 1, i);
    } else if n > 1 {
        law_definitions_stand_in_order(tools, n - 1, 0);
    }
}

/// The tools of a request are refused exactly where one of them cannot be
/// described, and then for the first that cannot.
pub proof fn law_first_bad_tool_is_refused(tools: Seq<Tool>, n: int, k: int)
    requires
        0 <= k <= n <= tools.len(),
        forall|i: int| 0 <= i < k ==> tool_text(#[trigger] tools[i], i) is Ok,
        k < n ==> tool_text(tools[k], k) is Err,
    ensures
        k == n ==> definition_lines(tools, n) is Ok,
        k < n ==> definition_lines(tools, n) == Err::<Seq<Seq<char>>, Seq<char>>(
            tool_text(tools[k], k)->Err_0,
        ),
    decreases n,
{
    if n > 0 {
        if k < n {
            law_first_bad_tool_is_refused(tools, n - 1, k);
        } else {
            law_first_bad_tool_is_refused(tools, n - 1, n - 1);
            assert(tool_text(tools[n - 1], n - 1) is Ok);
        }
    }
}

/// A tool can be described where it is a function with a name, or a custom tool,
/// and brings its definition along; any other is refused by its number.
pub proof fn law_bad_tools(tool: Tool, idx: int)
    ensures
        tool_text(tool, idx) is Ok <==> {
            ||| tool.ty@ == "function"@ && (tool.function matches Some(f) && text::trimmed(
                f.name@,
            ).len() > 0)
            ||| tool.ty@ == "custom"@ && tool.custom is Some
        },
        tool_text(tool, idx) matches Err(e) ==> (tool.ty@ != "function"@ || tool.function is None
            ==> text::stands_at(e, "tools["@ + text::decimal(idx as nat) + "]"@, 0)),
        tool.ty@ != "function"@ && tool.ty@ != "custom"@ ==> text::occurs(
            tool_text(tool, idx)->Err_0,
            tool.ty@,
        ),
{
    reveal_strlit("function");
    reveal_strlit("custom");
    assert("function"@.len() != "custom"@.len());
    let place = "tools["@ + text::decimal(idx as nat);
    let numbered = place + "]"@;
    reveal_strlit("]");
    if let Err(e) = tool_text(tool, idx) {
        if tool.ty@ == "function"@ {
            reveal_strlit("] có type 'function' thì phải cung cấp định nghĩa function");
            if tool.function is None {
                assert(e.subrange(0, numbered.len() as int) =~= numbered);
            }
        } else if tool.ty@ == "custom"@ {
            reveal_strlit("] có type 'custom' thì phải cung cấp định nghĩa custom");
            assert(e.subrange(0, numbered.len() as int) =~= numbered);
        } else {
            reveal_strlit("] có type không được hỗ trợ: ");
            assert(e.subrange(0, numbered.len() as int) =~= numbered);
            let none = Seq::<char>::empty();
            let front = place + "] có type không được hỗ trợ: "@;
            assert(e =~= front + tool.ty@ + none);
            text::lemma_occurs_between(front, tool.ty@, none);
        }
    }
}

/// The description of a function shows the call with its name and the JSON of
/// its parameters, and tells what it is for where it says so.
pub proof fn law_function_is_described(func: FunctionDefinition, params: Seq<char>)
    requires
        text::trimmed(func.name@).len() > 0,
    ensures
        ({
            let d = function_text(func, params)->Ok_0;
            &&& function_text(func, params) is Ok
            &&& text::occurs(
                d,
                "<|tool▁calls▁begin|>"@ + "[{\"name\": \""@ + func.name@ + "\", \"arguments\": "@
                    + params + "}]"@ + "<|tool▁calls▁end|>"@,
            )
            &&& text::occurs(d, params)
            &&& text::occurs(d, "**"@ + func.name@ + "**"@)
            &&& func.description matches Some(t) ==> text::occurs(d, text::trimmed(t@))
        }),
{
    let d = function_text(func, params)->Ok_0;
    let call = TOOL_CALL_START@ + "[{\"name\": \""@ + func.name@ + "\", \"arguments\": "@ + params
        + "}]"@ + TOOL_CALL_END@;
    let desc = trimmed_or_empty(func.description);
    let block = if desc.len() == 0 {
        "  Không có mô tả"@
    } else {
        "~~~markdown\n  "@ + desc + "\n~~~\n"@
    };
    let none = Seq::<char>::empty();
    let front = "- **"@ + func.name@ + "** (function):\n  - Cách gọi: `"@;
    let back = "`\n  - Mô tả ngắn:\n"@ + block;
    assert(d =~= front + call + back);
    text::lemma_occurs_between(front, call, back);
    let before = TOOL_CALL_START@ + "[{\"name\": \""@ + func.name@ + "\", \"arguments\": "@;
    let after = "}]"@ + TOOL_CALL_END@;
    assert(call =~= before + params + after);
    text::lemma_occurs_between(before, params, after);
    text::lemma_occurs_through(d, call, params);
    reveal_strlit("- **");
    reveal_strlit("**");
    reveal_strlit("** (function):\n  - Cách gọi: `");
    let rest = "** (function):\n  - Cách gọi: `"@.subrange(2, "** (function):\n  - Cách gọi: `"@.len() as int);
    let title = "**"@ + func.name@ + "**"@;
    let dash = "- **"@.subrange(0, 2);
    assert(d =~= dash + title + (rest + call + back));
    text::lemma_occurs_between(dash, title, rest + call + back);
    if let Some(t) = func.description {
        if desc.len() > 0 {
            text::lemma_occurs_between("~~~markdown\n  "@, desc, "\n~~~\n"@);
            let lead = front + call + "`\n  - Mô tả ngắn:\n"@;
            assert(d =~= lead + block + none);
            text::lemma_occurs_between(lead, block, none);
            text::lemma_occurs_through(d, block, desc);
        } else {
            assert(d.subrange(0, 0) =~= desc);
            text::lemma_find_is_first(d, desc, 0, 0);
        }
    }
}

/// Different parameters give different descriptions.
pub proof fn law_descriptions_tell_parameters_apart(
    func: FunctionDefinition,
    p: Seq<char>,
    q: Seq<char>,
)
    requires
        text::trimmed(func.name@).len() > 0,
        p != q,
    ensures
        function_text(func, p) != function_text(func, q),
{
    if function_text(func, p) == function_text(func, q) {
        let d = function_text(func, p)->Ok_0;
        let desc = trimmed_or_empty(func.description);
        let block = if desc.len() == 0 {
            "  Không có mô tả"@
        } else {
            "~~~markdown\n  "@ + desc + "\n~~~\n"@
        };
        let front = "- **"@ + func.name@ + "** (function):\n  - Cách gọi: `"@ + TOOL_CALL_START@
            + "[{\"name\": \""@ + func.name@ + "\", \"arguments\": "@;
        let back = "}]"@ + TOOL_CALL_END@ + "`\n  - Mô tả ngắn:\n"@ + block;
        assert(d =~= front + p + back);
        assert(function_text(func, q)->Ok_0 =~= front + q + back);
        assert(d.len() == front.len() + p.len() + back.len());
        assert(d.len() == front.len() + q.len() + back.len());
        let e = front + q + back;
        assert(p =~= d.subrange(front.len() as int, front.len() as int + p.len()));
        assert(q =~= e.subrange(front.len() as int, front.len() as int + q.len()));
    }
}

/// The JSON of parameters that can be printed is shown as it is printed.
pub proof fn law_printed_parameters_are_shown(params: Json)
    ensures
        json::printed(params) matches Some(t) ==> params_text(params) == t,
        json::printed(params) is None ==> params_text(params) == "{}"@,
{
}

/// A custom tool is described with its name, its grammar where it has one, and
/// what it is for.
pub proof fn law_custom_tool_is_described(custom: CustomTool)
    ensures
        ({
            let d = custom_text(custom);
            &&& text::occurs(d, "**"@ + custom.name@ + "**"@)
            &&& custom.format matches Some(CustomToolFormat::Grammar { grammar }) ==> text::occurs(
                d,
                grammar.syntax@,
            )
            &&& custom.description matches Some(t) ==> text::occurs(d, text::trimmed(t@))
        }),
{
    let d = custom_text(custom);
    let none = Seq::<char>::empty();
    let method = match custom.format {
        Some(CustomToolFormat::Text) => "text"@,
        Some(CustomToolFormat::Grammar { grammar }) => "grammar(syntax: "@ + grammar.syntax@
            + ")"@,
        None => "Không ràng buộc"@,
    };
    let desc = trimmed_or_empty(custom.description);
    let told = if desc.len() == 0 {
        "Không có mô tả"@
    } else {
        desc
    };
    reveal_strlit("- **");
    reveal_strlit("**");
    reveal_strlit("** (custom):\n  - Cách gọi: `");
    let lead = "** (custom):\n  - Cách gọi: `"@;
    let rest = lead.subrange(2, lead.len() as int) + method + "`\n  - Mô tả ngắn: "@ + told;
    let dash = "- **"@.subrange(0, 2);
    let title = "**"@ + custom.name@ + "**"@;
    assert(d =~= dash + title + rest);
    text::lemma_occurs_between(dash, title, rest);
    if let Some(CustomToolFormat::Grammar { grammar }) = custom.format {
        text::lemma_occurs_between("grammar(syntax: "@, grammar.syntax@, ")"@);
        let front = "- **"@ + custom.name@ + lead;
        assert(d =~= front + method + ("`\n  - Mô tả ngắn: "@ + told));
        text::lemma_occurs_between(front, method, "`\n  - Mô tả ngắn: "@ + told);
        text::lemma_occurs_through(d, method, grammar.syntax@);
    }
    if let Some(t) = custom.description {
        if desc.len() > 0 {
            let front = "- **"@ + custom.name@ + lead + method + "`\n  - Mô tả ngắn: "@;
            assert(d =~= front + desc + none);
            text::lemma_occurs_between(front, desc, none);
        } else {
            assert(d.subrange(0, 0) =~= desc);
            text::lemma_find_is_first(d, desc, 0, 0);
        }
    }
}

/// Every tool of an accepted request that may use tools is in the definitions:
/// its whole description, and for a function the JSON of its parameters.
pub proof fn law_every_tool_is_defined(req: ChatCompletionsRequest, ctx: ToolContextV, i: int)
    requires
        tool_context(req) == Ok::<ToolContextV, Seq<char>>(ctx),
        !asks_for_none(req),
        0 <= i < tools_of(req).len(),
    ensures
        ({
            let tool = tools_of(req)[i];
            &&& ctx.defs_text matches Some(defs) && {
                &&& tool.ty@ == "function"@ ==> (tool.function matches Some(f) && text::occurs(
                    defs,
                    "\"name\": \""@ + f.name@ + "\", \"arguments\": "@,
                ) && (json::printed(f.parameters) matches Some(t) ==> text::occurs(defs, t)) && (
                f.description matches Some(t) ==> text::occurs(defs, text::trimmed(t@))))
                &&& tool.ty@ == "custom"@ ==> (tool.custom matches Some(c) && text::occurs(
                    defs,
                    "**"@ + c.name@ + "**"@,
                ) && (c.description matches Some(t) ==> text::occurs(defs, text::trimmed(t@))))
                &&& tool.ty@ == "function"@ || tool.ty@ == "custom"@
            }
            &&& ctx.format_block is Some
        }),
{
    reveal_strlit("function");
    reveal_strlit("custom");
    assert("function"@.len() != "custom"@.len());
    let tools = tools_of(req);
    let lines = definition_lines(tools, tools.len() as int)->Ok_0;
    law_definitions_stand_in_order(tools, tools.len() as int, i);
    let defs = text::joined(lines, "\n"@, lines.len() as int);
    let d = lines[i + 1];
    text::lemma_joined_holds(lines, "\n"@, lines.len() as int, i + 1);
    law_bad_tools(tools[i], i);
    if tools[i].ty@ == "function"@ {
        let f = tools[i].function->0;
        let params = params_text(f.parameters);
        law_function_is_described(f, params);
        text::lemma_occurs_through(defs, d, params);
        let call = "<|tool▁calls▁begin|>"@ + "[{\"name\": \""@ + f.name@ + "\", \"arguments\": "@
            + params + "}]"@ + "<|tool▁calls▁end|>"@;
        text::lemma_occurs_through(defs, d, call);
        let named = "\"name\": \""@ + f.name@ + "\", \"arguments\": "@;
        reveal_strlit("[{\"name\": \"");
        reveal_strlit("\"name\": \"");
        let front = "<|tool▁calls▁begin|>"@ + "[{\"name\": \""@.subrange(0, 2);
        let back = params + "}]"@ + "<|tool▁calls▁end|>"@;
        assert(call =~= front + named + back);
        text::lemma_occurs_between(front, named, back);
        text::lemma_occurs_through(defs, call, named);
        if let Some(t) = f.description {
            text::lemma_occurs_through(defs, d, text::trimmed(t@));
        }
    } else {
        let c = tools[i].custom->0;
        law_custom_tool_is_described(c);
        text::lemma_occurs_through(defs, d, "**"@ + c.name@ + "**"@);
        if let Some(t) = c.description {
            text::lemma_occurs_through(defs, d, text::trimmed(t@));
        }
    }
}

/// A choice of tools is refused where its mode is unknown, or where it asks for
/// tools and none are there; any other choice is met.
pub proof fn law_choice_is_met_or_refused(tc: ToolChoice, tools: Option<Seq<Tool>>)
    ensures
        tc matches ToolChoice::Mode(m) ==> (choice_error(tc, tools) is None <==> m@ == "none"@ || (
        m@ == "auto"@ || m@ == "required"@) && (tools matches Some(t) && t.len() > 0)),
        tc is Named || tc is Custom ==> (choice_error(tc, tools) is None <==> tools is Some),
        tc matches ToolChoice::AllowedTools(c) ==> (choice_error(tc, tools) is None
            <==> tools is Some && (c.allowed_tools.mode@ == "auto"@ || c.allowed_tools.mode@
            == "required"@)),
{
    reveal_strlit("none");
    reveal_strlit("auto");
    reveal_strlit("required");
    assert("none"@[0] != "auto"@[0]);
    assert("none"@.len() != "required"@.len());
}

/// A request is refused for its choice before its tools are looked at, and for
/// its tools only where it may use them.
pub proof fn law_refused_requests(req: ChatCompletionsRequest)
    ensures
        ({
            let refused = req.tool_choice matches Some(tc) && choice_error(
                tc,
                opt_tools(req.tools),
            ) is Some;
            let n = tools_of(req).len() as int;
            &&& refused ==> tool_context(req) == Err::<ToolContextV, Seq<char>>(
                choice_error(req.tool_choice->0, opt_tools(req.tools))->0,
            )
            &&& !refused && asks_for_none(req) ==> tool_context(req) == Ok::<
                ToolContextV,
                Seq<char>,
            >(ToolContextV { format_block: None, defs_text: None, instruction_text: None })
            &&& !refused && !asks_for_none(req) ==> (tool_context(req) is Err <==> n > 0
                && definition_lines(tools_of(req), n) is Err)
            &&& req.tools is None ==> tools_of(req).len() == 0
            &&& req.tools matches Some(t) ==> tools_of(req) == t@
        }),
{
}

/// A request asks for no tools where its choice says so, or where it names
/// neither a choice nor tools.
pub proof fn law_no_tools_are_asked_for(req: ChatCompletionsRequest)
    ensures
        req.tool_choice is None ==> (asks_for_none(req) <==> req.tools is None
            || req.tools->0@.len() == 0),
        req.tool_choice matches Some(ToolChoice::Mode(m)) ==> (asks_for_none(req) <==> m@
            == "none"@),
        req.tool_choice is Some && !(req.tool_choice->0 is Mode) ==> !asks_for_none(req),
{
}

proof fn lemma_demand_told(req: ChatCompletionsRequest, ctx: ToolContextV, line: Seq<char>, k: int)
    requires
        tool_context(req) == Ok::<ToolContextV, Seq<char>>(ctx),
        !asks_for_none(req),
        0 <= k < demand_lines(req).len(),
        demand_lines(req)[k] == line,
    ensures
        ctx.instruction_text is Some,
        text::occurs(ctx.instruction_text->0, line),
{
    let demands = demand_lines(req);
    text::lemma_joined_holds(demands, "\n"@, demands.len() as int, k);
}

proof fn lemma_allowed_name_listed(tools: Seq<Json>, n: int, k: int) -> (j: int)
    requires
        0 <= k < n <= tools.len(),
        tools[k].member("function"@) is Some,
        tools[k].member("function"@)->0.string_member("name"@) is Some,
    ensures
        0 <= j < allowed_names(tools, n).len(),
        allowed_names(tools, n)[j] == tools[k].member("function"@)->0.string_member("name"@)->0,
    decreases n,
{
    if k == n - 1 {
        allowed_names(tools, n - 1).len() as int
    } else {
        lemma_allowed_name_listed(tools, n - 1, k)
    }
}

/// What a choice of tools demands is told: that a tool must be called, which one
/// must be, which ones may be, and that there may be no more than one at a time.
/// Where nothing is demanded nothing is told.
pub proof fn law_demands_are_told(req: ChatCompletionsRequest, ctx: ToolContextV, k: int)
    requires
        tool_context(req) == Ok::<ToolContextV, Seq<char>>(ctx),
        !asks_for_none(req),
    ensures
        ({
            let told = |line: Seq<char>|
                ctx.instruction_text is Some && text::occurs(ctx.instruction_text->0, line);
            let must = "**Lưu ý: bạn phải gọi một hoặc nhiều công cụ.**"@;
            &&& req.tool_choice matches Some(ToolChoice::Mode(m)) ==> (m@ == "required"@ ==> told(
                must,
            ))
            &&& req.tool_choice matches Some(ToolChoice::Named(n)) ==> told(
                "**Lưu ý: bạn phải gọi công cụ '"@ + n.function.name@ + "'.**"@,
            )
            &&& req.tool_choice matches Some(ToolChoice::Custom(c)) ==> told(
                "**Lưu ý: bạn phải gọi công cụ tùy chỉnh '"@ + c.custom.name@ + "'.**"@,
            )
            &&& req.tool_choice matches Some(ToolChoice::AllowedTools(c)) ==> {
                &&& c.allowed_tools.mode@ == "required"@ ==> told(must)
                &&& c.allowed_tools.tools matches Some(list) ==> (0 <= k < list@.len() ==> (
                list@[k].member("function"@) matches Some(f) ==> (f.string_member(
                    "name"@,
                ) matches Some(name) ==> told(name))))
            }
            &&& req.parallel_tool_calls == Some(false) ==> told(
                "**Lưu ý: mỗi lần chỉ được gọi một công cụ.**"@,
            )
            &&& req.parallel_tool_calls != Some(false) && req.tool_choice is None
                ==> ctx.instruction_text is None
            &&& req.parallel_tool_calls != Some(false) && (req.tool_choice matches Some(
                ToolChoice::Mode(m),
            ) && m@ == "auto"@) ==> ctx.instruction_text is None
        }),
{
    let demands = demand_lines(req);
    if req.parallel_tool_calls == Some(false) {
        lemma_demand_told(
            req,
            ctx,
            "**Lưu ý: mỗi lần chỉ được gọi một công cụ.**"@,
            demands.len() - 1,
        );
    }
    match req.tool_choice {
        Some(ToolChoice::Mode(m)) => {
            assert("auto"@ != "required"@) by {
                reveal_strlit("auto");
                reveal_strlit("required");
                assert("auto"@.len() != "required"@.len());
            }
            if m@ == "required"@ {
                lemma_demand_told(req, ctx, must_call_line(), 0);
            }
        },
        Some(ToolChoice::Named(n)) => {
            lemma_demand_told(
                req,
                ctx,
                "**Lưu ý: bạn phải gọi công cụ '"@ + n.function.name@ + "'.**"@,
                0,
            );
        },
        Some(ToolChoice::Custom(c)) => {
            lemma_demand_told(
                req,
                ctx,
                "**Lưu ý: bạn phải gọi công cụ tùy chỉnh '"@ + c.custom.name@ + "'.**"@,
                0,
            );
        },
        Some(ToolChoice::AllowedTools(c)) => {
            let lines = allowed_lines(c.allowed_tools);
            if c.allowed_tools.mode@ == "required"@ {
                assert(lines.last() == must_call_line());
                lemma_demand_told(req, ctx, must_call_line(), lines.len() - 1);
            }
            if let Some(list) = c.allowed_tools.tools {
                if 0 <= k < list@.len() {
                    if let Some(f) = list@[k].member("function"@) {
                        if let Some(name) = f.string_member("name"@) {
                            let names = allowed_names(list@, list@.len() as int);
                            let j = lemma_allowed_name_listed(list@, list@.len() as int, k);
                            let all = text::joined(names, ", "@, names.len() as int);
                            text::lemma_joined_holds(names, ", "@, names.len() as int, j);
                            let lead =
                                "**Lưu ý:** bạn chỉ được chọn trong các công cụ được phép sau: "@;
                            let line = lead + all + "."@;
                            assert(lines[0] == line);
                            text::lemma_occurs_between(lead, all, "."@);
                            text::lemma_occurs_through(line, all, name);
                            lemma_demand_told(req, ctx, line, 0);
                            text::lemma_occurs_through(ctx.instruction_text->0, line, name);
                        }
                    }
                }
            }
        },
        None => {},
    }
}

proof fn lemma_names_prefix(a: Seq<Tool>, b: Seq<Tool>, n: int)
    requires
        0 <= n <= a.len(),
    ensures
        function_names(a + b, n) == function_names(a, n),
    decreases n,
{
    if n > 0 {
        lemma_names_prefix(a, b, n - 1);
        assert((a + b)[n - 1] == a[n - 1]);
    }
}

/// The functions are named in the order of the tools, none left out.
pub proof fn law_function_names_in_order(a: Seq<Tool>, b: Seq<Tool>, n: int)
    requires
        0 <= n <= b.len(),
    ensures
        function_names(a + b, a.len() + n) == function_names(a, a.len() as int) + function_names(
            b,
            n,
        ),
        n == 1 ==> (b[0].function matches Some(f) ==> function_names(b, n) == seq![f.name@]),
        n == 1 ==> (b[0].function is None ==> function_names(b, n).len() == 0),
    decreases n,
{
    reveal_with_fuel(function_names, 2);
    if n == 0 {
        lemma_names_prefix(a, b, a.len() as int);
        assert(function_names(a, a.len() as int) + Seq::<Seq<char>>::empty() =~= function_names(
            a,
            a.len() as int,
        ));
    } else {
        law_function_names_in_order(a, b, n - 1);
        assert((a + b)[a.len() + n - 1] == b[n - 1]);
        assert(function_names(a + b, a.len() + n) =~= function_names(a, a.len() as int)
            + function_names(b, n));
        if n == 1 {
            if let Some(f) = b[0].function {
                assert(function_names(b, 1) =~= seq![f.name@]);
            }
        }
    }
}

proof fn lemma_sample_listed(names: Seq<Seq<char>>, n: int, k: int)
    requires
        0 <= k < n <= names.len(),
    ensures
        sample_calls(names, n).len() == n,
        sample_calls(names, n)[k] == call_text(names[k], example_args_text(names[k])),
    decreases n,
{
    if n - 1 > 0 && k < n - 1 {
        lemma_sample_listed(names, n - 1, k);
    } else if n - 1 > 0 {
        lemma_sample_listed(names, n - 1, 0);
    } else {
        assert(sample_calls(names, 0).len() == 0);
    }
}

proof fn lemma_block_holds(calls: Seq<char>, call: Seq<char>)
    requires
        text::occurs(calls, call),
    ensures
        text::occurs(call_block(calls), call),
{
    let front = TOOL_CALL_START@ + "["@;
    let back = "]"@ + TOOL_CALL_END@;
    assert(call_block(calls) =~= front + calls + back);
    text::lemma_occurs_between(front, calls, back);
    text::lemma_occurs_through(call_block(calls), calls, call);
}

/// The samples call the request's own functions, the first three of them by
/// their names, with sample arguments.
pub proof fn law_samples_call_the_functions(tools: Seq<Tool>, k: int)
    requires
        0 <= k < function_names(tools, tools.len() as int).len(),
        k < 3,
    ensures
        ({
            let names = function_names(tools, tools.len() as int);
            text::occurs(
                instruction_block(tools),
                "{\"name\": \""@ + names[k] + "\", \"arguments\": "@ + example_args_text(names[k])
                    + "}"@,
            )
        }),
{
    let names = function_names(tools, tools.len() as int);
    let call = call_text(names[k], example_args_text(names[k]));
    let lines = rule_lines() + example_lines(names);
    let r = rule_lines().len() as int;
    let none = Seq::<char>::empty();
    assert(call =~= none + call + none);
    text::lemma_occurs_between(none, call, none);
    if k == 0 {
        let line = call_block(call);
        lemma_block_holds(call, call);
        assert(example_lines(names)[3] == line);
        assert(lines[r + 3] == line);
        text::lemma_joined_holds(lines, "\n"@, lines.len() as int, r + 3);
        text::lemma_occurs_through(instruction_block(tools), line, call);
    } else if k == 1 {
        let calls = sample_calls(names, 2);
        lemma_sample_listed(names, 2, 1);
        text::lemma_joined_holds(calls, ", "@, 2, 1);
        let line = sample_block(names, 2);
        lemma_block_holds(text::joined(calls, ", "@, 2), call);
        assert(example_lines(names)[7] == line);
        assert(lines[r + 7] == line);
        text::lemma_joined_holds(lines, "\n"@, lines.len() as int, r + 7);
        text::lemma_occurs_through(instruction_block(tools), line, call);
    } else {
        let calls = sample_calls(names, 3);
        lemma_sample_listed(names, 3, 2);
        text::lemma_joined_holds(calls, ", "@, 3, 2);
        let line = sample_block(names, 3);
        lemma_block_holds(text::joined(calls, ", "@, 3), call);
        assert(example_lines(names)[11] == line);
        assert(lines[r + 11] == line);
        text::lemma_joined_holds(lines, "\n"@, lines.len() as int, r + 11);
        text::lemma_occurs_through(instruction_block(tools), line, call);
    }
}

/// Whatever the tools, the rules say how a call is written: as a JSON array
/// between the tags of calls.
pub proof fn law_rules_show_the_tags(tools: Seq<Tool>)
    ensures
        text::occurs(
            instruction_block(tools),
            "<|tool▁calls▁begin|>"@
                + "[{\"name\": \"tên_công_cụ\", \"arguments\": {JSON_tham_số}}]"@
                + "<|tool▁calls▁end|>"@,
        ),
{
    let lines = rule_lines() + example_lines(function_names(tools, tools.len() as int));
    assert(lines[4] == rule_lines()[4]);
    text::lemma_joined_holds(lines, "\n"@, lines.len() as int, 4);
}

} // verus!
