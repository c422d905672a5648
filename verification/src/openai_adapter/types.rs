//! The values of the chat completions interface.

use vstd::prelude::*;

use crate::copies::Duplicate;
use crate::json::Json;

verus! {

/// A call of a function with its arguments as JSON text.
#[derive(Debug)]
pub struct FunctionCall {
    pub name: String,
    pub arguments: String,
}

/// The model of a `FunctionCall`.
#[verifier::ext_equal]
pub struct FunctionCallV {
    pub name: Seq<char>,
    pub arguments: Seq<char>,
}

impl DeepView for FunctionCall {
    type V = FunctionCallV;

    open spec fn deep_view(&self) -> FunctionCallV {
        FunctionCallV {
            name: self.name.deep_view(),
            arguments: self.arguments.deep_view(),
        }
    }
}

impl Duplicate for FunctionCall {
    fn duplicate(&self) -> (r: FunctionCall) {
        FunctionCall {
            name: self.name.duplicate(),
            arguments: self.arguments.duplicate(),
        }
    }
}

/// A call of a custom tool with its free input.
#[derive(Debug)]
pub struct CustomToolCall {
    pub name: String,
    pub input: String,
}

/// The model of a `CustomToolCall`.
#[verifier::ext_equal]
pub struct CustomToolCallV {
    pub name: Seq<char>,
    pub input: Seq<char>,
}

impl DeepView for CustomToolCall {
    type V = CustomToolCallV;

    open spec fn deep_view(&self) -> CustomToolCallV {
        CustomToolCallV {
            name: self.name.deep_view(),
            input: self.input.deep_view(),
        }
    }
}

impl Duplicate for CustomToolCall {
    fn duplicate(&self) -> (r: CustomToolCall) {
        CustomToolCall {
            name: self.name.duplicate(),
            input: self.input.duplicate(),
        }
    }
}

/// One tool call of an assistant message.
#[derive(Debug)]
pub struct ToolCall {
    pub id: String,
    pub ty: String,
    pub function: Option<FunctionCall>,
    pub custom: Option<CustomToolCall>,
    pub index: u32,
}

/// The model of a `ToolCall`.
#[verifier::ext_equal]
pub struct ToolCallV {
    pub id: Seq<char>,
    pub ty: Seq<char>,
    pub function: Option<FunctionCallV>,
    pub custom: Option<CustomToolCallV>,
    pub index: u32,
}

impl DeepView for ToolCall {
    type V = ToolCallV;

    open spec fn deep_view(&self) -> ToolCallV {
        ToolCallV {
            id: self.id.deep_view(),
            ty: self.ty.deep_view(),
            function: self.function.deep_view(),
            custom: self.custom.deep_view(),
            index: self.index.deep_view(),
        }
    }
}

impl Duplicate for ToolCall {
    fn duplicate(&self) -> (r: ToolCall) {
        ToolCall {
            id: self.id.duplicate(),
            ty: self.ty.duplicate(),
            function: self.function.duplicate(),
            custom: self.custom.duplicate(),
            index: self.index.duplicate(),
        }
    }
}

/// An image of a message part.
#[derive(Debug)]
pub struct ImageUrl {
    pub url: String,
    pub detail: Option<String>,
}

/// The model of a `ImageUrl`.
#[verifier::ext_equal]
pub struct ImageUrlV {
    pub url: Seq<char>,
    pub detail: Option<Seq<char>>,
}

impl DeepView for ImageUrl {
    type V = ImageUrlV;

    open spec fn deep_view(&self) -> ImageUrlV {
        ImageUrlV {
            url: self.url.deep_view(),
            detail: self.detail.deep_view(),
        }
    }
}

impl Duplicate for ImageUrl {
    fn duplicate(&self) -> (r: ImageUrl) {
        ImageUrl {
            url: self.url.duplicate(),
            detail: self.detail.duplicate(),
        }
    }
}

/// A sound of a message part.
#[derive(Debug)]
pub struct InputAudio {
    pub data: String,
    pub format: String,
}

/// The model of a `InputAudio`.
#[verifier::ext_equal]
pub struct InputAudioV {
    pub data: Seq<char>,
    pub format: Seq<char>,
}

impl DeepView for InputAudio {
    type V = InputAudioV;

    open spec fn deep_view(&self) -> InputAudioV {
        InputAudioV {
            data: self.data.deep_view(),
            format: self.format.deep_view(),
        }
    }
}

impl Duplicate for InputAudio {
    fn duplicate(&self) -> (r: InputAudio) {
        InputAudio {
            data: self.data.duplicate(),
            format: self.format.duplicate(),
        }
    }
}

/// A file of a message part.
#[derive(Debug)]
pub struct FileContent {
    pub file_data: Option<String>,
    pub file_id: Option<String>,
    pub filename: Option<String>,
}

/// The model of a `FileContent`.
#[verifier::ext_equal]
pub struct FileContentV {
    pub file_data: Option<Seq<char>>,
    pub file_id: Option<Seq<char>>,
    pub filename: Option<Seq<char>>,
}

impl DeepView for FileContent {
    type V = FileContentV;

    open spec fn deep_view(&self) -> FileContentV {
        FileContentV {
            file_data: self.file_data.deep_view(),
            file_id: self.file_id.deep_view(),
            filename: self.filename.deep_view(),
        }
    }
}

impl Duplicate for FileContent {
    fn duplicate(&self) -> (r: FileContent) {
        FileContent {
            file_data: self.file_data.duplicate(),
            file_id: self.file_id.duplicate(),
            filename: self.filename.duplicate(),
        }
    }
}

/// One part of a message.
#[derive(Debug)]
pub struct ContentPart {
    pub ty: String,
    pub text: Option<String>,
    pub refusal: Option<String>,
    pub image_url: Option<ImageUrl>,
    pub input_audio: Option<InputAudio>,
    pub file: Option<FileContent>,
}

/// The model of a `ContentPart`.
#[verifier::ext_equal]
pub struct ContentPartV {
    pub ty: Seq<char>,
    pub text: Option<Seq<char>>,
    pub refusal: Option<Seq<char>>,
    pub image_url: Option<ImageUrlV>,
    pub input_audio: Option<InputAudioV>,
    pub file: Option<FileContentV>,
}

impl DeepView for ContentPart {
    type V = ContentPartV;

    open spec fn deep_view(&self) -> ContentPartV {
        ContentPartV {
            ty: self.ty.deep_view(),
            text: self.text.deep_view(),
            refusal: self.refusal.deep_view(),
            image_url: self.image_url.deep_view(),
            input_audio: self.input_audio.deep_view(),
            file: self.file.deep_view(),
        }
    }
}

impl Duplicate for ContentPart {
    fn duplicate(&self) -> (r: ContentPart) {
        ContentPart {
            ty: self.ty.duplicate(),
            text: self.text.duplicate(),
            refusal: self.refusal.duplicate(),
            image_url: self.image_url.duplicate(),
            input_audio: self.input_audio.duplicate(),
            file: self.file.duplicate(),
        }
    }
}

/// The content of a message.
#[derive(Debug)]
pub enum MessageContent {
    Text(String),
    Parts(Vec<ContentPart>),
}

/// The model of a `MessageContent`.
#[verifier::ext_equal]
pub enum MessageContentV {
    Text(Seq<char>),
    Parts(Seq<ContentPartV>),
}

impl DeepView for MessageContent {
    type V = MessageContentV;

    open spec fn deep_view(&self) -> MessageContentV {
        match self {
            MessageContent::Text(s) => MessageContentV::Text(s@),
            MessageContent::Parts(p) => MessageContentV::Parts(p.deep_view()),
        }
    }
}

impl Duplicate for MessageContent {
    fn duplicate(&self) -> (r: MessageContent) {
        match self {
            MessageContent::Text(s) => MessageContent::Text(s.duplicate()),
            MessageContent::Parts(p) => MessageContent::Parts(p.duplicate()),
        }
    }
}

/// An earlier spoken answer that a message refers to.
#[derive(Debug)]
pub struct AudioRef {
    pub id: String,
}

/// The model of a `AudioRef`.
#[verifier::ext_equal]
pub struct AudioRefV {
    pub id: Seq<char>,
}

impl DeepView for AudioRef {
    type V = AudioRefV;

    open spec fn deep_view(&self) -> AudioRefV {
        AudioRefV {
            id: self.id.deep_view(),
        }
    }
}

impl Duplicate for AudioRef {
    fn duplicate(&self) -> (r: AudioRef) {
        AudioRef {
            id: self.id.duplicate(),
        }
    }
}

/// One message of a conversation.
#[derive(Debug)]
pub struct Message {
    pub role: String,
    pub content: Option<MessageContent>,
    pub name: Option<String>,
    pub tool_call_id: Option<String>,
    pub tool_calls: Option<Vec<ToolCall>>,
    pub function_call: Option<FunctionCall>,
    pub refusal: Option<String>,
    pub audio: Option<AudioRef>,
}

/// The model of a `Message`.
#[verifier::ext_equal]
pub struct MessageV {
    pub role: Seq<char>,
    pub content: Option<MessageContentV>,
    pub name: Option<Seq<char>>,
    pub tool_call_id: Option<Seq<char>>,
    pub tool_calls: Option<Seq<ToolCallV>>,
    pub function_call: Option<FunctionCallV>,
    pub refusal: Option<Seq<char>>,
    pub audio: Option<AudioRefV>,
}

impl DeepView for Message {
    type V = MessageV;

    open spec fn deep_view(&self) -> MessageV {
        MessageV {
            role: self.role.deep_view(),
            content: self.content.deep_view(),
            name: self.name.deep_view(),
            tool_call_id: self.tool_call_id.deep_view(),
            tool_calls: self.tool_calls.deep_view(),
            function_call: self.function_call.deep_view(),
            refusal: self.refusal.deep_view(),
            audio: self.audio.deep_view(),
        }
    }
}

impl Duplicate for Message {
    fn duplicate(&self) -> (r: Message) {
        Message {
            role: self.role.duplicate(),
            content: self.content.duplicate(),
            name: self.name.duplicate(),
            tool_call_id: self.tool_call_id.duplicate(),
            tool_calls: self.tool_calls.duplicate(),
            function_call: self.function_call.duplicate(),
            refusal: self.refusal.duplicate(),
            audio: self.audio.duplicate(),
        }
    }
}

/// A function that the model may call.
#[derive(Debug)]
pub struct FunctionDefinition {
    pub name: String,
    pub description: Option<String>,
    pub parameters: Json,
    pub strict: Option<bool>,
}

/// The grammar that a custom tool accepts.
#[derive(Debug)]
pub struct Grammar {
    pub definition: String,
    pub syntax: String,
}

/// The form of a custom tool's input.
#[derive(Debug)]
pub enum CustomToolFormat {
    Text,
    Grammar { grammar: Grammar },
}

/// A tool with free input.
#[derive(Debug)]
pub struct CustomTool {
    pub name: String,
    pub description: Option<String>,
    pub format: Option<CustomToolFormat>,
}

/// A tool that the model may call.
#[derive(Debug)]
pub struct Tool {
    pub ty: String,
    pub function: Option<FunctionDefinition>,
    pub custom: Option<CustomTool>,
}

/// A function referred to by its name.
#[derive(Debug)]
pub struct NamedFunction {
    pub name: String,
}

/// The choice of one function.
#[derive(Debug)]
pub struct NamedToolChoice {
    pub ty: String,
    pub function: NamedFunction,
}

/// The choice of one custom tool.
#[derive(Debug)]
pub struct NamedCustomToolChoice {
    pub ty: String,
    pub custom: NamedFunction,
}

/// The tools among which the model may choose.
#[derive(Debug)]
pub struct AllowedTools {
    pub mode: String,
    pub tools: Option<Vec<Json>>,
}

/// The choice among some tools.
#[derive(Debug)]
pub struct AllowedToolsChoice {
    pub ty: String,
    pub allowed_tools: AllowedTools,
}

/// Which tools the model may or must call.
#[derive(Debug)]
pub enum ToolChoice {
    Mode(String),
    AllowedTools(AllowedToolsChoice),
    Named(NamedToolChoice),
    Custom(NamedCustomToolChoice),
}

/// The older form of a tool choice.
#[derive(Debug)]
pub enum FunctionCallOption {
    Mode(String),
    Named(NamedFunction),
}

/// The texts at which an answer stops.
#[derive(Debug)]
pub enum StopSequence {
    Single(String),
    Multiple(Vec<String>),
}

/// What a stream reports besides the answer.
#[derive(Debug)]
pub struct StreamOptions {
    pub include_usage: bool,
    pub include_obfuscation: bool,
}

/// The format that an answer must have.
#[derive(Debug)]
pub struct ResponseFormat {
    pub ty: String,
    pub json_schema: Option<Json>,
}

/// How the model searches the web.
#[derive(Debug)]
pub struct WebSearchOptions {
    pub search_context_size: Option<String>,
}

/// A chat completions request.
#[derive(Debug)]
pub struct ChatCompletionsRequest {
    pub model: String,
    pub messages: Vec<Message>,
    pub stream: bool,
    pub tools: Option<Vec<Tool>>,
    pub tool_choice: Option<ToolChoice>,
    pub functions: Option<Vec<FunctionDefinition>>,
    pub function_call: Option<FunctionCallOption>,
    pub parallel_tool_calls: Option<bool>,
    pub reasoning_effort: Option<String>,
    pub web_search_options: Option<WebSearchOptions>,
    pub stream_options: Option<StreamOptions>,
    pub stop: Option<StopSequence>,
    pub response_format: Option<ResponseFormat>,
    pub prompt_cache_key: Option<String>,
    pub metadata: Option<Json>,
    pub user: Option<String>,
}

impl ChatCompletionsRequest {
    /// A request with a model and messages, and nothing else asked for.
    pub fn new(model: String, messages: Vec<Message>) -> (r: ChatCompletionsRequest)
        ensures
            r == (ChatCompletionsRequest {
                model,
                messages,
                stream: false,
                tools: None,
                tool_choice: None,
                functions: None,
                function_call: None,
                parallel_tool_calls: None,
                reasoning_effort: None,
                web_search_options: None,
                stream_options: None,
                stop: None,
                response_format: None,
                prompt_cache_key: None,
                metadata: None,
                user: None,
            }),
    {
        ChatCompletionsRequest {
            model,
            messages,
            stream: false,
            tools: None,
            tool_choice: None,
            functions: None,
            function_call: None,
            parallel_tool_calls: None,
            reasoning_effort: None,
            web_search_options: None,
            stream_options: None,
            stop: None,
            response_format: None,
            prompt_cache_key: None,
            metadata: None,
            user: None,
        }
    }
}

/// The tokens that a completion used.
#[derive(Debug, Clone, Copy, PartialEq, Eq, Structural)]
pub struct Usage {
    pub prompt_tokens: u32,
    pub completion_tokens: u32,
    pub total_tokens: u32,
}

/// What a chunk adds to an answer.
#[derive(Debug)]
pub struct Delta {
    pub role: Option<String>,
    pub content: Option<String>,
    pub reasoning_content: Option<String>,
    pub tool_calls: Option<Vec<ToolCall>>,
    pub obfuscation: Option<String>,
}

impl Default for Delta {
    /// A delta that adds nothing.
    fn default() -> (r: Delta)
        ensures
            r == (Delta {
                role: None,
                content: None,
                reasoning_content: None,
                tool_calls: None,
                obfuscation: None,
            }),
    {
        Delta {
            role: None,
            content: None,
            reasoning_content: None,
            tool_calls: None,
            obfuscation: None,
        }
    }
}

/// One alternative of a chunk.
#[derive(Debug)]
pub struct ChunkChoice {
    pub index: u32,
    pub delta: Delta,
    pub finish_reason: Option<String>,
}

/// One chunk of a streamed answer.
#[derive(Debug)]
pub struct ChatCompletionsResponseChunk {
    pub id: String,
    pub created: u64,
    pub model: String,
    pub choices: Vec<ChunkChoice>,
    pub usage: Option<Usage>,
}

/// The message of a whole answer.
#[derive(Debug)]
pub struct MessageResponse {
    pub content: Option<String>,
    pub reasoning_content: Option<String>,
    pub tool_calls: Option<Vec<ToolCall>>,
}

/// One alternative of a whole answer.
#[derive(Debug)]
pub struct Choice {
    pub index: u32,
    pub message: MessageResponse,
    pub finish_reason: Option<String>,
}

/// A whole answer.
#[derive(Debug)]
pub struct ChatCompletionsResponse {
    pub id: String,
    pub created: u64,
    pub model: String,
    pub choices: Vec<Choice>,
    pub usage: Option<Usage>,
}

/// One model that can be asked.
#[derive(Debug)]
pub struct OpenAIModel {
    pub id: String,
    pub object: String,
    pub created: u64,
    pub owned_by: String,
    pub max_input_tokens: Option<u32>,
    pub max_output_tokens: Option<u32>,
    pub context_length: Option<u32>,
    pub context_window: Option<u32>,
    pub max_context_length: Option<u32>,
    pub max_tokens: Option<u32>,
    pub max_completion_tokens: Option<u32>,
}

/// All models that can be asked.
#[derive(Debug)]
pub struct OpenAIModelList {
    pub object: String,
    pub data: Vec<OpenAIModel>,
}

} // verus!
