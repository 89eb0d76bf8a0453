//! pi RPC protocol values: commands sent to pi and extension UI replies.

use vstd::prelude::*;

verus! {

/// Reasoning effort requested from the model.
#[derive(Debug, Clone, Copy, PartialEq, Eq, Structural)]
pub enum ThinkingLevel {
    Off,
    Minimal,
    Low,
    Medium,
    High,
    XHigh,
    Max,
}

/// How queued steering / follow-up messages are delivered.
#[derive(Debug, Clone, Copy, PartialEq, Eq, Structural)]
pub enum QueueMode {
    All,
    OneAtATime,
}

/// What a prompt does while the agent is still streaming.
#[derive(Debug, Clone, Copy, PartialEq, Eq, Structural)]
pub enum StreamingBehavior {
    Steer,
    FollowUp,
}

/// Why the model stopped producing output.
#[derive(Debug, Clone, Copy, PartialEq, Eq, Structural)]
pub enum StopReason {
    Stop,
    Length,
    ToolUse,
    Error,
    Aborted,
}

/// An inline image attached to a prompt.
#[derive(Debug, Clone)]
pub struct ImageContent {
    pub content_type: String,
    pub data: String,
    pub mime_type: String,
}

impl ImageContent {
    /// An image block: type `"image"`, with the given payload and MIME type.
    pub fn new(data: &str, mime_type: &str) -> (r: Self)
        ensures
            r.content_type@ == "image"@,
            r.data@ == data@,
            r.mime_type@ == mime_type@,
    {
        ImageContent { content_type: "image".to_string(), data: data.to_string(), mime_type: mime_type.to_string() }
    }
}


/// A command written to pi's stdin (one JSON line per command).
#[derive(Debug, Clone)]
pub enum Command {
    Prompt {
        message: String,
        id: Option<String>,
        images: Vec<ImageContent>,
        streaming_behavior: Option<StreamingBehavior>,
    },
    Steer { message: String, images: Vec<ImageContent> },
    FollowUp { message: String, images: Vec<ImageContent> },
    Abort,
    GetState,
    GetMessages,
    SetModel { provider: String, model_id: String },
    CycleModel,
    GetAvailableModels,
    SetThinkingLevel { level: ThinkingLevel },
    CycleThinkingLevel,
    GetAvailableThinkingLevels,
    SetSteeringMode { mode: QueueMode },
    SetFollowUpMode { mode: QueueMode },
    Compact { custom_instructions: Option<String> },
    SetAutoCompaction { enabled: bool },
    SetAutoRetry { enabled: bool },
    AbortRetry,
    Bash { command: String, id: Option<String> },
    AbortBash,
    GetSessionStats,
    ExportHtml { output_path: Option<String> },
    SwitchSession { session_path: String },
    Fork { entry_id: String },
    Clone,
    GetForkMessages,
    GetEntries { since: Option<String> },
    GetTree,
    GetLastAssistantText,
    SetSessionName { name: String },
    GetCommands,
}

/// The text carried by an optional string, as a sequence of characters.
pub open spec fn opt_view(o: Option<String>) -> Option<Seq<char>> {
    match o {
        Some(s) => Some(s@),
        None => None,
    }
}

impl Command {
    /// `prompt`: the message, no id, no images, no streaming behaviour.
    pub fn prompt(msg: &str) -> (c: Self)
        ensures
            c matches Command::Prompt { message, id, images, streaming_behavior }
                && message@ == msg@ && id is None && images@.len() == 0
                && streaming_behavior is None,
    {
        Command::Prompt { message: msg.to_string(), id: None, images: Vec::new(), streaming_behavior: None }
    }

    /// `steer`: the message, no images.
    pub fn steer(msg: &str) -> (c: Self)
        ensures
            c matches Command::Steer { message, images } && message@ == msg@ && images@.len() == 0,
    {
        Command::Steer { message: msg.to_string(), images: Vec::new() }
    }

    /// `follow_up`: the message, no images.
    pub fn follow_up(msg: &str) -> (c: Self)
        ensures
            c matches Command::FollowUp { message, images } && message@ == msg@ && images@.len() == 0,
    {
        Command::FollowUp { message: msg.to_string(), images: Vec::new() }
    }

    /// `bash`: the shell command, no id.
    pub fn bash(cmd: &str) -> (c: Self)
        ensures
            c matches Command::Bash { command, id } && command@ == cmd@ && id is None,
    {
        Command::Bash { command: cmd.to_string(), id: None }
    }

    /// `set_model` for `provider` / `model_id`.
    pub fn set_model(provider: &str, model_id: &str) -> (c: Self)
        ensures
            c matches Command::SetModel { provider: p, model_id: m } && p@ == provider@ && m@ == model_id@,
    {
        Command::SetModel { provider: provider.to_string(), model_id: model_id.to_string() }
    }

    /// `switch_session` to the session file `path`.
    pub fn switch_session(path: &str) -> (c: Self)
        ensures
            c matches Command::SwitchSession { session_path } && session_path@ == path@,
    {
        Command::SwitchSession { session_path: path.to_string() }
    }

    /// `set_session_name` to `name`.
    pub fn set_session_name(name: &str) -> (c: Self)
        ensures
            c matches Command::SetSessionName { name: n } && n@ == name@,
    {
        Command::SetSessionName { name: name.to_string() }
    }

    /// Sets the correlation id of a `prompt` or `bash` command; any other
    /// command is returned unchanged.
    pub fn with_id(self, id: &str) -> (c: Self)
        ensures
            match self {
                Command::Prompt { message, images, streaming_behavior, .. } =>
                    c matches Command::Prompt { message: m2, id: i2, images: im2, streaming_behavior: s2 }
                    && m2 == message && im2 == images && s2 == streaming_behavior
                    && opt_view(i2) == Some(id@),
                Command::Bash { command, .. } =>
                    c matches Command::Bash { command: c2, id: i2 }
                    && c2 == command && opt_view(i2) == Some(id@),
                _ => c == self,
            },
    {
        match self {
            Command::Prompt { message, id: _, images, streaming_behavior } =>
                Command::Prompt { message, id: Some(id.to_string()), images, streaming_behavior },
            Command::Bash { command, id: _ } => Command::Bash { command, id: Some(id.to_string()) },
            other => other,
        }
    }

    /// Appends an image to a `prompt`, `steer` or `follow_up` command; any
    /// other command is returned unchanged.
    pub fn with_image(self, image: ImageContent) -> (c: Self)
        ensures
            match self {
                Command::Prompt { message, id, images, streaming_behavior } =>
                    c matches Command::Prompt { message: m2, id: i2, images: im2, streaming_behavior: s2 }
                    && m2 == message && i2 == id && s2 == streaming_behavior
                    && im2@ == images@.push(image),
                Command::Steer { message, images } =>
                    c matches Command::Steer { message: m2, images: im2 }
                    && m2 == message && im2@ == images@.push(image),
                Command::FollowUp { message, images } =>
                    c matches Command::FollowUp { message: m2, images: im2 }
                    && m2 == message && im2@ == images@.push(image),
                _ => c == self,
            },
    {
        match self {
            Command::Prompt { message, id, mut images, streaming_behavior } => {
                images.push(image);
                Command::Prompt { message, id, images, streaming_behavior }
            },
            Command::Steer { message, mut images } => {
                images.push(image);
                Command::Steer { message, images }
            },
            Command::FollowUp { message, mut images } => {
                images.push(image);
                Command::FollowUp { message, images }
            },
            other => other,
        }
    }

    /// Sets the streaming behaviour of a `prompt` command; any other command
    /// is returned unchanged.
    pub fn with_streaming_behavior(self, behavior: StreamingBehavior) -> (c: Self)
        ensures
            match self {
                Command::Prompt { message, id, images, .. } =>
                    c matches Command::Prompt { message: m2, id: i2, images: im2, streaming_behavior: s2 }
                    && m2 == message && i2 == id && im2 == images && s2 == Some(behavior),
                _ => c == self,
            },
    {
        match self {
            Command::Prompt { message, id, images, streaming_behavior: _ } =>
                Command::Prompt { message, id, images, streaming_behavior: Some(behavior) },
            other => other,
        }
    }
}


/// Severity of an extension notification.
#[derive(Debug, Clone, Copy, PartialEq, Eq, Structural)]
pub enum NotifyType {
    Info,
    Warning,
    Error,
}

/// Where an extension widget is shown relative to the editor.
#[derive(Debug, Clone, Copy, PartialEq, Eq, Structural)]
pub enum WidgetPlacement {
    AboveEditor,
    BelowEditor,
}

/// A UI request raised by a pi extension (pi stdout to the client).
#[allow(inconsistent_fields)]
#[derive(Debug, Clone)]
pub enum ExtensionUiRequest {
    Select { id: String, title: String, options: Vec<String>, timeout: Option<u64> },
    Confirm { id: String, title: String, message: Option<String>, timeout: Option<u64> },
    Input { id: String, title: String, placeholder: Option<String> },
    Editor { id: String, title: String, prefill: Option<String> },
    Notify { id: String, message: String, notify_type: Option<NotifyType> },
    SetStatus { id: String, status_key: String, status_text: Option<String> },
    SetWidget {
        id: String,
        widget_key: String,
        widget_lines: Option<Vec<String>>,
        widget_placement: Option<WidgetPlacement>,
    },
    SetTitle { id: String, title: String },
    SetEditorText { id: String, text: String },
}

/// The client's answer to an extension UI request (client to pi stdin).
#[derive(Debug, Clone)]
pub struct ExtensionUiResponse {
    pub id: String,
    pub value: Option<String>,
    pub confirmed: Option<bool>,
    pub cancelled: Option<bool>,
}

impl ExtensionUiResponse {
    /// An answer carrying a value.
    pub fn value(id: &str, value: &str) -> (r: Self)
        ensures
            r.id@ == id@,
            opt_view(r.value) == Some(value@),
            r.confirmed is None,
            r.cancelled is None,
    {
        ExtensionUiResponse { id: id.to_string(), value: Some(value.to_string()), confirmed: None, cancelled: None }
    }

    /// An answer to a confirmation.
    pub fn confirmed(id: &str, confirmed: bool) -> (r: Self)
        ensures
            r.id@ == id@,
            r.value is None,
            r.confirmed == Some(confirmed),
            r.cancelled is None,
    {
        ExtensionUiResponse { id: id.to_string(), value: None, confirmed: Some(confirmed), cancelled: None }
    }

    /// A cancelled request.
    pub fn cancelled(id: &str) -> (r: Self)
        ensures
            r.id@ == id@,
            r.value is None,
            r.confirmed is None,
            r.cancelled == Some(true),
    {
        ExtensionUiResponse { id: id.to_string(), value: None, confirmed: None, cancelled: Some(true) }
    }
}

/// Kind of a streaming assistant delta.
#[derive(Debug, Clone, Copy, PartialEq, Eq, Structural)]
pub enum AssistantEventType {
    Start,
    TextStart,
    TextDelta,
    TextEnd,
    ThinkingStart,
    ThinkingDelta,
    ThinkingEnd,
    ToolCallStart,
    ToolCallDelta,
    ToolCallEnd,
    Done,
    Error,
}

/// A `!command` run by the user and its captured output.
#[derive(Debug, Clone)]
pub struct BashExecutionMessage {
    pub command: String,
    pub output: String,
    pub exit_code: i32,
    pub cancelled: bool,
    pub truncated: bool,
    pub full_output_path: Option<String>,
    pub timestamp: Option<i64>,
}

/// A file attached to a user message.
#[derive(Debug, Clone)]
pub struct Attachment {
    pub id: String,
    pub attachment_type: String,
    pub file_name: Option<String>,
    pub mime_type: Option<String>,
    pub size: Option<u64>,
    pub content: Option<String>,
}

/// A reply is about a session change: a successful `switch_session` or
/// `new_session`.
pub fn is_session_response(success: bool, command: &str) -> (r: bool)
    ensures
        r == (success && (command@ == "switch_session"@ || command@ == "new_session"@)),
{
    success && (crate::text::same_text(command, "switch_session") || crate::text::same_text(command, "new_session"))
}

} // verus!
