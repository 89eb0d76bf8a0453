//! Session bookkeeping of the gateway: per pi instance, the messages seen
//! so far, the message being streamed, who is watching, activity state,
//! idle expiry and automatic titles.

use vstd::prelude::*;
use crate::rpc::opt_view;
use crate::text::{chars_of, concat_chars, string_of};

verus! {

// ─── Messages ──────────────────────────────────────────────────────────────

/// One block of a message's content array: its `type` and its `text`, when
/// they are strings.
#[derive(Debug, Clone)]
pub struct ContentPiece {
    pub kind: Option<String>,
    pub text: Option<String>,
}

/// A message's `content` field.
#[derive(Debug, Clone)]
pub enum MessageContent {
    /// No `content` field.
    Missing,
    /// A plain string.
    Text(String),
    /// An array of blocks.
    Blocks(Vec<ContentPiece>),
    /// Any other JSON value.
    Other,
}

/// A tool run recorded on the message being streamed.
#[derive(Debug, Clone)]
pub struct ToolExecution {
    pub id: String,
    pub name: String,
}

/// A conversation message: its `role` (when a string), its content, the
/// JSON text it arrived as (`None` for a placeholder made here), and the
/// tool runs added while it was streaming.
#[derive(Debug, Clone)]
pub struct ChatMessage {
    pub role: Option<String>,
    pub content: MessageContent,
    pub raw: Option<String>,
    pub tool_executions: Vec<ToolExecution>,
}

/// Abstract content block.
pub struct PieceView {
    pub kind: Option<Seq<char>>,
    pub text: Option<Seq<char>>,
}

/// Abstract content.
pub enum ContentView {
    Missing,
    Text(Seq<char>),
    Blocks(Seq<PieceView>),
    Other,
}

/// Abstract message.
pub struct MessageView {
    pub role: Option<Seq<char>>,
    pub content: ContentView,
    pub raw: Option<Seq<char>>,
    pub tools: Seq<(Seq<char>, Seq<char>)>,
}

impl View for ContentPiece {
    type V = PieceView;

    open spec fn view(&self) -> PieceView {
        PieceView { kind: opt_view(self.kind), text: opt_view(self.text) }
    }
}

impl View for MessageContent {
    type V = ContentView;

    open spec fn view(&self) -> ContentView {
        match self {
            MessageContent::Missing => ContentView::Missing,
            MessageContent::Text(s) => ContentView::Text(s@),
            MessageContent::Blocks(b) => ContentView::Blocks(b@.map_values(|p: ContentPiece| p@)),
            MessageContent::Other => ContentView::Other,
        }
    }
}

impl View for ToolExecution {
    type V = (Seq<char>, Seq<char>);

    open spec fn view(&self) -> (Seq<char>, Seq<char>) {
        (self.id@, self.name@)
    }
}

impl View for ChatMessage {
    type V = MessageView;

    open spec fn view(&self) -> MessageView {
        MessageView {
            role: opt_view(self.role),
            content: self.content@,
            raw: opt_view(self.raw),
            tools: self.tool_executions@.map_values(|t: ToolExecution| t@),
        }
    }
}

/// The messages' abstract values.
pub open spec fn message_views(v: Seq<ChatMessage>) -> Seq<MessageView> {
    v.map_values(|m: ChatMessage| m@)
}

pub fn copy_opt_string(s: &Option<String>) -> (r: Option<String>)
    ensures
        opt_view(r) == opt_view(*s),
{
    match s {
        Some(x) => Some(x.clone()),
        None => None,
    }
}

fn copy_content(c: &MessageContent) -> (r: MessageContent)
    ensures
        r@ == c@,
{
    match c {
        MessageContent::Missing => MessageContent::Missing,
        MessageContent::Text(s) => MessageContent::Text(s.clone()),
        MessageContent::Blocks(b) => {
            let mut out: Vec<ContentPiece> = Vec::new();
            for k in 0..b.len()
                invariant
                    out@.len() == k,
                    forall|j: int| 0 <= j < k ==> (#[trigger] out@[j])@ == b@[j]@,
            {
                out.push(ContentPiece { kind: copy_opt_string(&b[k].kind), text: copy_opt_string(&b[k].text) });
            }
            assert(out@.map_values(|p: ContentPiece| p@) =~= b@.map_values(|p: ContentPiece| p@));
            MessageContent::Blocks(out)
        },
        MessageContent::Other => MessageContent::Other,
    }
}

/// A copy of a message with the same abstract value.
pub fn copy_message(m: &ChatMessage) -> (r: ChatMessage)
    ensures
        r@ == m@,
{
    let mut tools: Vec<ToolExecution> = Vec::new();
    for k in 0..m.tool_executions.len()
        invariant
            tools@.len() == k,
            forall|j: int| 0 <= j < k ==> (#[trigger] tools@[j])@ == m.tool_executions@[j]@,
    {
        let t = &m.tool_executions[k];
        tools.push(ToolExecution { id: t.id.clone(), name: t.name.clone() });
    }
    assert(tools@.map_values(|t: ToolExecution| t@) =~= m.tool_executions@.map_values(|t: ToolExecution| t@));
    ChatMessage {
        role: copy_opt_string(&m.role),
        content: copy_content(&m.content),
        raw: copy_opt_string(&m.raw),
        tool_executions: tools,
    }
}

/// A copy of a list of messages with the same abstract values.
pub fn copy_messages(v: &Vec<ChatMessage>) -> (r: Vec<ChatMessage>)
    ensures
        message_views(r@) == message_views(v@),
{
    let mut out: Vec<ChatMessage> = Vec::new();
    for k in 0..v.len()
        invariant
            out@.len() == k,
            forall|j: int| 0 <= j < k ==> (#[trigger] out@[j])@ == v@[j]@,
    {
        out.push(copy_message(&v[k]));
    }
    assert(message_views(out@) =~= message_views(v@));
    out
}

/// The texts of the `text` blocks, joined with newlines.
pub open spec fn blocks_text(b: Seq<PieceView>) -> Seq<char>
    decreases b.len(),
{
    if b.len() == 0 {
        seq![]
    } else {
        let rest = blocks_text(b.drop_last());
        let p = b.last();
        if p.kind == Some("text"@) && p.text is Some {
            if blocks_has_text(b.drop_last()) {
                rest.push('\n') + p.text->0
            } else {
                p.text->0
            }
        } else {
            rest
        }
    }
}

/// Some block is a `text` block with a text.
pub open spec fn blocks_has_text(b: Seq<PieceView>) -> bool {
    exists|k: int| 0 <= k < b.len() && (#[trigger] b[k]).kind == Some("text"@) && b[k].text is Some
}

/// The plain text of a message: a string content as is, the `text` blocks
/// of an array joined with newlines, otherwise nothing.
pub open spec fn message_text(c: ContentView) -> Seq<char> {
    match c {
        ContentView::Text(s) => s,
        ContentView::Blocks(b) => blocks_text(b),
        _ => seq![],
    }
}

/// Extracts the plain text of a message (string content, or its `text`
/// blocks joined with newlines).
pub fn extract_message_text(m: &ChatMessage) -> (r: String)
    ensures
        r@ == message_text(m.content@),
{
    match &m.content {
        MessageContent::Text(s) => s.clone(),
        MessageContent::Blocks(b) => {
            let ghost pv = b@.map_values(|p: ContentPiece| p@);
            let mut out: Vec<char> = Vec::new();
            let mut any = false;
            let text_kind = chars_of("text");
            for k in 0..b.len()
                invariant
                    pv == b@.map_values(|p: ContentPiece| p@),
                    text_kind@ == "text"@,
                    out@ == blocks_text(pv.subrange(0, k as int)),
                    any == blocks_has_text(pv.subrange(0, k as int)),
            {
                let ghost pre = pv.subrange(0, k as int);
                let ghost next = pv.subrange(0, k + 1 as int);
                assert(next.drop_last() =~= pre);
                assert(next.last() == b@[k as int]@);
                let is_text = match &b[k].kind {
                    Some(kind) => crate::text::same_chars(&chars_of(kind.as_str()), &text_kind),
                    None => false,
                };
                match &b[k].text {
                    Some(t) => {
                        if is_text {
                            let tc = chars_of(t.as_str());
                            if any {
                                out.push('\n');
                                out = concat_chars(&out, &tc);
                            } else {
                                out = tc;
                            }
                            any = true;
                            assert(blocks_has_text(next)) by {
                                assert(next[k as int].kind == Some("text"@));
                            }
                        } else {
                            assert(blocks_has_text(next) == blocks_has_text(pre)) by {
                                if blocks_has_text(next) {
                                    let j = choose|j: int| 0 <= j < next.len() && (#[trigger] next[j]).kind == Some("text"@) && next[j].text is Some;
                                    assert(pre[j] == next[j]);
                                }
                            }
                        }
                    },
                    None => {
                        assert(blocks_has_text(next) == blocks_has_text(pre)) by {
                            if blocks_has_text(next) {
                                let j = choose|j: int| 0 <= j < next.len() && (#[trigger] next[j]).kind == Some("text"@) && next[j].text is Some;
                                assert(pre[j] == next[j]);
                            }
                        }
                    },
                }
            }
            assert(pv.subrange(0, b@.len() as int) =~= pv);
            string_of(&out)
        },
        _ => String::new(),
    }
}

} // verus!
