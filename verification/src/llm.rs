//! Chat messages for the model providers: message builders, the mapping of a
//! conversation to the OpenAI-compatible format, and the assembly of an
//! Anthropic reply into text and tool calls.

use vstd::prelude::*;

use crate::json::JsonValue;
use crate::lower::opt_view;
use crate::text::{push_text, str_eq, string_of};

verus! {

/// Default maximum output tokens. Reasoning models spend much of the budget
/// on thinking before the answer; 16384 was still overrun at times, so the
/// default is 32768.
pub const DEFAULT_MAX_TOKENS: u32 = 32768;

/// A content block of a message (text or tool result).
pub struct ContentBlockOut {
    pub block_type: String,
    pub text: Option<String>,
    pub tool_use_id: Option<String>,
    pub content: Option<String>,
}

/// Message content: plain text or structured blocks.
pub enum MessageContent {
    Text(String),
    Blocks(Vec<ContentBlockOut>),
}

/// A chat message.
pub struct ChatMessage {
    pub role: String,
    pub content: MessageContent,
}

/// A message with plain text content.
pub open spec fn text_message(m: ChatMessage, role: Seq<char>, text: Seq<char>) -> bool {
    m.role@ == role && (m.content matches MessageContent::Text(t) && t@ == text)
}

/// Creates a user message with plain text.
pub fn user_message(text: &str) -> (m: ChatMessage)
    ensures
        text_message(m, "user"@, text@),
{
    ChatMessage { role: string_of("user"), content: MessageContent::Text(string_of(text)) }
}

/// Creates an assistant message with plain text.
pub fn assistant_message(text: &str) -> (m: ChatMessage)
    ensures
        text_message(m, "assistant"@, text@),
{
    ChatMessage { role: string_of("assistant"), content: MessageContent::Text(string_of(text)) }
}

/// Creates a tool result message: a user message holding one `tool_result`
/// block.
pub fn tool_result_message(tool_use_id: &str, result_text: &str) -> (m: ChatMessage)
    ensures
        m.role@ == "user"@,
        m.content is Blocks,
        m.content->Blocks_0@.len() == 1,
        m.content->Blocks_0@[0].block_type@ == "tool_result"@,
        m.content->Blocks_0@[0].text is None,
        opt_view(m.content->Blocks_0@[0].tool_use_id) == Some(tool_use_id@),
        opt_view(m.content->Blocks_0@[0].content) == Some(result_text@),
{
    let mut blocks: Vec<ContentBlockOut> = Vec::new();
    blocks.push(
        ContentBlockOut {
            block_type: string_of("tool_result"),
            text: None,
            tool_use_id: Some(string_of(tool_use_id)),
            content: Some(string_of(result_text)),
        },
    );
    ChatMessage { role: string_of("user"), content: MessageContent::Blocks(blocks) }
}

/// LLM provider transport flavor.
#[derive(Debug, Clone, Copy, PartialEq, Eq, Structural)]
pub enum Provider {
    Anthropic,
    OpenAi,
}

impl Provider {
    /// The provider a configuration value selects: `openai`, else Anthropic.
    pub fn from_setting(value: Option<&str>) -> (p: Provider)
        ensures
            p == if value is Some && value.unwrap()@ == "openai"@ {
                Provider::OpenAi
            } else {
                Provider::Anthropic
            },
    {
        match value {
            Some(v) => if str_eq(v, "openai") {
                Provider::OpenAi
            } else {
                Provider::Anthropic
            },
            None => Provider::Anthropic,
        }
    }
}

/// A tool call requested by the model.
pub struct LlmToolCall {
    pub id: String,
    pub name: String,
    pub input: JsonValue,
}

/// A chat reply: its text and the tool calls it requests.
pub struct ChatResponse {
    pub text: String,
    pub tool_calls: Vec<LlmToolCall>,
}

impl ChatResponse {
    /// Whether the reply requests at least one tool call.
    pub fn has_tool_calls(&self) -> (b: bool)
        ensures
            b == (self.tool_calls@.len() > 0),
    {
        self.tool_calls.len() > 0
    }
}

// ── Anthropic replies ──────────────────────────────────────────────────────

/// A content block of an Anthropic reply.
pub struct ReplyBlock {
    pub block_type: String,
    pub text: Option<String>,
    pub id: Option<String>,
    pub name: Option<String>,
    pub input: Option<JsonValue>,
}

/// The reply text: the texts of the `text` blocks, concatenated in order.
pub open spec fn reply_text(blocks: Seq<ReplyBlock>) -> Seq<char>
    decreases blocks.len(),
{
    if blocks.len() == 0 {
        seq![]
    } else {
        let b = blocks.last();
        reply_text(blocks.drop_last()) + if b.block_type@ == "text"@ && b.text is Some {
            b.text.unwrap()@
        } else {
            seq![]
        }
    }
}

/// A `tool_use` block with an id, a name and an input becomes a tool call.
pub open spec fn is_tool_use(b: ReplyBlock) -> bool {
    b.block_type@ == "tool_use"@ && b.id is Some && b.name is Some && b.input is Some
}

/// The tool uses of a reply, in order.
pub open spec fn tool_uses(blocks: Seq<ReplyBlock>) -> Seq<ReplyBlock>
    decreases blocks.len(),
{
    if blocks.len() == 0 {
        seq![]
    } else if is_tool_use(blocks.last()) {
        tool_uses(blocks.drop_last()).push(blocks.last())
    } else {
        tool_uses(blocks.drop_last())
    }
}

pub open spec fn call_of(c: LlmToolCall, b: ReplyBlock) -> bool {
    c.id@ == b.id.unwrap()@ && c.name@ == b.name.unwrap()@ && c.input == b.input.unwrap()
}

/// Assembles an Anthropic reply into its text and its tool calls.
pub fn assemble_reply(blocks: Vec<ReplyBlock>) -> (r: ChatResponse)
    ensures
        r.text@ == reply_text(blocks@),
        r.tool_calls@.len() == tool_uses(blocks@).len(),
        forall|i: int|
            0 <= i < r.tool_calls@.len() ==> call_of(#[trigger] r.tool_calls@[i], tool_uses(blocks@)[i]),
{
    let ghost all = blocks@;
    let mut blocks = blocks;
    let mut rev: Vec<ReplyBlock> = Vec::new();
    while blocks.len() > 0
        invariant
            all == blocks@ + rev@.reverse(),
        decreases blocks@.len(),
    {
        let b = blocks.pop().unwrap();
        let ghost before = rev@;
        rev.push(b);
        assert(rev@.reverse() =~= seq![b] + before.reverse());
    }
    assert(rev@.reverse() =~= all);
    let mut text = String::new();
    let mut calls: Vec<LlmToolCall> = Vec::new();
    let ghost mut seen: Seq<ReplyBlock> = seq![];
    while rev.len() > 0
        invariant
            all == seen + rev@.reverse(),
            text@ == reply_text(seen),
            calls@.len() == tool_uses(seen).len(),
            forall|i: int| 0 <= i < calls@.len() ==> call_of(#[trigger] calls@[i], tool_uses(seen)[i]),
        decreases rev@.len(),
    {
        let ghost r0 = rev@;
        let b = rev.pop().unwrap();
        proof {
            assert(r0.reverse() =~= seq![b] + rev@.reverse());
            assert(seen.push(b).drop_last() =~= seen);
        }
        let is_text = str_eq(b.block_type.as_str(), "text");
        let is_tool = str_eq(b.block_type.as_str(), "tool_use");
        let ghost old_calls = calls@;
        match b {
            ReplyBlock { block_type: _, text: t, id, name, input } => {
                if is_text {
                    match t {
                        Some(s) => push_text(&mut text, s.as_str()),
                        None => {},
                    }
                } else {
                    assert(reply_text(seen.push(b)) =~= reply_text(seen));
                }
                if is_tool {
                    match (id, name, input) {
                        (Some(i), Some(n), Some(v)) => {
                            calls.push(LlmToolCall { id: i, name: n, input: v });
                        },
                        _ => {},
                    }
                }
            },
        }
        proof {
            if is_text && b.text is Some {
                assert(text@ =~= reply_text(seen.push(b)));
            } else if is_text {
                assert(reply_text(seen.push(b)) =~= reply_text(seen));
            }
            assert forall|i: int| 0 <= i < calls@.len() implies call_of(
                #[trigger] calls@[i],
                tool_uses(seen.push(b))[i],
            ) by {
                if i < old_calls.len() {
                    assert(calls@[i] == old_calls[i]);
                }
            }
            seen = seen.push(b);
        }
    }
    assert(seen =~= all);
    ChatResponse { text, tool_calls: calls }
}

// ── OpenAI-compatible conversations ────────────────────────────────────────

/// A message in the OpenAI Chat Completions format.
pub struct OpenAiMessage {
    pub role: String,
    pub content: Option<String>,
    pub tool_call_id: Option<String>,
}

/// The OpenAI view of a message: role, content and tool call id.
pub open spec fn oa_view(m: OpenAiMessage) -> (Seq<char>, Option<Seq<char>>, Option<Seq<char>>) {
    (m.role@, opt_view(m.content), opt_view(m.tool_call_id))
}

/// The OpenAI messages one chat message maps to: a text message keeps its
/// role; every `tool_result` block becomes a `tool` message.
pub open spec fn mapped(m: ChatMessage) -> Seq<(Seq<char>, Option<Seq<char>>, Option<Seq<char>>)> {
    match m.content {
        MessageContent::Text(t) => seq![(m.role@, Some(t@), None)],
        MessageContent::Blocks(bs) => tool_results(bs@),
    }
}

pub open spec fn tool_results(bs: Seq<ContentBlockOut>) -> Seq<(Seq<char>, Option<Seq<char>>, Option<Seq<char>>)>
    decreases bs.len(),
{
    if bs.len() == 0 {
        seq![]
    } else {
        let b = bs.last();
        tool_results(bs.drop_last()) + if b.block_type@ == "tool_result"@ {
            seq![("tool"@, opt_view(b.content), opt_view(b.tool_use_id))]
        } else {
            seq![]
        }
    }
}

pub open spec fn mapped_all(ms: Seq<ChatMessage>) -> Seq<(Seq<char>, Option<Seq<char>>, Option<Seq<char>>)>
    decreases ms.len(),
{
    if ms.len() == 0 {
        seq![]
    } else {
        mapped_all(ms.drop_last()) + mapped(ms.last())
    }
}

fn copy_opt(o: &Option<String>) -> (r: Option<String>)
    ensures
        opt_view(r) == opt_view(*o),
{
    match o {
        Some(s) => Some(s.clone()),
        None => None,
    }
}

/// The conversation in the OpenAI format: the system prompt first, then each
/// message mapped in order.
pub fn to_openai_messages(system: &str, messages: &Vec<ChatMessage>) -> (r: Vec<OpenAiMessage>)
    ensures
        r@.map_values(|m: OpenAiMessage| oa_view(m)) == seq![("system"@, Some(system@), None)]
            + mapped_all(messages@),
{
    let mut out: Vec<OpenAiMessage> = Vec::new();
    out.push(OpenAiMessage { role: string_of("system"), content: Some(string_of(system)), tool_call_id: None });
    assert(out@.map_values(|m: OpenAiMessage| oa_view(m)) =~= seq![("system"@, Some(system@), None)]);
    let mut i: usize = 0;
    while i < messages.len()
        invariant
            i <= messages@.len(),
            out@.map_values(|m: OpenAiMessage| oa_view(m)) == seq![("system"@, Some(system@), None)]
                + mapped_all(messages@.take(i as int)),
        decreases messages@.len() - i,
    {
        let m = &messages[i];
        let ghost before = out@.map_values(|m: OpenAiMessage| oa_view(m));
        assert(messages@.take(i + 1).drop_last() =~= messages@.take(i as int));
        match &m.content {
            MessageContent::Text(t) => {
                out.push(OpenAiMessage { role: m.role.clone(), content: Some(t.clone()), tool_call_id: None });
                assert(out@.map_values(|m: OpenAiMessage| oa_view(m)) =~= before + mapped(*m));
            },
            MessageContent::Blocks(bs) => {
                let mut k: usize = 0;
                while k < bs.len()
                    invariant
                        k <= bs@.len(),
                        out@.map_values(|m: OpenAiMessage| oa_view(m)) == before + tool_results(
                            bs@.take(k as int),
                        ),
                    decreases bs@.len() - k,
                {
                    let b = &bs[k];
                    let ghost b2 = out@.map_values(|m: OpenAiMessage| oa_view(m));
                    assert(bs@.take(k + 1).drop_last() =~= bs@.take(k as int));
                    if str_eq(b.block_type.as_str(), "tool_result") {
                        out.push(
                            OpenAiMessage {
                                role: string_of("tool"),
                                content: copy_opt(&b.content),
                                tool_call_id: copy_opt(&b.tool_use_id),
                            },
                        );
                        assert(out@.map_values(|m: OpenAiMessage| oa_view(m)) =~= b2.push(
                            ("tool"@, opt_view(b.content), opt_view(b.tool_use_id)),
                        ));
                    }
                    assert(before + tool_results(bs@.take(k + 1)) =~= out@.map_values(
                        |m: OpenAiMessage| oa_view(m),
                    ));
                    k = k + 1;
                }
                assert(bs@.take(k as int) =~= bs@);
            },
        }
        assert(seq![("system"@, Some(system@), None)] + mapped_all(messages@.take(i + 1)) =~= out@.map_values(
            |m: OpenAiMessage| oa_view(m),
        ));
        i = i + 1;
    }
    assert(messages@.take(i as int) =~= messages@);
    out
}

} // verus!
