//! The direct tool-loop baseline agent: its configuration, the tool calls it
//! reads from model output, the checks made before a tool runs, and the
//! sequence-numbered evidence log it keeps.

use vstd::prelude::*;

use crate::json::{member_of, JsonValue};
use crate::text::{chars_of, find_chars, find_seq, push_text, slice_chars, str_eq, string_from_chars, string_of, u64_text, dec_text};

verus! {

// ── Configuration ───────────────────────────────────────────────────────────

/// Configuration of the tool-loop agent.
pub struct AgentConfig {
    /// Maximum number of model turns before giving up.
    pub max_turns: u32,
    /// Maximum output tokens per model call.
    pub max_tokens: u32,
}

impl Default for AgentConfig {
    fn default() -> (c: Self)
        ensures
            c.max_turns == 20 && c.max_tokens == 4096,
    {
        AgentConfig { max_turns: 20, max_tokens: 4096 }
    }
}

// ── Tools ───────────────────────────────────────────────────────────────────

/// A tool call produced by the model.
pub struct ToolCall {
    pub name: String,
    pub arguments: JsonValue,
}

/// Result of executing a tool.
pub struct ToolResult {
    /// Whether execution succeeded.
    pub success: bool,
    /// Output text (stdout or error message).
    pub output: String,
}

/// The work a well-formed tool call asks for.
pub enum ToolRequest {
    ReadFile { path: String },
    WriteFile { path: String, content: String },
    ExecutePython { code: String },
}

/// String argument `key` of a tool call, or empty where absent or not a string.
pub open spec fn arg_text(args: JsonValue, key: Seq<char>) -> Seq<char> {
    match args {
        JsonValue::Object(m) => match member_of(m@, key) {
            Some(JsonValue::Str(s)) => s@,
            _ => seq![],
        },
        _ => seq![],
    }
}

/// What a tool call comes to before any I/O: the request to perform, or the
/// failure text of a call that cannot run.
pub open spec fn tool_plan(name: Seq<char>, args: JsonValue) -> Result<ToolRequestView, Seq<char>> {
    if name == "read_file"@ {
        if arg_text(args, "path"@).len() == 0 {
            Err("read_file: missing 'path'"@)
        } else {
            Ok(ToolRequestView::ReadFile(arg_text(args, "path"@)))
        }
    } else if name == "write_file"@ {
        if arg_text(args, "path"@).len() == 0 {
            Err("write_file: missing 'path'"@)
        } else {
            Ok(ToolRequestView::WriteFile(arg_text(args, "path"@), arg_text(args, "content"@)))
        }
    } else if name == "execute_python"@ {
        if arg_text(args, "code"@).len() == 0 {
            Err("execute_python: missing 'code'"@)
        } else {
            Ok(ToolRequestView::ExecutePython(arg_text(args, "code"@)))
        }
    } else {
        Err("unknown tool: "@ + name)
    }
}

pub enum ToolRequestView {
    ReadFile(Seq<char>),
    WriteFile(Seq<char>, Seq<char>),
    ExecutePython(Seq<char>),
}

pub open spec fn request_view(r: ToolRequest) -> ToolRequestView {
    match r {
        ToolRequest::ReadFile { path } => ToolRequestView::ReadFile(path@),
        ToolRequest::WriteFile { path, content } => ToolRequestView::WriteFile(path@, content@),
        ToolRequest::ExecutePython { code } => ToolRequestView::ExecutePython(code@),
    }
}

fn arg_str(args: &JsonValue, key: &str) -> (r: String)
    ensures
        r@ == arg_text(*args, key@),
{
    match args {
        JsonValue::Object(m) => match crate::json::get_member(m, key) {
            Some(JsonValue::Str(s)) => string_of(s.as_str()),
            _ => String::new(),
        },
        _ => String::new(),
    }
}

/// Decides what a tool call asks for: the request to perform, or the failed
/// result of a call that names an unknown tool or lacks its argument.
pub fn plan_tool_call(call: &ToolCall) -> (r: Result<ToolRequest, ToolResult>)
    ensures
        match tool_plan(call.name@, call.arguments) {
            Ok(v) => r matches Ok(q) && request_view(q) == v,
            Err(m) => r matches Err(t) && !t.success && t.output@ == m,
        },
{
    let name = call.name.as_str();
    if str_eq(name, "read_file") {
        let path = arg_str(&call.arguments, "path");
        if path.unicode_len() == 0 {
            return Err(ToolResult { success: false, output: string_of("read_file: missing 'path'") });
        }
        Ok(ToolRequest::ReadFile { path })
    } else if str_eq(name, "write_file") {
        let path = arg_str(&call.arguments, "path");
        let content = arg_str(&call.arguments, "content");
        if path.unicode_len() == 0 {
            return Err(ToolResult { success: false, output: string_of("write_file: missing 'path'") });
        }
        Ok(ToolRequest::WriteFile { path, content })
    } else if str_eq(name, "execute_python") {
        let code = arg_str(&call.arguments, "code");
        if code.unicode_len() == 0 {
            return Err(
                ToolResult { success: false, output: string_of("execute_python: missing 'code'") },
            );
        }
        Ok(ToolRequest::ExecutePython { code })
    } else {
        let mut m = string_of("unknown tool: ");
        push_text(&mut m, name);
        Err(ToolResult { success: false, output: m })
    }
}

// ── Tool calls in model output ──────────────────────────────────────────────

/// Where the text between the first `<tool_call>` and the first
/// `</tool_call>` lies, when both occur.
pub open spec fn payload_bounds(text: Seq<char>) -> Option<(int, int)> {
    let s = find_seq(text, "<tool_call>"@);
    let e = find_seq(text, "</tool_call>"@);
    if s >= 0 && e >= 0 && s + "<tool_call>"@.len() <= e {
        Some((s + "<tool_call>"@.len(), e))
    } else {
        None
    }
}

/// The text between the first `<tool_call>` and the first `</tool_call>`;
/// none when a tag is missing or the first closing tag comes before the end
/// of the first opening one (no valid tool call is present).
pub fn tool_call_payload(text: &str) -> (r: Option<String>)
    ensures
        match payload_bounds(text@) {
            None => r is None,
            Some((a, b)) => r matches Some(p) && p@ == text@.subrange(a, b),
        },
{
    let v = chars_of(text);
    let open = chars_of("<tool_call>");
    let close = chars_of("</tool_call>");
    let s = find_chars(&v, &open, 0);
    let e = find_chars(&v, &close, 0);
    match (s, e) {
        (Some(s), Some(e)) => {
            proof {
                reveal_strlit("<tool_call>");
                crate::text::lemma_find_from_bounds(v@, open@, 0);
                crate::text::lemma_find_from_bounds(v@, close@, 0);
            }
            if e < s || e - s < open.len() {
                return None;
            }
            let a = s + open.len();
            let p = slice_chars(&v, a, e);
            Some(string_from_chars(p.as_slice()))
        },
        _ => None,
    }
}

/// The name and arguments of a parsed tool call object.
#[verifier::loop_isolation(false)]
pub fn tool_call_from_json(value: JsonValue) -> (r: Option<ToolCall>)
    ensures
        match value {
            JsonValue::Object(m) => match (member_of(m@, "name"@), member_of(m@, "arguments"@)) {
                (Some(JsonValue::Str(n)), Some(a)) => r matches Some(c) && c.name@ == n@
                    && c.arguments == a,
                _ => r is None,
            },
            _ => r is None,
        },
{
    match value {
        JsonValue::Object(mut m) => {
            let name = match crate::json::get_member(&m, "name") {
                Some(JsonValue::Str(n)) => string_of(n.as_str()),
                _ => {
                    return None;
                },
            };
            let ghost m0 = m@;
            let mut i: usize = 0;
            assert(m@.skip(0) =~= m@);
            while i < m.len()
                invariant
                    i <= m@.len(),
                    m@ == m0,
                    member_of(m0, "arguments"@) == member_of(m0.skip(i as int), "arguments"@),
                decreases m@.len() - i,
            {
                assert(m0.skip(i as int).drop_first() =~= m0.skip(i + 1));
                assert(m0.skip(i as int)[0] == m0[i as int]);
                if str_eq(m[i].0.as_str(), "arguments") {
                    let (_, a) = m.remove(i);
                    return Some(ToolCall { name, arguments: a });
                }
                i = i + 1;
            }
            None
        },
        _ => None,
    }
}

// ── Evidence ────────────────────────────────────────────────────────────────

/// A single evidence item, analogous to a runtime event.
pub struct EvidenceItem {
    /// Sequence number.
    pub seq: u64,
    /// RFC 3339 time of the item.
    pub timestamp: String,
    /// Event type (mirrors the runtime's event types).
    pub event_type: String,
    /// Event payload.
    pub payload: JsonValue,
}

fn member(key: &str, value: JsonValue) -> (r: (String, JsonValue))
    ensures
        r.0@ == key@ && r.1 == value,
{
    (string_of(key), value)
}

fn number(n: u64) -> (r: JsonValue)
    ensures
        r matches JsonValue::Number(t) && t@ == dec_text(n as nat),
{
    JsonValue::Number(u64_text(n))
}

fn text(s: &str) -> (r: JsonValue)
    ensures
        r matches JsonValue::Str(t) && t@ == s@,
{
    JsonValue::Str(string_of(s))
}

/// An object payload's members as keys and values.
pub open spec fn members(p: JsonValue) -> Seq<(Seq<char>, JsonValue)> {
    match p {
        JsonValue::Object(m) => m@.map_values(|kv: (String, JsonValue)| (kv.0@, kv.1)),
        _ => seq![],
    }
}

pub open spec fn is_text(v: JsonValue, s: Seq<char>) -> bool {
    v matches JsonValue::Str(t) && t@ == s
}

pub open spec fn is_number(v: JsonValue, n: nat) -> bool {
    v matches JsonValue::Number(t) && t@ == dec_text(n)
}

impl EvidenceItem {
    /// Creates an evidence item.
    pub fn new(seq: u64, timestamp: String, event_type: &str, payload: JsonValue) -> (r: Self)
        ensures
            r.seq == seq && r.timestamp == timestamp && r.event_type@ == event_type@ && r.payload
                == payload,
    {
        EvidenceItem { seq, timestamp, event_type: string_of(event_type), payload }
    }

    /// A `run.started` item: sequence 1, payload `{task_id}`.
    pub fn run_started(task_id: &str, timestamp: String) -> (r: Self)
        ensures
            r.seq == 1 && r.timestamp == timestamp && r.event_type@ == "run.started"@,
            r.payload is Object && members(r.payload).len() == 1,
            members(r.payload)[0].0 == "task_id"@ && is_text(members(r.payload)[0].1, task_id@),
    {
        let p = JsonValue::Object(vec![member("task_id", text(task_id))]);
        Self::new(1, timestamp, "run.started", p)
    }

    /// A `run.finished` item: payload `{status}`.
    pub fn run_finished(status: &str, timestamp: String) -> (r: Self)
        ensures
            r.seq == 0 && r.timestamp == timestamp && r.event_type@ == "run.finished"@,
            r.payload is Object && members(r.payload).len() == 1,
            members(r.payload)[0].0 == "status"@ && is_text(members(r.payload)[0].1, status@),
    {
        let p = JsonValue::Object(vec![member("status", text(status))]);
        Self::new(0, timestamp, "run.finished", p)
    }

    /// A `llm.call` item: payload `{model, input_tokens, output_chars}`.
    pub fn llm_call(model: &str, input_tokens: u64, output_chars: u64, timestamp: String) -> (r:
        Self)
        ensures
            r.seq == 0 && r.timestamp == timestamp && r.event_type@ == "llm.call"@,
            r.payload is Object && members(r.payload).len() == 3,
            members(r.payload)[0].0 == "model"@ && is_text(members(r.payload)[0].1, model@),
            members(r.payload)[1].0 == "input_tokens"@ && is_number(
                members(r.payload)[1].1,
                input_tokens as nat,
            ),
            members(r.payload)[2].0 == "output_chars"@ && is_number(
                members(r.payload)[2].1,
                output_chars as nat,
            ),
    {
        let p = JsonValue::Object(
            vec![
                member("model", text(model)),
                member("input_tokens", number(input_tokens)),
                member("output_chars", number(output_chars)),
            ],
        );
        Self::new(0, timestamp, "llm.call", p)
    }

    /// A `tool.call` item: payload `{tool, success, output_chars}`.
    pub fn tool_call(name: &str, success: bool, output_chars: u64, timestamp: String) -> (r: Self)
        ensures
            r.seq == 0 && r.timestamp == timestamp && r.event_type@ == "tool.call"@,
            r.payload is Object && members(r.payload).len() == 3,
            members(r.payload)[0].0 == "tool"@ && is_text(members(r.payload)[0].1, name@),
            members(r.payload)[1].0 == "success"@ && members(r.payload)[1].1 == JsonValue::Bool(
                success,
            ),
            members(r.payload)[2].0 == "output_chars"@ && is_number(
                members(r.payload)[2].1,
                output_chars as nat,
            ),
    {
        let p = JsonValue::Object(
            vec![
                member("tool", text(name)),
                member("success", JsonValue::Bool(success)),
                member("output_chars", number(output_chars)),
            ],
        );
        Self::new(0, timestamp, "tool.call", p)
    }

    /// An `artifact.stored` item: payload `{name, path, size_bytes}`.
    pub fn artifact_stored(name: &str, path: &str, size_bytes: u64, timestamp: String) -> (r: Self)
        ensures
            r.seq == 0 && r.timestamp == timestamp && r.event_type@ == "artifact.stored"@,
            r.payload is Object && members(r.payload).len() == 3,
            members(r.payload)[0].0 == "name"@ && is_text(members(r.payload)[0].1, name@),
            members(r.payload)[1].0 == "path"@ && is_text(members(r.payload)[1].1, path@),
            members(r.payload)[2].0 == "size_bytes"@ && is_number(
                members(r.payload)[2].1,
                size_bytes as nat,
            ),
    {
        let p = JsonValue::Object(
            vec![
                member("name", text(name)),
                member("path", text(path)),
                member("size_bytes", number(size_bytes)),
            ],
        );
        Self::new(0, timestamp, "artifact.stored", p)
    }
}

/// Items numbered consecutively, the last one just before `next`.
pub open spec fn consecutive(items: Seq<EvidenceItem>, next: u64) -> bool {
    forall|i: int| 0 <= i < items.len() ==> #[trigger] items[i].seq + (items.len() - i) == next
}

/// An item with its sequence number replaced.
pub open spec fn renumbered(item: EvidenceItem, seq: u64) -> EvidenceItem {
    EvidenceItem { seq, ..item }
}

/// Evidence collected during a run, numbered as it is added.
pub struct EvidenceLog {
    items: Vec<EvidenceItem>,
    next_seq: u64,
}

impl Default for EvidenceLog {
    fn default() -> (r: Self)
        ensures
            r.log_items().len() == 0 && r.log_next() == 0,
    {
        EvidenceLog { items: Vec::new(), next_seq: 0 }
    }
}

impl EvidenceLog {
    /// The items logged so far.
    pub closed spec fn log_items(&self) -> Seq<EvidenceItem> {
        self.items@
    }

    /// The sequence number the next item gets.
    pub closed spec fn log_next(&self) -> u64 {
        self.next_seq
    }

    /// A log holding the `run.started` item of `task_id`, numbered 1.
    pub fn new(task_id: &str, timestamp: String) -> (r: Self)
        ensures
            r.log_items().len() == 1,
            r.log_items()[0].seq == 1,
            r.log_items()[0].event_type@ == "run.started"@,
            r.log_items()[0].timestamp == timestamp,
            r.log_next() == 2,
            consecutive(r.log_items(), r.log_next()),
    {
        let mut log = EvidenceLog { items: Vec::new(), next_seq: 1 };
        log.add(EvidenceItem::run_started(task_id, timestamp));
        log
    }

    /// Adds an item, giving it the next sequence number.
    pub fn add(&mut self, item: EvidenceItem)
        requires
            old(self).log_next() < u64::MAX,
        ensures
            final(self).log_items() == old(self).log_items().push(
                renumbered(item, old(self).log_next()),
            ),
            final(self).log_next() == old(self).log_next() + 1,
            consecutive(old(self).log_items(), old(self).log_next()) ==> consecutive(
                final(self).log_items(),
                final(self).log_next(),
            ),
    {
        let mut item = item;
        item.seq = self.next_seq;
        self.next_seq = self.next_seq + 1;
        self.items.push(item);
    }

    /// All items logged so far.
    pub fn items(&self) -> (r: &Vec<EvidenceItem>)
        ensures
            r@ == self.log_items(),
    {
        &self.items
    }

    /// Adds the `run.finished` item and returns the whole log.
    pub fn finish(self, status: &str, timestamp: String) -> (r: Vec<EvidenceItem>)
        ensures
            r@.len() == self.log_items().len() + 1,
            r@.take(self.log_items().len() as int) == self.log_items(),
            r@.last().seq == self.log_next(),
            r@.last().event_type@ == "run.finished"@,
            r@.last().timestamp == timestamp,
            members(r@.last().payload).len() == 1,
            members(r@.last().payload)[0].0 == "status"@,
            is_text(members(r@.last().payload)[0].1, status@),
            consecutive(self.log_items(), self.log_next()) ==> forall|i: int|
                0 <= i < r@.len() ==> #[trigger] r@[i].seq + (r@.len() - 1 - i) == self.log_next(),
    {
        let mut item = EvidenceItem::run_finished(status, timestamp);
        item.seq = self.next_seq;
        let mut items = self.items;
        items.push(item);
        assert(items@.take(self.items@.len() as int) =~= self.items@);
        items
    }
}

} // verus!
