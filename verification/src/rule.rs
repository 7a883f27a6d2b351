//! The rule-first planner: a deterministic `read → summarize → write` program
//! for tasks whose inputs are files.

use vstd::prelude::*;

use crate::error::AcosError;
use crate::json::{json_escape, json_items, json_string_array, to_json_string_array, JsonValue};
use crate::cir::{effects_s, has_id, has_primitive, node_control_s};
use crate::compiler::{semantic_ends, semantic_s, structural_s};
use crate::contract::{
    contract_s, entries_s, inputs_s, last_producer, node_refs_s, outputs_complete_s, ref_s, refs_s,
    type_for, walk_list, walk_s, WalkS,
};
use crate::plan::{allowed_capability, split_dot};
use crate::reach::{is_path, last_node, orphans, reachable, succ_ids};
use crate::refs::{closed_from, json_refs, refs_from, text_refs, views};
use crate::text::{
    all_ws, chars_of, dec_text, digit_char, is_ws, lemma_trim_empty_iff_all_ws, push_text,
    string_of, u64_text,
};
use crate::traits::{CompileResult, Diagnostic, DiagnosticLevel};
use crate::types::{
    fields_view, uuid_string, uuid_text, CirNode, CirNodeKind, CirProgram, EffectDecl, EffectKind, OutputSpec,
    ProgramId, TaskInput, TaskSpec,
};

verus! {

/// ASCII case folding of one character, as a code point.
pub open spec fn ascii_fold(c: char) -> u32 {
    if 'A' <= c && c <= 'Z' {
        (c as u32 + 32) as u32
    } else {
        c as u32
    }
}

/// `str::eq_ignore_ascii_case`.
pub open spec fn eq_ignore_ascii_case(a: Seq<char>, b: Seq<char>) -> bool {
    a.len() == b.len() && forall|i: int| 0 <= i < a.len() ==> #[trigger] ascii_fold(a[i]) == ascii_fold(b[i])
}

pub open spec fn is_file_input(i: TaskInput) -> bool {
    eq_ignore_ascii_case(i.input_type@, "file"@)
}

/// The paths of the file inputs, in order.
pub open spec fn file_paths(inputs: Seq<TaskInput>) -> Seq<Seq<char>>
    decreases inputs.len(),
{
    if inputs.len() == 0 {
        seq![]
    } else {
        file_paths(inputs.drop_last()) + if is_file_input(inputs.last()) {
            seq![inputs.last().path@]
        } else {
            seq![]
        }
    }
}

pub open spec fn read_id(i: nat) -> Seq<char> {
    "read_"@ + dec_text(i)
}

pub open spec fn raw_name(i: nat) -> Seq<char> {
    "raw_"@ + dec_text(i)
}

pub open spec fn raw_ref(i: nat) -> Seq<char> {
    "${raw_"@ + dec_text(i) + "}"@
}

/// Inputs that are the given keys with string values, in order.
pub open spec fn str_inputs(ins: Seq<(String, JsonValue)>, expected: Seq<(Seq<char>, Seq<char>)>) -> bool {
    &&& ins.len() == expected.len()
    &&& forall|i: int|
        0 <= i < ins.len() ==> (#[trigger] ins[i]).0@ == expected[i].0 && (ins[i].1 matches JsonValue::Str(
            s,
        ) && s@ == expected[i].1)
}

/// A primitive invocation of `cap` that binds a `String` output `out`.
pub open spec fn rule_primitive(
    n: CirNode,
    id: Seq<char>,
    cap: Seq<char>,
    out: Seq<char>,
    ins: Seq<(Seq<char>, Seq<char>)>,
) -> bool {
    &&& n.kind == CirNodeKind::PrimitiveInvocation
    &&& n.node_id@ == id
    &&& n.capability matches Some(c) && c@ == cap
    &&& n.output matches Some(o) && o.name@ == out && o.type_label@ == "String"@ && o.fields@.len()
        == 0
    &&& n.input_types@.len() == 0
    &&& n.children@.len() == 0
    &&& n.else_children@.len() == 0
    &&& str_inputs(n.inputs@, ins)
    &&& n.control is None
}

/// A container node of `kind` over `children`.
pub open spec fn rule_container(n: CirNode, kind: CirNodeKind, id: Seq<char>, children: Seq<Seq<char>>) -> bool {
    &&& n.kind == kind
    &&& n.node_id@ == id
    &&& n.capability is None
    &&& n.output is None
    &&& n.input_types@.len() == 0
    &&& views(n.children@) == children
    &&& n.else_children@.len() == 0
    &&& n.inputs@.len() == 0
    &&& n.control is None
}

pub open spec fn effect_is(e: EffectDecl, kind: EffectKind, desc: Seq<char>) -> bool {
    e.kind == kind && e.description@ == desc && e.reversible
}

/// The program the rule-first planner builds for `task`: one `read_i` node
/// per file input, a parallel `reads` container over them, a `summarize`
/// node over all raw documents, a `write_report` node, and a `root` sequence.
pub open spec fn rule_program(p: CirProgram, task: TaskSpec) -> bool {
    let files = file_paths(task.inputs@);
    let k = files.len();
    &&& p.task_id == task.id
    &&& views(p.entry@) == seq!["root"@]
    &&& p.nodes@.len() == k + 4
    &&& forall|i: int|
        0 <= i < k ==> rule_primitive(
            #[trigger] p.nodes@[i],
            read_id(i as nat),
            "read_file"@,
            raw_name(i as nat),
            seq![("path"@, files[i])],
        )
    &&& rule_container(
        p.nodes@[k as int],
        CirNodeKind::Parallel,
        "reads"@,
        Seq::new(k, |i: int| read_id(i as nat)),
    )
    &&& rule_primitive(
        p.nodes@[k + 1int],
        "summarize"@,
        "summarize"@,
        "report_text"@,
        seq![("documents"@, json_string_array(Seq::new(k, |i: int| raw_ref(i as nat))))],
    )
    &&& rule_primitive(
        p.nodes@[k + 2int],
        "write_report"@,
        "write_file"@,
        "report_ref"@,
        seq![("path"@, "report.md"@), ("content"@, "${report_text}"@)],
    )
    &&& rule_container(
        p.nodes@[k + 3int],
        CirNodeKind::Sequence,
        "root"@,
        seq!["reads"@, "summarize"@, "write_report"@],
    )
    &&& p.effects@.len() == 2
    &&& effect_is(p.effects@[0], EffectKind::FsRead, "read input files"@)
    &&& effect_is(p.effects@[1], EffectKind::FsWrite, "write report artifact"@)
}

pub open spec fn no_file_message() -> Seq<char> {
    "no file inputs found; rule-first planner requires at least one file input"@
}

/// The fast deterministic fallback planner.
#[derive(Debug, Clone, Copy)]
pub struct RuleCompiler;

fn eq_ignore_case(a: &str, b: &str) -> (r: bool)
    ensures
        r == eq_ignore_ascii_case(a@, b@),
{
    let x = chars_of(a);
    let y = chars_of(b);
    if x.len() != y.len() {
        return false;
    }
    let mut i: usize = 0;
    while i < x.len()
        invariant
            x@ == a@,
            y@ == b@,
            x@.len() == y@.len(),
            i <= x@.len(),
            forall|k: int| 0 <= k < i ==> #[trigger] ascii_fold(x@[k]) == ascii_fold(y@[k]),
        decreases x@.len() - i,
    {
        let c = x[i];
        let d = y[i];
        let fc: u32 = if 'A' <= c && c <= 'Z' {
            c as u32 + 32
        } else {
            c as u32
        };
        let fd: u32 = if 'A' <= d && d <= 'Z' {
            d as u32 + 32
        } else {
            d as u32
        };
        if fc != fd {
            assert(ascii_fold(x@[i as int]) != ascii_fold(y@[i as int]));
            return false;
        }
        i = i + 1;
    }
    true
}

fn str_value(s: String) -> (v: JsonValue)
    ensures
        v matches JsonValue::Str(t) && t@ == s@,
{
    JsonValue::Str(s)
}

fn string_output(name: String) -> (o: Option<OutputSpec>)
    ensures
        o matches Some(x) && x.name@ == name@ && x.type_label@ == "String"@ && x.fields@.len() == 0,
{
    Some(OutputSpec { name, type_label: string_of("String"), fields: Vec::new() })
}

fn primitive(id: String, cap: &str, out: String, inputs: Vec<(String, JsonValue)>) -> (n: CirNode)
    ensures
        n.kind == CirNodeKind::PrimitiveInvocation,
        n.node_id@ == id@,
        n.capability matches Some(c) && c@ == cap@,
        n.output matches Some(o) && o.name@ == out@ && o.type_label@ == "String"@
            && o.fields@.len() == 0,
        n.input_types@.len() == 0,
        n.children@.len() == 0,
        n.else_children@.len() == 0,
        n.inputs == inputs,
        n.control is None,
{
    CirNode {
        kind: CirNodeKind::PrimitiveInvocation,
        node_id: id,
        capability: Some(string_of(cap)),
        output: string_output(out),
        input_types: Vec::new(),
        children: Vec::new(),
        else_children: Vec::new(),
        inputs,
        control: None,
    }
}

fn container(kind: CirNodeKind, id: &str, children: Vec<String>) -> (n: CirNode)
    ensures
        n.kind == kind,
        n.node_id@ == id@,
        n.capability is None,
        n.output is None,
        n.input_types@.len() == 0,
        n.children == children,
        n.else_children@.len() == 0,
        n.inputs@.len() == 0,
        n.control is None,
{
    CirNode {
        kind,
        node_id: string_of(id),
        capability: None,
        output: None,
        input_types: Vec::new(),
        children,
        else_children: Vec::new(),
        inputs: Vec::new(),
        control: None,
    }
}

fn numbered(prefix: &str, i: u64) -> (r: String)
    ensures
        r@ == prefix@ + dec_text(i as nat),
{
    let mut s = string_of(prefix);
    let d = u64_text(i);
    push_text(&mut s, d.as_str());
    s
}

impl RuleCompiler {
    pub fn new() -> (r: Self) {
        RuleCompiler
    }

    /// Builds the `read → summarize → write` program for the file inputs of
    /// `task`; a task without file inputs is refused. The program passes CIR
    /// validation when no file path holds a `${...}` reference.
    pub fn compile(&self, task: &TaskSpec) -> (r: Result<CompileResult, AcosError>)
        requires
            task.inputs@.len() < u64::MAX,
        ensures
            match r {
                Err(e) => file_paths(task.inputs@).len() == 0 && (e matches AcosError::CompilerFailure {
                    message,
                } && message@ == no_file_message()),
                Ok(res) => {
                    &&& file_paths(task.inputs@).len() > 0
                    &&& rule_program(res.program, *task)
                    &&& ref_free_paths(*task) ==> semantic_ends(res.program) && semantic_s(
                        res.program,
                    ) is None
                    &&& res.diagnostics@.len() == 1
                    &&& res.diagnostics@[0].level == DiagnosticLevel::Note
                    &&& res.diagnostics@[0].message@ == "rule-first planner generated program "@
                        + uuid_text(res.program.id.0) + " for task "@ + uuid_text(task.id.0)
                },
            },
    {
        let mut nodes: Vec<CirNode> = Vec::new();
        let mut read_children: Vec<String> = Vec::new();
        let mut raw_refs: Vec<String> = Vec::new();
        let mut k: u64 = 0;
        let mut j: usize = 0;
        while j < task.inputs.len()
            invariant
                j <= task.inputs@.len(),
                task.inputs@.len() < u64::MAX,
                k as nat == file_paths(task.inputs@.take(j as int)).len(),
                k <= j,
                nodes@.len() == k,
                forall|i: int|
                    0 <= i < k ==> rule_primitive(
                        #[trigger] nodes@[i],
                        read_id(i as nat),
                        "read_file"@,
                        raw_name(i as nat),
                        seq![("path"@, file_paths(task.inputs@.take(j as int))[i])],
                    ),
                views(read_children@) == Seq::new(k as nat, |i: int| read_id(i as nat)),
                views(raw_refs@) == Seq::new(k as nat, |i: int| raw_ref(i as nat)),
            decreases task.inputs@.len() - j,
        {
            let ghost before = file_paths(task.inputs@.take(j as int));
            assert(task.inputs@.take(j + 1).drop_last() =~= task.inputs@.take(j as int));
            assert(task.inputs@.take(j + 1).last() == task.inputs@[j as int]);
            let input = &task.inputs[j];
            if eq_ignore_case(input.input_type.as_str(), "file") {
                let id = numbered("read_", k);
                let out = numbered("raw_", k);
                let mut r = numbered("${raw_", k);
                push_text(&mut r, "}");
                let mut ins: Vec<(String, JsonValue)> = Vec::new();
                ins.push((string_of("path"), str_value(input.path.clone())));
                let node = primitive(id, "read_file", out, ins);
                proof {
                    assert(file_paths(task.inputs@.take(j + 1)) =~= before.push(input.path@));
                    assert(rule_primitive(
                        node,
                        read_id(k as nat),
                        "read_file"@,
                        raw_name(k as nat),
                        seq![("path"@, input.path@)],
                    )) by {
                        assert(str_inputs(node.inputs@, seq![("path"@, input.path@)]));
                    }
                }
                let ghost old_nodes = nodes@;
                let ghost oc = views(read_children@);
                let ghost orr = views(raw_refs@);
                let rid = numbered("read_", k);
                read_children.push(rid);
                raw_refs.push(r);
                assert(views(read_children@) =~= oc.push(read_id(k as nat)));
                assert(views(raw_refs@) =~= orr.push(raw_ref(k as nat)));
                nodes.push(node);
                proof {
                    let fp = file_paths(task.inputs@.take(j + 1));
                    assert forall|i: int| 0 <= i < k + 1 implies rule_primitive(
                        #[trigger] nodes@[i],
                        read_id(i as nat),
                        "read_file"@,
                        raw_name(i as nat),
                        seq![("path"@, fp[i])],
                    ) by {
                        if i < k {
                            assert(nodes@[i] == old_nodes[i]);
                            assert(fp[i] == before[i]);
                        }
                    }
                    assert(views(read_children@) =~= Seq::new(
                        (k + 1) as nat,
                        |i: int| read_id(i as nat),
                    ));
                    assert(views(raw_refs@) =~= Seq::new((k + 1) as nat, |i: int| raw_ref(i as nat)));
                }
                k = k + 1;
            } else {
                assert(file_paths(task.inputs@.take(j + 1)) =~= before);
            }
            j = j + 1;
        }
        assert(task.inputs@.take(j as int) =~= task.inputs@);
        if k == 0 {
            return Err(
                AcosError::CompilerFailure {
                    message: string_of(
                        "no file inputs found; rule-first planner requires at least one file input",
                    ),
                },
            );
        }
        let ghost files = file_paths(task.inputs@);
        nodes.push(container(CirNodeKind::Parallel, "reads", read_children));
        let docs = to_json_string_array(&raw_refs);
        let mut sum_ins: Vec<(String, JsonValue)> = Vec::new();
        sum_ins.push((string_of("documents"), str_value(docs)));
        nodes.push(primitive(string_of("summarize"), "summarize", string_of("report_text"), sum_ins));
        let mut write_ins: Vec<(String, JsonValue)> = Vec::new();
        write_ins.push((string_of("path"), str_value(string_of("report.md"))));
        write_ins.push((string_of("content"), str_value(string_of("${report_text}"))));
        nodes.push(
            primitive(string_of("write_report"), "write_file", string_of("report_ref"), write_ins),
        );
        let mut root_children: Vec<String> = Vec::new();
        root_children.push(string_of("reads"));
        root_children.push(string_of("summarize"));
        root_children.push(string_of("write_report"));
        nodes.push(container(CirNodeKind::Sequence, "root", root_children));
        let mut effects: Vec<EffectDecl> = Vec::new();
        effects.push(
            EffectDecl {
                kind: EffectKind::FsRead,
                description: string_of("read input files"),
                reversible: true,
            },
        );
        effects.push(
            EffectDecl {
                kind: EffectKind::FsWrite,
                description: string_of("write report artifact"),
                reversible: true,
            },
        );
        let mut entry: Vec<String> = Vec::new();
        entry.push(string_of("root"));
        let program_id = ProgramId::new();
        let program = CirProgram {
            id: program_id,
            task_id: task.id,
            entry,
            nodes,
            effects,
        };
        let mut message = string_of("rule-first planner generated program ");
        let pid = uuid_string(program_id.0);
        push_text(&mut message, pid.as_str());
        push_text(&mut message, " for task ");
        let tid = uuid_string(task.id.0);
        push_text(&mut message, tid.as_str());
        let mut diagnostics: Vec<Diagnostic> = Vec::new();
        diagnostics.push(Diagnostic { level: DiagnosticLevel::Note, message });
        proof {
            let kk = files.len();
            assert(program.nodes@[kk as int] == nodes@[kk as int]);
            assert forall|i: int| 0 <= i < kk implies rule_primitive(
                #[trigger] program.nodes@[i],
                read_id(i as nat),
                "read_file"@,
                raw_name(i as nat),
                seq![("path"@, files[i])],
            ) by {}
            assert(views(program.entry@) =~= seq!["root"@]);
            assert(str_inputs(
                program.nodes@[kk + 1int].inputs@,
                seq![("documents"@, json_string_array(Seq::new(kk, |i: int| raw_ref(i as nat))))],
            ));
            assert(str_inputs(
                program.nodes@[kk + 2int].inputs@,
                seq![("path"@, "report.md"@), ("content"@, "${report_text}"@)],
            ));
            assert(views(program.nodes@[kk + 3int].children@) =~= seq![
                "reads"@,
                "summarize"@,
                "write_report"@,
            ]);
            if ref_free_paths(*task) {
                lemma_rule_program_valid(program, *task);
            }
        }
        Ok(CompileResult { program, diagnostics })
    }
}

// ── The generated program is valid ─────────────────────────────────────────

proof fn lemma_closed_concat(x: Seq<char>, y: Seq<char>)
    requires
        closed_from(x, 0),
        closed_from(y, 0),
    ensures
        closed_from(x + y, 0),
{
    let s = x + y;
    assert forall|j: int| 0 <= j < s.len() && #[trigger] s[j] == '$' implies j + 1 < s.len() && (s[j + 1]
        == '{' ==> exists|m: int| j + 2 <= m < s.len() && s[m] == '}') by {
        if j < x.len() {
            assert(x[j] == '$');
            assert(s[j + 1] == x[j + 1]);
            if x[j + 1] == '{' {
                let m = choose|m: int| j + 2 <= m < x.len() && x[m] == '}';
                assert(s[m] == '}');
            }
        } else {
            let jj = j - x.len();
            assert(y[jj] == '$');
            assert(s[j + 1] == y[jj + 1]);
            if y[jj + 1] == '{' {
                let m = choose|m: int| jj + 2 <= m < y.len() && y[m] == '}';
                assert(s[x.len() + m] == '}');
            }
        }
    }
}

proof fn lemma_closed_plain(x: Seq<char>)
    requires
        forall|j: int| 0 <= j < x.len() ==> x[j] != '$',
    ensures
        closed_from(x, 0),
{
}

/// Decimal digits only.
proof fn lemma_dec_digits(n: nat)
    ensures
        dec_text(n).len() >= 1,
        n >= 10 ==> dec_text(n).len() >= 2,
        forall|j: int| 0 <= j < dec_text(n).len() ==> '0' <= #[trigger] dec_text(n)[j] <= '9',
    decreases n,
{
    if n >= 10 {
        lemma_dec_digits(n / 10);
        lemma_digit_char((n % 10) as nat);
    } else {
        lemma_digit_char(n);
    }
}

proof fn lemma_digit_char(d: nat)
    requires
        d < 10,
    ensures
        digit_char(d) as int == '0' as int + d,
{
    assert(seq!['0', '1', '2', '3', '4', '5', '6', '7', '8', '9'][d as int] as int == '0' as int + d) by {
        if d == 0 {} else if d == 1 {} else if d == 2 {} else if d == 3 {} else if d == 4 {}
        else if d == 5 {} else if d == 6 {} else if d == 7 {} else if d == 8 {} else {}
    }
}

/// Distinct numbers have distinct decimal texts.
proof fn lemma_dec_injective(a: nat, b: nat)
    requires
        dec_text(a) == dec_text(b),
    ensures
        a == b,
    decreases a,
{
    lemma_dec_digits(a);
    lemma_dec_digits(b);
    if a < 10 && b < 10 {
        lemma_digit_char(a);
        lemma_digit_char(b);
        assert(dec_text(a)[0] == digit_char(a));
        assert(dec_text(b)[0] == digit_char(b));
    } else if a >= 10 && b >= 10 {
        let da = dec_text(a);
        assert(da.last() == digit_char((a % 10) as nat));
        assert(dec_text(b).last() == digit_char((b % 10) as nat));
        lemma_digit_char((a % 10) as nat);
        lemma_digit_char((b % 10) as nat);
        assert(da.drop_last() =~= dec_text(a / 10));
        assert(dec_text(b).drop_last() =~= dec_text(b / 10));
        lemma_dec_injective(a / 10, b / 10);
        assert(a % 10 == b % 10);
        assert(a == 10 * (a / 10) + a % 10);
        assert(b == 10 * (b / 10) + b % 10);
    } else {
        assert(dec_text(a).len() == 1 || dec_text(b).len() == 1);
    }
}

/// Characters that JSON strings carry unescaped.
pub open spec fn json_plain(c: char) -> bool {
    c != '"' && c != '\\' && c as u32 >= 0x20
}

proof fn lemma_json_escape_plain(s: Seq<char>)
    requires
        forall|j: int| 0 <= j < s.len() ==> json_plain(#[trigger] s[j]),
    ensures
        json_escape(s) == s,
    decreases s.len(),
{
    if s.len() > 0 {
        assert(json_plain(s.last()));
        lemma_json_escape_plain(s.drop_last());
        assert(s.drop_last().push(s.last()) =~= s);
    }
}

/// The quoted JSON text of `${raw_i}`.
pub open spec fn quoted_raw_ref(i: nat) -> Seq<char> {
    seq!['"'] + json_escape(raw_ref(i)) + seq!['"']
}

proof fn lemma_quoted_raw_ref(i: nat)
    ensures
        refs_from(quoted_raw_ref(i), 0) == seq![raw_name(i)],
        closed_from(quoted_raw_ref(i), 0),
{
    reveal_strlit("${raw_");
    reveal_strlit("}");
    reveal_strlit("raw_");
    let d = dec_text(i);
    lemma_dec_digits(i);
    let r = raw_ref(i);
    let l = d.len() as int;
    assert(r.len() == 7 + l);
    assert forall|j: int| 0 <= j < r.len() implies json_plain(#[trigger] r[j]) by {
        if 6 <= j < 6 + l {
            assert(r[j] == d[j - 6]);
            assert('0' <= d[j - 6] <= '9');
        }
    }
    lemma_json_escape_plain(r);
    let q = quoted_raw_ref(i);
    assert(q =~= seq!['"'] + r + seq!['"']);
    let n = q.len() as int;
    assert(n == 9 + l);
    assert(q[0] == '"' && q[1] == '$' && q[2] == '{');
    assert(q[n - 2] == '}' && q[n - 1] == '"');
    assert forall|j: int| 3 <= j < n - 2 implies q[j] != '}' && q[j] != '$' by {
        if 7 <= j < n - 2 {
            assert(q[j] == d[j - 7]);
            assert('0' <= d[j - 7] <= '9');
        }
    }
    crate::refs::lemma_body_scan(q, 1, 3, n - 2);
    assert(q.subrange(3, n - 2) =~= raw_name(i));
    assert(refs_from(q, n - 1) =~= Seq::<Seq<char>>::empty());
    assert(refs_from(q, 0) == refs_from(q, 1));
    assert(seq![q.subrange(3, n - 2)] + refs_from(q, n - 1) =~= seq![raw_name(i)]);
    assert forall|j: int| 0 <= j < n && #[trigger] q[j] == '$' implies j + 1 < n && (q[j + 1] == '{'
        ==> exists|m: int| j + 2 <= m < n && q[m] == '}') by {
        assert(j == 1);
        assert(q[n - 2] == '}');
    }
}

pub open spec fn raw_refs(k: nat) -> Seq<Seq<char>> {
    Seq::new(k, |i: int| raw_ref(i as nat))
}

pub open spec fn raw_names(k: nat) -> Seq<Seq<char>> {
    Seq::new(k, |i: int| raw_name(i as nat))
}

proof fn lemma_comma_then(q: Seq<char>)
    ensures
        refs_from(seq![','] + q, 0) == refs_from(q, 0),
{
    crate::refs::lemma_refs_shift(seq![','], q, 0);
    if q.len() == 0 {
        assert(refs_from(seq![','] + q, 0) =~= Seq::<Seq<char>>::empty());
    }
}

proof fn lemma_items_refs(k: nat)
    requires
        k >= 1,
    ensures
        refs_from(json_items(raw_refs(k)), 0) == raw_names(k),
        closed_from(json_items(raw_refs(k)), 0),
    decreases k,
{
    let items = raw_refs(k);
    lemma_quoted_raw_ref((k - 1) as nat);
    assert(crate::json::json_quoted(items[k - 1]) == quoted_raw_ref((k - 1) as nat));
    if k == 1 {
        assert(raw_names(1) =~= seq![raw_name(0)]);
    } else {
        lemma_items_refs((k - 1) as nat);
        assert(items.drop_last() =~= raw_refs((k - 1) as nat));
        let a = json_items(raw_refs((k - 1) as nat));
        let q = quoted_raw_ref((k - 1) as nat);
        let b = seq![','] + q;
        assert(json_items(items) =~= a + b);
        crate::refs::lemma_refs_concat(a, b, 0);
        lemma_comma_then(q);
        assert(raw_names(k) =~= raw_names((k - 1) as nat) + seq![raw_name((k - 1) as nat)]);
        lemma_closed_plain(seq![',']);
        lemma_closed_concat(seq![','], q);
        lemma_closed_concat(a, b);
    }
}

/// The references of the summarize node's documents are the raw outputs, in order.
proof fn lemma_documents_refs(k: nat)
    requires
        k >= 1,
    ensures
        refs_from(json_string_array(raw_refs(k)), 0) == raw_names(k),
{
    lemma_items_refs(k);
    let j = json_items(raw_refs(k));
    let x = seq!['['] + j;
    assert(json_string_array(raw_refs(k)) =~= x + seq![']']);
    lemma_closed_plain(seq!['[']);
    lemma_closed_concat(seq!['['], j);
    crate::refs::lemma_refs_concat(x, seq![']'], 0);
    assert(refs_from(seq![']'], 0) =~= Seq::<Seq<char>>::empty());
    crate::refs::lemma_refs_shift(seq!['['], j, 0);
    assert(refs_from(x, 0) == refs_from(x, 1));
    assert(refs_from(x, 0) + Seq::<Seq<char>>::empty() =~= refs_from(x, 0));
}

/// Distinctness facts about the generated names.
proof fn lemma_rule_names(i: nat, j: nat)
    ensures
        read_id(i) == read_id(j) ==> i == j,
        raw_name(i) == raw_name(j) ==> i == j,
        read_id(i) != "reads"@,
        read_id(i) != "summarize"@,
        read_id(i) != "write_report"@,
        read_id(i) != "root"@,
        raw_name(i) != "report_text"@,
        raw_name(i) != "report_ref"@,
        forall|c: int| 0 <= c < raw_name(i).len() ==> raw_name(i)[c] != '.',
        raw_name(i).len() > 0 && !is_ws(raw_name(i)[0]),
{
    reveal_strlit("read_");
    reveal_strlit("raw_");
    reveal_strlit("reads");
    reveal_strlit("summarize");
    reveal_strlit("write_report");
    reveal_strlit("root");
    reveal_strlit("report_text");
    reveal_strlit("report_ref");
    lemma_dec_digits(i);
    lemma_dec_digits(j);
    if read_id(i) == read_id(j) {
        assert(dec_text(i) =~= read_id(i).subrange(5, read_id(i).len() as int));
        assert(dec_text(j) =~= read_id(j).subrange(5, read_id(j).len() as int));
        lemma_dec_injective(i, j);
    }
    if raw_name(i) == raw_name(j) {
        assert(dec_text(i) =~= raw_name(i).subrange(4, raw_name(i).len() as int));
        assert(dec_text(j) =~= raw_name(j).subrange(4, raw_name(j).len() as int));
        lemma_dec_injective(i, j);
    }
    assert(read_id(i)[4] == '_' && "reads"@[4] == 's');
    assert(read_id(i)[0] == 'r' && "summarize"@[0] == 's' && "write_report"@[0] == 'w');
    assert(read_id(i)[1] == 'e' && "root"@[1] == 'o');
    assert(raw_name(i)[1] == 'a' && "report_text"@[1] == 'e' && "report_ref"@[1] == 'e');
    assert forall|c: int| 0 <= c < raw_name(i).len() implies raw_name(i)[c] != '.' by {
        if c >= 4 {
            assert(raw_name(i)[c] == dec_text(i)[c - 4]);
        }
    }
}

/// A dot-free text is its own single part.
pub(crate) proof fn lemma_split_dot_plain(s: Seq<char>)
    requires
        forall|c: int| 0 <= c < s.len() ==> s[c] != '.',
    ensures
        split_dot(s) == seq![s],
    decreases s.len(),
{
    if s.len() > 0 {
        let d = s.drop_last();
        assert forall|c: int| 0 <= c < d.len() implies d[c] != '.' by {
            assert(d[c] == s[c]);
        }
        lemma_split_dot_plain(d);
        assert(s.last() == s[s.len() - 1]);
        assert(d.push(s.last()) =~= s);
        let r = split_dot(d);
        assert(r.len() == 1 && r.last() == d);
        assert(r.update(0, d.push(s.last())) =~= seq![s]);
        assert(split_dot(s) == r.update(r.len() - 1, r.last().push(s.last())));
    } else {
        assert(s =~= Seq::<char>::empty());
    }
}

/// The last producer of `name` is node `g` when no later node produces it.
pub(crate) proof fn lemma_last_producer_at(nodes: Seq<CirNode>, g: int, name: Seq<char>)
    requires
        0 <= g < nodes.len(),
        nodes[g].output is Some,
        nodes[g].output.unwrap().name@ == name,
        forall|m: int|
            g < m < nodes.len() ==> (#[trigger] nodes[m]).output is None
                || nodes[m].output.unwrap().name@ != name,
    ensures
        last_producer(nodes, name) == nodes[g].output,
    decreases nodes.len(),
{
    if g < nodes.len() - 1 {
        assert(nodes.last() == nodes[nodes.len() - 1]);
        let d = nodes.drop_last();
        assert forall|m: int| g < m < d.len() implies (#[trigger] d[m]).output is None
            || d[m].output.unwrap().name@ != name by {
            assert(d[m] == nodes[m]);
        }
        lemma_last_producer_at(d, g, name);
        assert(d[g] == nodes[g]);
    }
}

/// Outputs with a non-blank name and type are complete.
pub(crate) proof fn lemma_outputs_complete(nodes: Seq<CirNode>)
    requires
        forall|m: int|
            0 <= m < nodes.len() && (#[trigger] nodes[m]).output is Some ==> !all_ws(
                nodes[m].output.unwrap().name@,
            ) && !all_ws(nodes[m].output.unwrap().type_label@),
    ensures
        outputs_complete_s(nodes) is None,
    decreases nodes.len(),
{
    if nodes.len() > 0 {
        let n = nodes[0];
        if n.output is Some {
            lemma_trim_empty_iff_all_ws(n.output.unwrap().name@);
            lemma_trim_empty_iff_all_ws(n.output.unwrap().type_label@);
        }
        let r = nodes.drop_first();
        assert forall|m: int| 0 <= m < r.len() && (#[trigger] r[m]).output is Some implies !all_ws(
            r[m].output.unwrap().name@,
        ) && !all_ws(r[m].output.unwrap().type_label@) by {
            assert(r[m] == nodes[m + 1]);
        }
        lemma_outputs_complete(r);
    }
}

/// Where each id and output of a rule program resolves.
proof fn lemma_rule_resolution(p: CirProgram, task: TaskSpec)
    requires
        rule_program(p, task),
    ensures
        ({
            let k = file_paths(task.inputs@).len() as int;
            let nodes = p.nodes@;
            &&& forall|i: int| 0 <= i < k ==> last_node(nodes, #[trigger] read_id(i as nat)) == i
            &&& forall|i: int|
                0 <= i < k ==> last_producer(nodes, #[trigger] raw_name(i as nat)) == nodes[i].output
            &&& last_node(nodes, "reads"@) == k
            &&& last_node(nodes, "summarize"@) == k + 1
            &&& last_node(nodes, "write_report"@) == k + 2
            &&& last_node(nodes, "root"@) == k + 3
            &&& last_producer(nodes, "report_text"@) == nodes[k + 1].output
        }),
{
    reveal_strlit("reads");
    reveal_strlit("summarize");
    reveal_strlit("write_report");
    reveal_strlit("root");
    reveal_strlit("report_text");
    reveal_strlit("report_ref");
    let k = file_paths(task.inputs@).len() as int;
    let nodes = p.nodes@;
    assert forall|i: int| 0 <= i < k implies last_node(nodes, #[trigger] read_id(i as nat)) == i by {
        assert(rule_primitive(nodes[i], read_id(i as nat), "read_file"@, raw_name(i as nat), seq![("path"@, file_paths(task.inputs@)[i])]));
        assert forall|m: int| i < m < nodes.len() implies (#[trigger] nodes[m]).node_id@ != read_id(
            i as nat,
        ) by {
            lemma_rule_names(i as nat, m as nat);
            if m < k {
                assert(rule_primitive(nodes[m], read_id(m as nat), "read_file"@, raw_name(m as nat), seq![("path"@, file_paths(task.inputs@)[m])]));
            }
        }
        crate::lower::lemma_last_node_at(nodes, i, read_id(i as nat));
    }
    assert forall|i: int| 0 <= i < k implies last_producer(nodes, #[trigger] raw_name(i as nat))
        == nodes[i].output by {
        assert(rule_primitive(nodes[i], read_id(i as nat), "read_file"@, raw_name(i as nat), seq![("path"@, file_paths(task.inputs@)[i])]));
        assert forall|m: int| i < m < nodes.len() implies (#[trigger] nodes[m]).output is None
            || nodes[m].output.unwrap().name@ != raw_name(i as nat) by {
            lemma_rule_names(i as nat, m as nat);
            if m < k {
                assert(rule_primitive(nodes[m], read_id(m as nat), "read_file"@, raw_name(m as nat), seq![("path"@, file_paths(task.inputs@)[m])]));
            }
        }
        lemma_last_producer_at(nodes, i, raw_name(i as nat));
    }
    assert("reads"@.len() == 5 && "summarize"@.len() == 9);
    assert("write_report"@.len() == 12 && "root"@.len() == 4);
    assert("report_text"@.len() == 11 && "report_ref"@.len() == 10);
    crate::lower::lemma_last_node_at(nodes, k, "reads"@);
    crate::lower::lemma_last_node_at(nodes, k + 1, "summarize"@);
    crate::lower::lemma_last_node_at(nodes, k + 2, "write_report"@);
    crate::lower::lemma_last_node_at(nodes, k + 3, "root"@);
    lemma_last_producer_at(nodes, k + 1, "report_text"@);
}

/// The rule program passes every structural stage and invokes a primitive.
proof fn lemma_rule_structure(p: CirProgram, task: TaskSpec)
    requires
        rule_program(p, task),
        file_paths(task.inputs@).len() >= 1,
    ensures
        structural_s(p) is None,
        has_primitive(p.nodes@),
{
    let files = file_paths(task.inputs@);
    let k = files.len() as int;
    let nodes = p.nodes@;
    let n = nodes.len() as int;
    lemma_rule_resolution(p, task);
    assert forall|i: int| 0 <= i < k implies rule_primitive(
        #[trigger] nodes[i],
        read_id(i as nat),
        "read_file"@,
        raw_name(i as nat),
        seq![("path"@, files[i])],
    ) by {}
    let reads = nodes[k];
    let root = nodes[k + 3];
    assert(views(reads.children@) == Seq::new(k as nat, |i: int| read_id(i as nat)));
    assert(views(root.children@) == seq!["reads"@, "summarize"@, "write_report"@]);
    // Entry.
    assert forall|j: int| 0 <= j < p.entry@.len() implies has_id(nodes, #[trigger] p.entry@[j]@) by {
        assert(views(p.entry@)[j] == p.entry@[j]@);
        assert(nodes[k + 3].node_id@ == "root"@);
    }
    crate::lower::lemma_first_missing_none(p.entry@, nodes);
    assert(views(p.entry@).len() == 1);
    // Child links, else-branches and capabilities.
    assert forall|m: int, j: int| 0 <= m < n && 0 <= j < nodes[m].children@.len() implies has_id(
        nodes,
        #[trigger] nodes[m].children@[j]@,
    ) by {
        assert(views(nodes[m].children@)[j] == nodes[m].children@[j]@);
        if m == k {
            assert(nodes[j].node_id@ == read_id(j as nat));
        } else if m == k + 3 {
            if j == 0 {
                assert(nodes[k].node_id@ == "reads"@);
            } else if j == 1 {
                assert(nodes[k + 1].node_id@ == "summarize"@);
            } else {
                assert(nodes[k + 2].node_id@ == "write_report"@);
            }
        }
    }
    assert forall|m: int| 0 <= m < n implies (#[trigger] nodes[m]).else_children@.len() == 0 by {}
    assert forall|m: int| 0 <= m < n && (#[trigger] nodes[m]).capability is Some implies allowed_capability(
        nodes[m].capability.unwrap()@,
    ) by {}
    crate::lower::lemma_structure_stages_pass(nodes, nodes);
    // Control.
    assert forall|m: int| 0 <= m < n implies node_control_s(#[trigger] nodes[m], nodes) is None by {}
    crate::lower::lemma_control_stage_passes(nodes, nodes);
    // Effects.
    let e = p.effects@;
    assert(e.drop_first()[0] == e[1]);
    assert(e.drop_first().drop_first().len() == 0);
    assert(effects_s(e.drop_first().drop_first()) is None);
    assert(effects_s(e.drop_first()) is None);
    assert(effects_s(e) is None);
    // Reachability: root, its children, and the reads under `reads`.
    let start: Seq<Seq<char>> = seq!["root"@];
    assert(views(p.entry@)[0] == "root"@);
    assert(is_path(p, start));
    assert(reachable(p, "root"@));
    assert(succ_ids(root) == views(root.children@) + views(root.else_children@));
    assert(views(root.else_children@) =~= Seq::<Seq<char>>::empty());
    assert(succ_ids(root)[0] == "reads"@);
    assert(succ_ids(root)[1] == "summarize"@);
    assert(succ_ids(root)[2] == "write_report"@);
    crate::lower::lemma_path_extend(p, "root"@, "reads"@);
    crate::lower::lemma_path_extend(p, "root"@, "summarize"@);
    crate::lower::lemma_path_extend(p, "root"@, "write_report"@);
    assert(succ_ids(reads) == views(reads.children@) + views(reads.else_children@));
    assert(views(reads.else_children@) =~= Seq::<Seq<char>>::empty());
    assert forall|i: int| 0 <= i < k implies reachable(p, #[trigger] read_id(i as nat)) by {
        assert(succ_ids(reads)[i] == read_id(i as nat));
        crate::lower::lemma_path_extend(p, "reads"@, read_id(i as nat));
    }
    assert forall|m: int| 0 <= m < n implies reachable(p, (#[trigger] nodes[m]).node_id@) by {
        if m < k {
            assert(nodes[m].node_id@ == read_id(m as nat));
        }
    }
    crate::lower::lemma_no_orphans(p, n as nat);
    assert(orphans(p).len() == 0);
    assert(nodes[0].capability is Some);
}

/// No file path of the task holds a `${...}` reference.
pub open spec fn ref_free_paths(task: TaskSpec) -> bool {
    forall|i: int|
        0 <= i < file_paths(task.inputs@).len() ==> text_refs(#[trigger] file_paths(task.inputs@)[i])
            == Seq::<Seq<char>>::empty()
}

/// A node whose inputs hold no references passes its reference check.
proof fn lemma_single_input_plain(n: CirNode, nodes: Seq<CirNode>)
    requires
        n.inputs@.len() == 1,
        json_refs(n.inputs@[0].1) == Seq::<Seq<char>>::empty(),
    ensures
        node_refs_s(n, seq![], nodes) is None,
{
    let raws = json_refs(n.inputs@[0].1);
    assert(raws.len() == 0);
    assert(refs_s(n, n.inputs@[0].0@, raws, seq![], nodes) is None);
    assert(n.inputs@.drop_first().len() == 0);
    assert(inputs_s(n, n.inputs@.drop_first(), seq![], nodes) is None);
    assert(inputs_s(n, n.inputs@, seq![], nodes) is None);
}

/// Each read passes the contract walk.
proof fn lemma_reads_walk(p: CirProgram, task: TaskSpec, m: int, f: nat)
    requires
        rule_program(p, task),
        ref_free_paths(task),
        0 <= m <= file_paths(task.inputs@).len(),
        f >= 1,
    ensures
        walk_list(
            p.nodes@,
            "reads"@,
            Seq::new(file_paths(task.inputs@).len(), |i: int| read_id(i as nat)).subrange(
                m,
                file_paths(task.inputs@).len() as int,
            ),
            seq![],
            f,
        ) == WalkS::Pass,
    decreases file_paths(task.inputs@).len() - m,
{
    let files = file_paths(task.inputs@);
    let k = files.len() as int;
    let nodes = p.nodes@;
    let all = Seq::new(k as nat, |i: int| read_id(i as nat));
    let ids = all.subrange(m, k);
    if m < k {
        lemma_rule_resolution(p, task);
        let nd = nodes[m];
        assert(rule_primitive(nd, read_id(m as nat), "read_file"@, raw_name(m as nat), seq![("path"@, files[m])]));
        assert(ids[0] == read_id(m as nat));
        assert(last_node(nodes, read_id(m as nat)) == m);
        assert(nd.inputs@[0].1 matches JsonValue::Str(x) && x@ == files[m]);
        assert(text_refs(files[m]) == Seq::<Seq<char>>::empty());
        lemma_single_input_plain(nd, nodes);
        assert(walk_s(nodes, nd, seq![], f) == WalkS::Pass);
        lemma_reads_walk(p, task, m + 1, f);
        assert(ids.drop_first() =~= all.subrange(m + 1, k));
    } else {
        assert(ids.len() == 0);
    }
}

/// A dot-free reference to a field-less `String` output passes.
proof fn lemma_plain_ref(n: CirNode, key: Seq<char>, name: Seq<char>, nodes: Seq<CirNode>)
    requires
        n.input_types@.len() == 0,
        forall|c: int| 0 <= c < name.len() ==> name[c] != '.',
        last_producer(nodes, name) matches Some(o) && o.fields@.len() == 0,
    ensures
        ref_s(n, key, name, seq![], nodes) is None,
{
    lemma_split_dot_plain(name);
    assert(split_dot(name).drop_first() =~= Seq::<Seq<char>>::empty());
    assert(!Seq::<Seq<char>>::empty().contains(name));
    let o = last_producer(nodes, name).unwrap();
    assert(fields_view(o.fields@) =~= Seq::<(Seq<char>, Seq<char>)>::empty());
    assert(type_for(n.input_types@, key) is None);
}

/// The summarize node's references to the raw documents all resolve.
proof fn lemma_documents_resolve(p: CirProgram, task: TaskSpec, m: int)
    requires
        rule_program(p, task),
        0 <= m <= file_paths(task.inputs@).len(),
    ensures
        refs_s(
            p.nodes@[file_paths(task.inputs@).len() + 1int],
            "documents"@,
            raw_names(file_paths(task.inputs@).len()).subrange(m, file_paths(task.inputs@).len() as int),
            seq![],
            p.nodes@,
        ) is None,
    decreases file_paths(task.inputs@).len() - m,
{
    let files = file_paths(task.inputs@);
    let k = files.len() as int;
    let nodes = p.nodes@;
    let names = raw_names(k as nat).subrange(m, k);
    if m < k {
        lemma_rule_resolution(p, task);
        lemma_rule_names(m as nat, m as nat);
        assert(names[0] == raw_name(m as nat));
        assert(rule_primitive(nodes[m], read_id(m as nat), "read_file"@, raw_name(m as nat), seq![("path"@, files[m])]));
        assert(last_producer(nodes, raw_name(m as nat)) == nodes[m].output);
        lemma_plain_ref(nodes[k + 1], "documents"@, raw_name(m as nat), nodes);
        lemma_documents_resolve(p, task, m + 1);
        assert(names.drop_first() =~= raw_names(k as nat).subrange(m + 1, k));
    } else {
        assert(names.len() == 0);
    }
}

/// Every output of the rule program has a non-blank name and type.
proof fn lemma_rule_outputs(p: CirProgram, task: TaskSpec)
    requires
        rule_program(p, task),
    ensures
        outputs_complete_s(p.nodes@) is None,
{
    reveal_strlit("report_text");
    reveal_strlit("report_ref");
    reveal_strlit("String");
    let files = file_paths(task.inputs@);
    let k = files.len() as int;
    let nodes = p.nodes@;
    assert forall|m: int| 0 <= m < nodes.len() && (#[trigger] nodes[m]).output is Some implies !all_ws(
        nodes[m].output.unwrap().name@,
    ) && !all_ws(nodes[m].output.unwrap().type_label@) by {
        assert(!is_ws('S') && !is_ws('r'));
        assert("String"@[0] == 'S');
        if m < k {
            assert(rule_primitive(nodes[m], read_id(m as nat), "read_file"@, raw_name(m as nat), seq![("path"@, files[m])]));
            lemma_rule_names(m as nat, m as nat);
            assert(nodes[m].output.unwrap().name@ == raw_name(m as nat));
        } else if m == k + 1 {
            assert("report_text"@[0] == 'r');
        } else {
            assert("report_ref"@[0] == 'r');
        }
    }
    lemma_outputs_complete(nodes);
}

/// The `reads` container passes the contract walk.
proof fn lemma_reads_node_walk(p: CirProgram, task: TaskSpec, f: nat)
    requires
        rule_program(p, task),
        ref_free_paths(task),
        f >= 2,
    ensures
        walk_s(p.nodes@, p.nodes@[file_paths(task.inputs@).len() as int], seq![], f) == WalkS::Pass,
{
    let k = file_paths(task.inputs@).len() as int;
    let nodes = p.nodes@;
    let reads = nodes[k];
    assert(reads.inputs@.len() == 0);
    assert(node_refs_s(reads, seq![], nodes) is None);
    lemma_reads_walk(p, task, 0, (f - 1) as nat);
    assert(Seq::new(k as nat, |i: int| read_id(i as nat)).subrange(0, k) =~= views(reads.children@));
}

/// The `summarize` node passes the contract walk.
proof fn lemma_sum_walk(p: CirProgram, task: TaskSpec, f: nat)
    requires
        rule_program(p, task),
        file_paths(task.inputs@).len() >= 1,
        f >= 1,
    ensures
        walk_s(p.nodes@, p.nodes@[file_paths(task.inputs@).len() + 1int], seq![], f) == WalkS::Pass,
{
    let k = file_paths(task.inputs@).len() as int;
    let nodes = p.nodes@;
    let sum = nodes[k + 1];
    lemma_documents_refs(k as nat);
    lemma_documents_resolve(p, task, 0);
    assert(raw_names(k as nat).subrange(0, k) =~= raw_names(k as nat));
    assert(sum.inputs@[0].1 matches JsonValue::Str(x) && x@ == json_string_array(
        Seq::new(k as nat, |i: int| raw_ref(i as nat)),
    ));
    assert(raw_refs(k as nat) == Seq::new(k as nat, |i: int| raw_ref(i as nat)));
    assert(json_refs(sum.inputs@[0].1) == raw_names(k as nat));
    assert(sum.inputs@[0].0@ == "documents"@);
    assert(refs_s(sum, sum.inputs@[0].0@, json_refs(sum.inputs@[0].1), seq![], nodes) is None);
    assert(sum.inputs@.drop_first().len() == 0);
    assert(inputs_s(sum, sum.inputs@.drop_first(), seq![], nodes) is None);
    assert(inputs_s(sum, sum.inputs@, seq![], nodes) is None);
    assert(node_refs_s(sum, seq![], nodes) is None);
}

/// The `write_report` node passes the contract walk.
proof fn lemma_write_walk(p: CirProgram, task: TaskSpec, f: nat)
    requires
        rule_program(p, task),
        f >= 1,
    ensures
        walk_s(p.nodes@, p.nodes@[file_paths(task.inputs@).len() + 2int], seq![], f) == WalkS::Pass,
{
    reveal_strlit("report.md");
    reveal_strlit("${report_text}");
    reveal_strlit("report_text");
    let k = file_paths(task.inputs@).len() as int;
    let nodes = p.nodes@;
    lemma_rule_resolution(p, task);
    let wr = nodes[k + 2];
    let path_text = "report.md"@;
    crate::refs::lemma_refs_none(path_text, 0);
    let content = "${report_text}"@;
    assert(content.len() == 14);
    assert(content[0] == '$' && content[1] == '{' && content[13] == '}');
    assert forall|j: int| 2 <= j < 13 implies content[j] != '}' by {}
    crate::refs::lemma_body_scan(content, 0, 2, 13);
    assert(content.subrange(2, 13) =~= "report_text"@);
    assert(refs_from(content, 14) =~= Seq::<Seq<char>>::empty());
    assert(text_refs(content) =~= seq!["report_text"@]);
    let ins = wr.inputs@;
    assert(ins[0].1 matches JsonValue::Str(x) && x@ == path_text);
    assert(ins[1].1 matches JsonValue::Str(x) && x@ == content);
    assert forall|c: int| 0 <= c < "report_text"@.len() implies "report_text"@[c] != '.' by {}
    lemma_plain_ref(wr, ins[1].0@, "report_text"@, nodes);
    let one: Seq<Seq<char>> = seq!["report_text"@];
    assert(one[0] == "report_text"@);
    assert(one.drop_first().len() == 0);
    assert(refs_s(wr, ins[1].0@, one.drop_first(), seq![], nodes) is None);
    assert(refs_s(wr, ins[1].0@, one, seq![], nodes) is None);
    assert(json_refs(ins[0].1).len() == 0);
    assert(refs_s(wr, ins[0].0@, json_refs(ins[0].1), seq![], nodes) is None);
    assert(ins.drop_first()[0] == ins[1]);
    assert(ins.drop_first().drop_first().len() == 0);
    assert(inputs_s(wr, ins.drop_first().drop_first(), seq![], nodes) is None);
    assert(inputs_s(wr, ins.drop_first(), seq![], nodes) is None);
    assert(inputs_s(wr, ins, seq![], nodes) is None);
    assert(node_refs_s(wr, seq![], nodes) is None);
}

/// The rule program's data contract walk finishes and passes.
proof fn lemma_rule_contract(p: CirProgram, task: TaskSpec)
    requires
        rule_program(p, task),
        ref_free_paths(task),
        file_paths(task.inputs@).len() >= 1,
    ensures
        contract_s(p) == WalkS::Pass,
{
    let k = file_paths(task.inputs@).len() as int;
    let nodes = p.nodes@;
    let fuel = nodes.len();
    let f = (fuel - 1) as nat;
    lemma_rule_resolution(p, task);
    lemma_rule_outputs(p, task);
    lemma_reads_node_walk(p, task, f);
    lemma_sum_walk(p, task, f);
    lemma_write_walk(p, task, f);
    let root = nodes[k + 3];
    let rc = views(root.children@);
    assert(rc == seq!["reads"@, "summarize"@, "write_report"@]);
    assert(root.inputs@.len() == 0);
    assert(node_refs_s(root, seq![], nodes) is None);
    let r1 = rc.drop_first();
    let r2 = r1.drop_first();
    assert(r1[0] == "summarize"@ && r2[0] == "write_report"@);
    assert(r2.drop_first().len() == 0);
    assert(walk_list(nodes, "root"@, r2.drop_first(), seq![], f) == WalkS::Pass);
    assert(last_node(nodes, r2[0]) == k + 2);
    assert(walk_s(nodes, nodes[k + 2], seq![], f) == WalkS::Pass);
    assert(walk_list(nodes, "root"@, r2, seq![], f) == WalkS::Pass);
    assert(walk_list(nodes, "root"@, r1, seq![], f) == WalkS::Pass);
    assert(walk_list(nodes, "root"@, rc, seq![], f) == WalkS::Pass);
    assert(views(root.else_children@).len() == 0);
    assert(walk_list(nodes, "root"@, views(root.else_children@), seq![], f) == WalkS::Pass);
    assert(walk_s(nodes, root, seq![], fuel) == WalkS::Pass);
    let es = views(p.entry@);
    assert(es[0] == "root"@);
    assert(es.drop_first().len() == 0);
    assert(entries_s(nodes, es.drop_first(), fuel) == WalkS::Pass);
    assert(last_node(nodes, es[0]) == k + 3);
    assert(entries_s(nodes, es, fuel) == WalkS::Pass);
}

/// The program the rule-first planner builds passes CIR validation
/// whenever the task has a file input and no file path holds a `${...}`
/// reference: every stage passes and the data contract walk ends.
pub proof fn lemma_rule_program_valid(p: CirProgram, task: TaskSpec)
    requires
        rule_program(p, task),
        file_paths(task.inputs@).len() >= 1,
        ref_free_paths(task),
    ensures
        semantic_ends(p),
        semantic_s(p) is None,
{
    lemma_rule_structure(p, task);
    lemma_rule_contract(p, task);
}

} // verus!
