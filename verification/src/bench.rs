//! The benchmark harness's logic: case outcomes and their counts, fixture
//! expectations, the bench-only primitives and registry, recovery telemetry
//! from event logs, and the verdict on an executed case.

use vstd::prelude::*;

use crate::error::AcosError;
use crate::json::{get_member, member_of, JsonValue};
use crate::plugin::{cap_is, effect_is, BuiltinRegistry};
use crate::refs::views;
use crate::text::{
    chars_of, dec_text, find_chars, find_from, push_text, slice_chars, str_eq, string_from_chars,
    string_of, u64_text,
};
use crate::traits::{CapabilityDesc, Event, RunStatus};
use crate::types::{CirNode, CirProgram, EffectDecl, EffectKind, FailureClass};

verus! {

// ── Outcomes ───────────────────────────────────────────────────────────────

/// Per-case result status.
#[derive(Debug, Clone, Copy, PartialEq, Eq, Structural)]
pub enum CaseStatus {
    Pass,
    Fail,
    Skip,
}

impl CaseStatus {
    /// The label printed in the report table.
    pub fn as_text(&self) -> (r: &'static str)
        ensures
            r@ == match *self {
                CaseStatus::Pass => "PASS"@,
                CaseStatus::Fail => "FAIL"@,
                CaseStatus::Skip => "SKIP"@,
            },
    {
        match self {
            CaseStatus::Pass => "PASS",
            CaseStatus::Fail => "FAIL",
            CaseStatus::Skip => "SKIP",
        }
    }
}

/// The outcome of running a single fixture.
pub struct CaseResult {
    pub id: String,
    pub suite: String,
    pub status: CaseStatus,
    pub compile: Option<bool>,
    pub execution: Option<bool>,
    pub recovery: Option<String>,
    pub recovery_detail: Option<String>,
    pub verification: Option<bool>,
    pub note: String,
}

/// Aggregated benchmark report.
pub struct BenchReport {
    pub cases: Vec<CaseResult>,
}

/// The number of cases with status `s`.
pub open spec fn count_status(cases: Seq<CaseResult>, s: CaseStatus) -> nat
    decreases cases.len(),
{
    if cases.len() == 0 {
        0
    } else {
        count_status(cases.drop_last(), s) + if cases.last().status == s {
            1nat
        } else {
            0nat
        }
    }
}

/// Every case has exactly one status, so the three counts add up.
pub proof fn lemma_counts_partition(cases: Seq<CaseResult>)
    ensures
        count_status(cases, CaseStatus::Pass) + count_status(cases, CaseStatus::Fail)
            + count_status(cases, CaseStatus::Skip) == cases.len(),
    decreases cases.len(),
{
    if cases.len() > 0 {
        lemma_counts_partition(cases.drop_last());
    }
}

proof fn lemma_count_le(cases: Seq<CaseResult>, s: CaseStatus)
    ensures
        count_status(cases, s) <= cases.len(),
    decreases cases.len(),
{
    if cases.len() > 0 {
        lemma_count_le(cases.drop_last(), s);
    }
}

impl BenchReport {
    pub fn new() -> (r: Self)
        ensures
            r.cases@.len() == 0,
    {
        BenchReport { cases: Vec::new() }
    }

    /// Total number of cases.
    pub fn total(&self) -> (n: usize)
        ensures
            n == self.cases@.len(),
    {
        self.cases.len()
    }

    fn count(&self, s: CaseStatus) -> (n: usize)
        ensures
            n == count_status(self.cases@, s),
    {
        let mut n: usize = 0;
        let mut i: usize = 0;
        while i < self.cases.len()
            invariant
                i <= self.cases@.len(),
                n == count_status(self.cases@.take(i as int), s),
                n <= i,
            decreases self.cases@.len() - i,
        {
            assert(self.cases@.take(i + 1).drop_last() =~= self.cases@.take(i as int));
            if self.cases[i].status == s {
                n = n + 1;
            }
            i = i + 1;
        }
        assert(self.cases@.take(i as int) =~= self.cases@);
        n
    }

    /// Number of passing cases.
    pub fn passed(&self) -> (n: usize)
        ensures
            n == count_status(self.cases@, CaseStatus::Pass),
    {
        self.count(CaseStatus::Pass)
    }

    /// Number of failing cases.
    pub fn failed(&self) -> (n: usize)
        ensures
            n == count_status(self.cases@, CaseStatus::Fail),
    {
        self.count(CaseStatus::Fail)
    }

    /// Number of skipped cases.
    pub fn skipped(&self) -> (n: usize)
        ensures
            n == count_status(self.cases@, CaseStatus::Skip),
    {
        self.count(CaseStatus::Skip)
    }
}

// ── The report table ───────────────────────────────────────────────────────

/// `s` padded with spaces on the right to `width` characters (`{:<width}`).
pub open spec fn pad(s: Seq<char>, width: nat) -> Seq<char> {
    if s.len() < width {
        s + Seq::new((width - s.len()) as nat, |i: int| ' ')
    } else {
        s
    }
}

fn push_padded(out: &mut String, s: &str, width: usize)
    ensures
        final(out)@ == old(out)@ + pad(s@, width as nat),
{
    push_text(out, s);
    let n = s.unicode_len();
    let mut k = n;
    let ghost o = old(out)@;
    while k < width
        invariant
            n == s@.len(),
            n <= k <= width || (n > width && k == n),
            out@ == o + s@ + Seq::new((k - n) as nat, |i: int| ' '),
        decreases width - k,
    {
        let ghost before = out@;
        push_text(out, " ");
        proof {
            reveal_strlit(" ");
        }
        assert(out@ =~= o + s@ + Seq::new((k + 1 - n) as nat, |i: int| ' '));
        k = k + 1;
    }
    assert(out@ =~= o + pad(s@, width as nat));
}

pub open spec fn pass_fail(o: Option<bool>) -> Seq<char> {
    match o {
        Some(true) => "PASS"@,
        Some(false) => "FAIL"@,
        None => "-"@,
    }
}

pub open spec fn or_dash(o: Option<String>) -> Seq<char> {
    match o {
        Some(s) => s@,
        None => "-"@,
    }
}

pub open spec fn status_label(s: CaseStatus) -> Seq<char> {
    match s {
        CaseStatus::Pass => "PASS"@,
        CaseStatus::Fail => "FAIL"@,
        CaseStatus::Skip => "SKIP"@,
    }
}

/// One row of the report table.
pub open spec fn row_text(c0: Seq<char>, c1: Seq<char>, c2: Seq<char>, c3: Seq<char>, c4: Seq<char>, c5: Seq<char>, c6: Seq<char>) -> Seq<char> {
    pad(c0, 28) + " "@ + pad(c1, 6) + " "@ + pad(c2, 8) + " "@ + pad(c3, 8) + " "@ + pad(c4, 8)
        + " "@ + pad(c5, 16) + " "@ + c6
}

pub open spec fn case_row(c: CaseResult) -> Seq<char> {
    row_text(
        c.id@,
        status_label(c.status),
        pass_fail(c.compile),
        pass_fail(c.execution),
        or_dash(c.recovery),
        or_dash(c.recovery_detail),
        c.note@,
    )
}

pub open spec fn rule_line() -> Seq<char> {
    Seq::new(76, |i: int| '-')
}

fn push_row(
    out: &mut String,
    c0: &str,
    c1: &str,
    c2: &str,
    c3: &str,
    c4: &str,
    c5: &str,
    c6: &str,
)
    ensures
        final(out)@ == old(out)@ + row_text(c0@, c1@, c2@, c3@, c4@, c5@, c6@),
{
    proof {
        reveal_strlit(" ");
    }
    push_padded(out, c0, 28);
    push_text(out, " ");
    push_padded(out, c1, 6);
    push_text(out, " ");
    push_padded(out, c2, 8);
    push_text(out, " ");
    push_padded(out, c3, 8);
    push_text(out, " ");
    push_padded(out, c4, 8);
    push_text(out, " ");
    push_padded(out, c5, 16);
    push_text(out, " ");
    push_text(out, c6);
    assert(out@ =~= old(out)@ + row_text(c0@, c1@, c2@, c3@, c4@, c5@, c6@));
}

fn pass_fail_word(o: Option<bool>) -> (r: &'static str)
    ensures
        r@ == pass_fail(o),
{
    match o {
        Some(true) => "PASS",
        Some(false) => "FAIL",
        None => "-",
    }
}

fn rule_text() -> (r: String)
    ensures
        r@ == rule_line(),
{
    let mut r = String::new();
    let mut k: usize = 0;
    while k < 76
        invariant
            k <= 76,
            r@ == Seq::new(k as nat, |i: int| '-'),
        decreases 76 - k,
    {
        push_text(&mut r, "-");
        proof {
            reveal_strlit("-");
        }
        assert(r@ =~= Seq::new((k + 1) as nat, |i: int| '-'));
        k = k + 1;
    }
    r
}

impl BenchReport {
    /// The lines of the report table: title, header, rule, one row per case,
    /// rule, and the totals.
    pub fn table_lines(&self) -> (r: Vec<String>)
        ensures
            r@.len() == self.cases@.len() + 5,
            r@[0]@ == "ACOS Benchmark v0.1"@,
            r@[1]@ == row_text(
                "Case"@,
                "Result"@,
                "Compile"@,
                "Execute"@,
                "Recover"@,
                "Detail"@,
                "Note"@,
            ),
            r@[2]@ == rule_line(),
            forall|i: int| 0 <= i < self.cases@.len() ==> #[trigger] r@[i + 3]@ == case_row(self.cases@[i]),
            r@[self.cases@.len() + 3int]@ == rule_line(),
            r@[self.cases@.len() + 4int]@ == dec_text(self.cases@.len() as nat) + " cases / "@
                + dec_text(count_status(self.cases@, CaseStatus::Pass)) + " passed / "@ + dec_text(
                count_status(self.cases@, CaseStatus::Fail),
            ) + " failed / "@ + dec_text(count_status(self.cases@, CaseStatus::Skip))
                + " skipped"@,
    {
        let mut r: Vec<String> = Vec::new();
        r.push(string_of("ACOS Benchmark v0.1"));
        let mut h = String::new();
        push_row(&mut h, "Case", "Result", "Compile", "Execute", "Recover", "Detail", "Note");
        r.push(h);
        r.push(rule_text());
        let mut i: usize = 0;
        while i < self.cases.len()
            invariant
                i <= self.cases@.len(),
                r@.len() == i + 3,
                r@[0]@ == "ACOS Benchmark v0.1"@,
                r@[1]@ == row_text(
                    "Case"@,
                    "Result"@,
                    "Compile"@,
                    "Execute"@,
                    "Recover"@,
                    "Detail"@,
                    "Note"@,
                ),
                r@[2]@ == rule_line(),
                forall|k: int| 0 <= k < i ==> #[trigger] r@[k + 3]@ == case_row(self.cases@[k]),
            decreases self.cases@.len() - i,
        {
            let c = &self.cases[i];
            let recovery = match &c.recovery {
                Some(x) => x.as_str(),
                None => "-",
            };
            let detail = match &c.recovery_detail {
                Some(x) => x.as_str(),
                None => "-",
            };
            let mut line = String::new();
            push_row(
                &mut line,
                c.id.as_str(),
                c.status.as_text(),
                pass_fail_word(c.compile),
                pass_fail_word(c.execution),
                recovery,
                detail,
                c.note.as_str(),
            );
            assert(line@ == case_row(*c));
            r.push(line);
            i = i + 1;
        }
        r.push(rule_text());
        let mut t = String::new();
        let total = self.total();
        let passed = self.passed();
        let failed = self.failed();
        let skipped = self.skipped();
        proof {
            lemma_count_le(self.cases@, CaseStatus::Pass);
            lemma_count_le(self.cases@, CaseStatus::Fail);
            lemma_count_le(self.cases@, CaseStatus::Skip);
        }
        push_text(&mut t, u64_text(total as u64).as_str());
        push_text(&mut t, " cases / ");
        push_text(&mut t, u64_text(passed as u64).as_str());
        push_text(&mut t, " passed / ");
        push_text(&mut t, u64_text(failed as u64).as_str());
        push_text(&mut t, " failed / ");
        push_text(&mut t, u64_text(skipped as u64).as_str());
        push_text(&mut t, " skipped");
        r.push(t);
        r
    }
}

// ── Fixtures ───────────────────────────────────────────────────────────────

/// How a fixture's program is produced.
#[derive(Debug, Clone, Copy, PartialEq, Eq, Structural)]
pub enum FixtureMode {
    Cir,
    Run,
}

/// Which compiler backend to use; only meaningful when mode = run.
#[derive(Debug, Clone, Copy, PartialEq, Eq, Structural)]
pub enum CompilerKind {
    Rules,
    Model,
}

/// Expected outcome of a fixture run.
pub struct Expected {
    pub compile: Option<bool>,
    pub execution: Option<bool>,
    pub verification: Option<bool>,
    pub recovery: Option<String>,
    pub final_status: Option<String>,
    pub validation: Option<String>,
}

/// Top-level arguments for a benchmark run.
pub struct BenchArgs {
    pub fixtures_dir: String,
    pub suite: Option<String>,
    pub case: Option<String>,
    pub require_model: bool,
}

/// `s` with every non-overlapping occurrence of the non-empty `pat`,
/// scanning left to right from `i`, replaced by `rep` (`str::replace`).
pub open spec fn replace_from(s: Seq<char>, pat: Seq<char>, rep: Seq<char>, i: int) -> Seq<char>
    decreases s.len() + 1 - i,
{
    let j = find_from(s, pat, i);
    proof {
        crate::text::lemma_find_from_bounds(s, pat, i);
    }
    if i < 0 || i > s.len() || pat.len() == 0 || j < i {
        s.subrange(if 0 <= i <= s.len() {
            i
        } else {
            s.len() as int
        }, s.len() as int)
    } else {
        s.subrange(i, j) + rep + replace_from(s, pat, rep, j + pat.len())
    }
}

/// Substitutes `{workspace}` tokens in a string input.
pub fn substitute_workspace(input: &str, workspace: &str) -> (r: String)
    ensures
        r@ == replace_from(input@, "{workspace}"@, workspace@, 0),
{
    let v = chars_of(input);
    let pat = chars_of("{workspace}");
    proof {
        reveal_strlit("{workspace}");
    }
    let mut out = String::new();
    let mut i: usize = 0;
    let ghost acc: Seq<char> = seq![];
    assert(out@ =~= seq![]);
    loop
        invariant
            v@ == input@,
            pat@ == "{workspace}"@,
            pat@.len() == 11,
            i <= v@.len(),
            out@ + replace_from(v@, pat@, workspace@, i as int) == replace_from(
                v@,
                pat@,
                workspace@,
                0,
            ),
        decreases v@.len() + 1 - i,
    {
        match find_chars(&v, &pat, i) {
            None => {
                let rest = slice_chars(&v, i, v.len());
                push_text(&mut out, string_from_chars(rest.as_slice()).as_str());
                assert(replace_from(v@, pat@, workspace@, i as int) =~= v@.subrange(
                    i as int,
                    v@.len() as int,
                ));
                return out;
            },
            Some(j) => {
                proof {
                    crate::text::lemma_find_from_bounds(v@, pat@, i as int);
                }
                let n = v.len();
                assert(j + pat@.len() <= n);
                let ghost before = out@;
                let piece = slice_chars(&v, i, j);
                push_text(&mut out, string_from_chars(piece.as_slice()).as_str());
                push_text(&mut out, workspace);
                assert(replace_from(v@, pat@, workspace@, i as int) == v@.subrange(i as int, j as int)
                    + workspace@ + replace_from(v@, pat@, workspace@, j + pat@.len()));
                assert(before + replace_from(v@, pat@, workspace@, i as int) =~= out@
                    + replace_from(v@, pat@, workspace@, j + pat@.len()));
                i = j + pat.len();
            },
        }
    }
}

/// An input value after workspace substitution: a string has its
/// `{workspace}` tokens replaced, any other value is kept.
pub open spec fn value_substituted(a: JsonValue, b: JsonValue, ws: Seq<char>) -> bool {
    match a {
        JsonValue::Str(s) => b matches JsonValue::Str(t) && t@ == replace_from(
            s@,
            "{workspace}"@,
            ws,
            0,
        ),
        _ => b == a,
    }
}

/// A node after workspace substitution: only its input values change.
pub open spec fn node_substituted(a: CirNode, b: CirNode, ws: Seq<char>) -> bool {
    &&& b.kind == a.kind
    &&& b.node_id == a.node_id
    &&& b.capability == a.capability
    &&& b.output == a.output
    &&& b.input_types == a.input_types
    &&& b.children == a.children
    &&& b.else_children == a.else_children
    &&& b.control == a.control
    &&& b.inputs@.len() == a.inputs@.len()
    &&& forall|j: int|
        0 <= j < a.inputs@.len() ==> (#[trigger] b.inputs@[j]).0 == a.inputs@[j].0
            && value_substituted(a.inputs@[j].1, b.inputs@[j].1, ws)
}

fn substitute_inputs(inputs: Vec<(String, JsonValue)>, workspace: &str) -> (r: Vec<(String, JsonValue)>)
    ensures
        r@.len() == inputs@.len(),
        forall|j: int|
            0 <= j < inputs@.len() ==> (#[trigger] r@[j]).0 == inputs@[j].0 && value_substituted(
                inputs@[j].1,
                r@[j].1,
                workspace@,
            ),
{
    let ghost orig = inputs@;
    let mut rest = inputs;
    let mut out: Vec<(String, JsonValue)> = Vec::new();
    while rest.len() > 0
        invariant
            out@.len() + rest@.len() == orig.len(),
            rest@ == orig.skip(out@.len() as int),
            forall|j: int|
                0 <= j < out@.len() ==> (#[trigger] out@[j]).0 == orig[j].0 && value_substituted(
                    orig[j].1,
                    out@[j].1,
                    workspace@,
                ),
        decreases rest@.len(),
    {
        let ghost k = out@.len() as int;
        let (key, value) = rest.remove(0);
        assert(orig[k] == (key, value));
        let v = match value {
            JsonValue::Str(s) => JsonValue::Str(substitute_workspace(s.as_str(), workspace)),
            other => other,
        };
        out.push((key, v));
        assert(rest@ =~= orig.skip(out@.len() as int));
    }
    out
}

/// Substitutes `{workspace}` tokens inside every string input of a program.
pub fn substitute_workspace_in_program(program: &mut CirProgram, workspace: &str)
    ensures
        final(program).id == old(program).id,
        final(program).task_id == old(program).task_id,
        final(program).entry == old(program).entry,
        final(program).effects == old(program).effects,
        final(program).nodes@.len() == old(program).nodes@.len(),
        forall|k: int|
            0 <= k < old(program).nodes@.len() ==> node_substituted(
                old(program).nodes@[k],
                #[trigger] final(program).nodes@[k],
                workspace@,
            ),
{
    let mut rest: Vec<CirNode> = Vec::new();
    std::mem::swap(&mut rest, &mut program.nodes);
    let ghost orig = rest@;
    let mut out: Vec<CirNode> = Vec::new();
    while rest.len() > 0
        invariant
            out@.len() + rest@.len() == orig.len(),
            rest@ == orig.skip(out@.len() as int),
            forall|k: int|
                0 <= k < out@.len() ==> node_substituted(orig[k], #[trigger] out@[k], workspace@),
        decreases rest@.len(),
    {
        let ghost k = out@.len() as int;
        let node = rest.remove(0);
        assert(orig[k] == node);
        let CirNode {
            kind,
            node_id,
            capability,
            output,
            input_types,
            children,
            else_children,
            inputs,
            control,
        } = node;
        let inputs = substitute_inputs(inputs, workspace);
        out.push(
            CirNode {
                kind,
                node_id,
                capability,
                output,
                input_types,
                children,
                else_children,
                inputs,
                control,
            },
        );
        assert(rest@ =~= orig.skip(out@.len() as int));
    }
    program.nodes = out;
}

/// The verdict on a program that validation rejected with `text`: a pass
/// when the fixture expects that rejection, otherwise a failure; the note
/// says which.
pub fn judge_rejection(exp: &Expected, text: &str) -> (r: (CaseStatus, String))
    ensures
        exp.validation is Some && crate::text::find_seq(text@, exp.validation.unwrap()@) >= 0
            ==> r.0 == CaseStatus::Pass && r.1@ == "expected validation failure: "@ + text@,
        !(exp.validation is Some && crate::text::find_seq(text@, exp.validation.unwrap()@) >= 0)
            ==> r.0 == CaseStatus::Fail && r.1@ == "validate_cir failed: "@ + text@,
{
    if rejection_expected(exp, text) {
        let mut m = string_of("expected validation failure: ");
        push_text(&mut m, text);
        (CaseStatus::Pass, m)
    } else {
        let mut m = string_of("validate_cir failed: ");
        push_text(&mut m, text);
        (CaseStatus::Fail, m)
    }
}

/// Whether a compile-time rejection was what the fixture expects: its
/// declared reason occurs in the error text.
pub fn rejection_expected(exp: &Expected, err: &str) -> (b: bool)
    ensures
        b == (exp.validation is Some && crate::text::find_seq(err@, exp.validation.unwrap()@)
            >= 0),
{
    match &exp.validation {
        None => false,
        Some(sub) => {
            let v = chars_of(err);
            let p = chars_of(sub.as_str());
            find_chars(&v, &p, 0).is_some()
        },
    }
}

/// Whether a case is selected by the run's suite and case filters.
pub fn selected(args: &BenchArgs, suite: &str, id: &str) -> (b: bool)
    ensures
        b == ((args.suite is None || args.suite.unwrap()@ == suite@) && (args.case is None
            || args.case.unwrap()@ == id@)),
{
    let s = match &args.suite {
        Some(x) => str_eq(x.as_str(), suite),
        None => true,
    };
    let c = match &args.case {
        Some(x) => str_eq(x.as_str(), id),
        None => true,
    };
    s && c
}

/// Under `require_model` a skipped case counts as a failure; it gets a note
/// saying so unless it already has one.
pub fn apply_require_model(case: &mut CaseResult, require_model: bool)
    ensures
        if require_model && old(case).status == CaseStatus::Skip {
            &&& final(case).status == CaseStatus::Fail
            &&& final(case).note@ == if old(case).note@.len() == 0 {
                "require_model: skipped case treated as failure"@
            } else {
                old(case).note@
            }
        } else {
            final(case).status == old(case).status && final(case).note == old(case).note
        },
        final(case).id == old(case).id,
        final(case).suite == old(case).suite,
        final(case).compile == old(case).compile,
        final(case).execution == old(case).execution,
        final(case).recovery == old(case).recovery,
        final(case).recovery_detail == old(case).recovery_detail,
        final(case).verification == old(case).verification,
{
    if require_model && case.status == CaseStatus::Skip {
        case.status = CaseStatus::Fail;
        if chars_of(case.note.as_str()).len() == 0 {
            case.note = string_of("require_model: skipped case treated as failure");
        }
    }
}

// ── Bench primitives ───────────────────────────────────────────────────────

fn capability(id: &str, name: &str, input: &str, output: &str) -> (c: CapabilityDesc)
    ensures
        cap_is(c, id@, name@, input@, output@),
{
    CapabilityDesc {
        id: string_of(id),
        name: string_of(name),
        input_type: string_of(input),
        output_type: string_of(output),
    }
}

fn network_read() -> (r: Vec<EffectDecl>)
    ensures
        r@.len() == 1,
        effect_is(r@[0], EffectKind::NetworkRead, "network read"@),
{
    let mut r = Vec::new();
    r.push(EffectDecl { kind: EffectKind::NetworkRead, description: string_of("network read"), reversible: true });
    r
}

/// The `Debug` name of a failure class.
pub open spec fn class_name(c: FailureClass) -> Seq<char> {
    match c {
        FailureClass::Timeout => "Timeout"@,
        FailureClass::RateLimit => "RateLimit"@,
        FailureClass::TransientNetworkError => "TransientNetworkError"@,
        FailureClass::InvalidInput => "InvalidInput"@,
        FailureClass::PermissionDenied => "PermissionDenied"@,
        FailureClass::SyntaxError => "SyntaxError"@,
        FailureClass::Unknown => "Unknown"@,
    }
}

fn class_label(c: FailureClass) -> (r: &'static str)
    ensures
        r@ == class_name(c),
{
    match c {
        FailureClass::Timeout => "Timeout",
        FailureClass::RateLimit => "RateLimit",
        FailureClass::TransientNetworkError => "TransientNetworkError",
        FailureClass::InvalidInput => "InvalidInput",
        FailureClass::PermissionDenied => "PermissionDenied",
        FailureClass::SyntaxError => "SyntaxError",
        FailureClass::Unknown => "Unknown",
    }
}

/// The failure a stub primitive reports.
pub open spec fn stub_failure_is(e: AcosError, primitive: Seq<char>, class: FailureClass) -> bool {
    e matches AcosError::PrimitiveFailure { message, primitive_id, class: c } && (message@
        == "stub failure ("@ + class_name(class) + ")"@ && crate::lower::opt_view(primitive_id)
        == Some(primitive) && c == class)
}

fn stub_failure(primitive: &str, class: FailureClass) -> (e: AcosError)
    ensures
        stub_failure_is(e, primitive@, class),
{
    let mut m = string_of("stub failure (");
    push_text(&mut m, class_label(class));
    push_text(&mut m, ")");
    AcosError::PrimitiveFailure { message: m, primitive_id: Some(string_of(primitive)), class }
}

/// Fails its first `failures` invocations with `class`, then succeeds.
pub struct FlakySearchPrimitive {
    pub failures: usize,
    pub class: FailureClass,
    pub count: usize,
}

impl FlakySearchPrimitive {
    pub fn new(failures: usize, class: FailureClass) -> (r: Self)
        ensures
            r.failures == failures,
            r.class == class,
            r.count == 0,
    {
        FlakySearchPrimitive { failures, class, count: 0 }
    }

    pub fn capability(&self) -> (c: CapabilityDesc)
        ensures
            cap_is(c, "flaky_search"@, "Flaky Search"@, "SearchQuery"@, "DocumentList"@),
    {
        capability("flaky_search", "Flaky Search", "SearchQuery", "DocumentList")
    }

    pub fn effects(&self) -> (r: Vec<EffectDecl>)
        ensures
            r@.len() == 1,
            effect_is(r@[0], EffectKind::NetworkRead, "network read"@),
    {
        network_read()
    }

    /// Decides one invocation: a failure while fewer than `failures` have
    /// been reported (counting it), else success.
    pub fn attempt(&mut self) -> (r: Result<(), AcosError>)
        ensures
            final(self).failures == old(self).failures,
            final(self).class == old(self).class,
            old(self).count < old(self).failures ==> final(self).count == old(self).count + 1
                && r is Err && stub_failure_is(r->Err_0, "flaky_search"@, old(self).class),
            old(self).count >= old(self).failures ==> final(self).count == old(self).count
                && r is Ok,
    {
        if self.count < self.failures {
            self.count = self.count + 1;
            return Err(stub_failure("flaky_search", self.class));
        }
        Ok(())
    }
}

/// Always-succeeding search stub returning no results.
pub struct SearchPrimitive;

impl SearchPrimitive {
    pub fn capability(&self) -> (c: CapabilityDesc)
        ensures
            cap_is(c, "search"@, "Search"@, "SearchQuery"@, "DocumentList"@),
    {
        capability("search", "Search", "SearchQuery", "DocumentList")
    }

    pub fn effects(&self) -> (r: Vec<EffectDecl>)
        ensures
            r@.len() == 1,
            effect_is(r@[0], EffectKind::NetworkRead, "network read"@),
    {
        network_read()
    }
}

/// Yields a fixed list of items for foreach sources.
pub struct ListSourcePrimitive {
    pub items: Vec<String>,
}

impl ListSourcePrimitive {
    pub fn new(items: Vec<String>) -> (r: Self)
        ensures
            r.items == items,
    {
        ListSourcePrimitive { items }
    }

    pub fn capability(&self) -> (c: CapabilityDesc)
        ensures
            cap_is(c, "list_source"@, "List Source"@, "Void"@, "StringList"@),
    {
        capability("list_source", "List Source", "Void", "StringList")
    }

    pub fn effects(&self) -> (r: Vec<EffectDecl>)
        ensures
            r@.len() == 0,
    {
        Vec::new()
    }
}

/// The items the bench's list source yields.
pub fn list_source_items() -> (r: Vec<String>)
    ensures
        views(r@) == seq!["alpha"@, "beta"@, "gamma"@],
{
    let mut r = Vec::new();
    r.push(string_of("alpha"));
    r.push(string_of("beta"));
    r.push(string_of("gamma"));
    assert(views(r@) =~= seq!["alpha"@, "beta"@, "gamma"@]);
    r
}

/// An external irreversible side effect; retrying it is refused.
pub struct IrreversiblePrimitive;

impl IrreversiblePrimitive {
    pub fn capability(&self) -> (c: CapabilityDesc)
        ensures
            cap_is(c, "irreversible"@, "Irreversible"@, "Void"@, "Void"@),
    {
        capability("irreversible", "Irreversible", "Void", "Void")
    }

    pub fn effects(&self) -> (r: Vec<EffectDecl>)
        ensures
            r@.len() == 1,
            r@[0].kind == EffectKind::ExternalIrreversible,
            r@[0].description@ == "irreversible external side effect"@,
            !r@[0].reversible,
    {
        let mut r = Vec::new();
        r.push(
            EffectDecl {
                kind: EffectKind::ExternalIrreversible,
                description: string_of("irreversible external side effect"),
                reversible: false,
            },
        );
        r
    }
}

/// Fails every invocation with the `Unknown` class.
pub struct UnstableSearchPrimitive;

impl UnstableSearchPrimitive {
    pub fn capability(&self) -> (c: CapabilityDesc)
        ensures
            cap_is(c, "unstable_search"@, "Unstable Search"@, "SearchQuery"@, "DocumentList"@),
    {
        capability("unstable_search", "Unstable Search", "SearchQuery", "DocumentList")
    }

    pub fn effects(&self) -> (r: Vec<EffectDecl>)
        ensures
            r@.len() == 1,
            effect_is(r@[0], EffectKind::NetworkRead, "network read"@),
    {
        network_read()
    }

    /// The failure every invocation reports.
    pub fn failure(&self) -> (e: AcosError)
        ensures
            stub_failure_is(e, "unstable_search"@, FailureClass::Unknown),
    {
        stub_failure("unstable_search", FailureClass::Unknown)
    }
}

/// The built-in registry plus the bench stubs.
pub struct BenchRegistry {
    pub inner: BuiltinRegistry,
    pub search_failure_class: FailureClass,
}

/// The capability ids the bench stubs provide.
pub open spec fn bench_stub(id: Seq<char>) -> bool {
    id == "search"@ || id == "flaky_search"@ || id == "list_source"@ || id == "irreversible"@
        || id == "unstable_search"@
}

/// Whether a capability id resolves to a primitive, and the effects it declares.
pub open spec fn resolved_effects(id: Seq<char>) -> Option<Seq<EffectKind>> {
    if id == "search"@ || id == "flaky_search"@ || id == "unstable_search"@ {
        Some(seq![EffectKind::NetworkRead])
    } else if id == "list_source"@ || id == "summarize"@ {
        Some(seq![])
    } else if id == "irreversible"@ {
        Some(seq![EffectKind::ExternalIrreversible])
    } else if id == "read_file"@ {
        Some(seq![EffectKind::FsRead])
    } else if id == "write_file"@ {
        Some(seq![EffectKind::FsWrite])
    } else if id == "execute_python"@ {
        Some(seq![EffectKind::ProcessSpawn, EffectKind::FsRead])
    } else {
        None
    }
}

impl BenchRegistry {
    /// The registry with the default flaky-search failure class (`Timeout`).
    pub fn new() -> (r: Self)
        ensures
            r.search_failure_class == FailureClass::Timeout,
            r.inner.capabilities@.len() == 5,
    {
        BenchRegistry { inner: BuiltinRegistry::new(), search_failure_class: FailureClass::Timeout }
    }

    /// Overrides the stub failure class.
    pub fn with_search_failure_class(self, class: FailureClass) -> (r: Self)
        ensures
            r.search_failure_class == class,
            r.inner == self.inner,
    {
        let mut s = self;
        s.search_failure_class = class;
        s
    }

    /// The capabilities: the built-in ones, then the five stubs.
    pub fn list(&self) -> (r: Vec<CapabilityDesc>)
        ensures
            r@.len() == self.inner.capabilities@.len() + 5,
            forall|i: int|
                0 <= i < self.inner.capabilities@.len() ==> r@[i] == self.inner.capabilities@[i],
            cap_is(
                r@[self.inner.capabilities@.len() as int],
                "search"@,
                "Search"@,
                "SearchQuery"@,
                "DocumentList"@,
            ),
            cap_is(
                r@[self.inner.capabilities@.len() + 1int],
                "flaky_search"@,
                "Flaky Search"@,
                "SearchQuery"@,
                "DocumentList"@,
            ),
            cap_is(
                r@[self.inner.capabilities@.len() + 2int],
                "list_source"@,
                "List Source"@,
                "Void"@,
                "StringList"@,
            ),
            cap_is(
                r@[self.inner.capabilities@.len() + 3int],
                "irreversible"@,
                "Irreversible"@,
                "Void"@,
                "Void"@,
            ),
            cap_is(
                r@[self.inner.capabilities@.len() + 4int],
                "unstable_search"@,
                "Unstable Search"@,
                "SearchQuery"@,
                "DocumentList"@,
            ),
    {
        let mut v: Vec<CapabilityDesc> = Vec::new();
        let caps = &self.inner.capabilities;
        let mut i: usize = 0;
        while i < caps.len()
            invariant
                i <= caps@.len(),
                v@.len() == i,
                forall|k: int| 0 <= k < i ==> v@[k] == caps@[k],
            decreases caps@.len() - i,
        {
            let c = &caps[i];
            v.push(
                CapabilityDesc {
                    id: c.id.clone(),
                    name: c.name.clone(),
                    input_type: c.input_type.clone(),
                    output_type: c.output_type.clone(),
                },
            );
            i = i + 1;
        }
        v.push(SearchPrimitive.capability());
        v.push(FlakySearchPrimitive::new(1, FailureClass::Timeout).capability());
        v.push(ListSourcePrimitive::new(Vec::new()).capability());
        v.push(IrreversiblePrimitive.capability());
        v.push(UnstableSearchPrimitive.capability());
        v
    }

    /// The effect kinds of the primitive a capability id resolves to.
    pub fn effect_kinds(&self, id: &str) -> (r: Option<Vec<EffectKind>>)
        ensures
            match resolved_effects(id@) {
                None => r is None,
                Some(ks) => r is Some && r->Some_0@ == ks,
            },
    {
        let mut v: Vec<EffectKind> = Vec::new();
        if str_eq(id, "search") || str_eq(id, "flaky_search") || str_eq(id, "unstable_search") {
            v.push(EffectKind::NetworkRead);
        } else if str_eq(id, "list_source") || str_eq(id, "summarize") {
        } else if str_eq(id, "irreversible") {
            v.push(EffectKind::ExternalIrreversible);
        } else if str_eq(id, "read_file") {
            v.push(EffectKind::FsRead);
        } else if str_eq(id, "write_file") {
            v.push(EffectKind::FsWrite);
        } else if str_eq(id, "execute_python") {
            v.push(EffectKind::ProcessSpawn);
            v.push(EffectKind::FsRead);
        } else {
            return None;
        }
        assert(v@ =~= resolved_effects(id@).unwrap());
        Some(v)
    }
}

/// The first node that requests retry on a primitive declaring an external
/// irreversible effect.
pub open spec fn retry_unsafe(nodes: Seq<CirNode>) -> Option<(Seq<char>, Seq<char>)>
    decreases nodes.len(),
{
    if nodes.len() == 0 {
        None
    } else {
        let n = nodes[0];
        let bad = n.control is Some && n.control.unwrap().retry is Some && n.capability is Some
            && resolved_effects(n.capability.unwrap()@) is Some && resolved_effects(
            n.capability.unwrap()@,
        ).unwrap().contains(EffectKind::ExternalIrreversible);
        if bad {
            Some((n.node_id@, n.capability.unwrap()@))
        } else {
            retry_unsafe(nodes.drop_first())
        }
    }
}

/// Retry is only allowed on primitives without an external irreversible
/// effect.
pub fn check_recovery_compat(program: &CirProgram, registry: &BenchRegistry) -> (r: Result<
    (),
    AcosError,
>)
    ensures
        match retry_unsafe(program.nodes@) {
            None => r is Ok,
            Some((id, cap)) => r matches Err(AcosError::ValidationFailure { message })
                && (message@ == "node '"@ + id + "' requests retry on irreversible primitive '"@
                + cap + "' (ExternalIrreversible effect)"@),
        },
{
    let nodes = &program.nodes;
    let mut i: usize = 0;
    assert(nodes@.skip(0) =~= nodes@);
    while i < nodes.len()
        invariant
            i <= nodes@.len(),
            nodes@ == program.nodes@,
            retry_unsafe(nodes@) == retry_unsafe(nodes@.skip(i as int)),
        decreases nodes@.len() - i,
    {
        assert(nodes@.skip(i as int)[0] == nodes@[i as int]);
        assert(nodes@.skip(i as int).drop_first() =~= nodes@.skip(i + 1));
        let n = &nodes[i];
        let has_retry = match &n.control {
            Some(c) => c.retry.is_some(),
            None => false,
        };
        if has_retry {
            match &n.capability {
                Some(cap) => match registry.effect_kinds(cap.as_str()) {
                    Some(kinds) => {
                        let mut irreversible = false;
                        let mut k: usize = 0;
                        while k < kinds.len()
                            invariant
                                k <= kinds@.len(),
                                irreversible == (exists|m: int|
                                    0 <= m < k && kinds@[m] == EffectKind::ExternalIrreversible),
                            decreases kinds@.len() - k,
                        {
                            if kinds[k] == EffectKind::ExternalIrreversible {
                                irreversible = true;
                            }
                            k = k + 1;
                        }
                        assert(irreversible == kinds@.contains(EffectKind::ExternalIrreversible));
                        if irreversible {
                            let mut m = string_of("node '");
                            push_text(&mut m, n.node_id.as_str());
                            push_text(&mut m, "' requests retry on irreversible primitive '");
                            push_text(&mut m, cap.as_str());
                            push_text(&mut m, "' (ExternalIrreversible effect)");
                            return Err(AcosError::ValidationFailure { message: m });
                        }
                    },
                    None => {},
                },
                None => {},
            }
        }
        i = i + 1;
    }
    Ok(())
}

// ── Recovery telemetry ─────────────────────────────────────────────────────

/// The `planner` member of an event payload, when it is a string.
pub open spec fn planner_of(payload: JsonValue) -> Option<Seq<char>> {
    match payload {
        JsonValue::Object(members) => match member_of(members@, "planner"@) {
            Some(JsonValue::Str(s)) => Some(s@),
            _ => None,
        },
        _ => None,
    }
}

fn planner(payload: &JsonValue) -> (r: Option<&String>)
    ensures
        match planner_of(*payload) {
            None => r is None,
            Some(p) => r is Some && r.unwrap()@ == p,
        },
{
    match payload {
        JsonValue::Object(members) => match get_member(members, "planner") {
            Some(v) => v.as_str(),
            None => None,
        },
        _ => None,
    }
}

/// The recovery label of an event log scanned from position `i`: the first
/// `replan.started` whose planner is `model` or `rule` decides; otherwise a
/// retry seen anywhere makes it `retry`.
pub open spec fn recovery_from(events: Seq<Event>, i: int, retry: bool) -> Option<Seq<char>>
    decreases events.len() - i,
{
    if i < 0 || i >= events.len() {
        if retry {
            Some("retry"@)
        } else {
            None
        }
    } else {
        let e = events[i];
        let retry2 = retry || e.event_type@ == "retry.started"@;
        let p = planner_of(e.payload);
        if e.event_type@ == "replan.started"@ && p == Some("model"@) {
            Some("model"@)
        } else if e.event_type@ == "replan.started"@ && p == Some("rule"@) {
            Some("rule"@)
        } else {
            recovery_from(events, i + 1, retry2)
        }
    }
}

/// Detects the recovery label (`model`, `rule` or `retry`) of an event log.
pub fn detect_recovery(events: &Vec<Event>) -> (r: Option<String>)
    ensures
        match recovery_from(events@, 0, false) {
            None => r is None,
            Some(l) => r is Some && r.unwrap()@ == l,
        },
{
    let mut retry = false;
    let mut i: usize = 0;
    while i < events.len()
        invariant
            i <= events@.len(),
            recovery_from(events@, 0, false) == recovery_from(events@, i as int, retry),
        decreases events@.len() - i,
    {
        let e = &events[i];
        if str_eq(e.event_type.as_str(), "retry.started") {
            retry = true;
        }
        if str_eq(e.event_type.as_str(), "replan.started") {
            match planner(&e.payload) {
                Some(p) => {
                    if str_eq(p.as_str(), "model") {
                        return Some(string_of("model"));
                    }
                    if str_eq(p.as_str(), "rule") {
                        return Some(string_of("rule"));
                    }
                },
                None => {},
            }
        }
        i = i + 1;
    }
    if retry {
        Some(string_of("retry"))
    } else {
        None
    }
}

/// The number of `retry.started` events.
pub open spec fn retry_count(events: Seq<Event>) -> nat
    decreases events.len(),
{
    if events.len() == 0 {
        0
    } else {
        retry_count(events.drop_last()) + if events.last().event_type@ == "retry.started"@ {
            1nat
        } else {
            0nat
        }
    }
}

/// The planner of the last `replan.started` event with a non-empty planner.
pub open spec fn last_planner(events: Seq<Event>) -> Option<Seq<char>>
    decreases events.len(),
{
    if events.len() == 0 {
        None
    } else {
        let e = events.last();
        let p = planner_of(e.payload);
        if e.event_type@ == "replan.started"@ && p is Some && p.unwrap().len() > 0 {
            p
        } else {
            last_planner(events.drop_last())
        }
    }
}

/// Compact recovery telemetry: `replan:{planner}`, else `retry(x{n})`.
pub open spec fn recovery_detail(events: Seq<Event>) -> Option<Seq<char>> {
    match last_planner(events) {
        Some(p) => Some("replan:"@ + p),
        None => if retry_count(events) > 0 {
            Some("retry(x"@ + dec_text(retry_count(events)) + ")"@)
        } else {
            None
        },
    }
}

/// Builds the compact recovery telemetry string of an event log.
pub fn build_recovery_detail(events: &Vec<Event>) -> (r: Option<String>)
    ensures
        match recovery_detail(events@) {
            None => r is None,
            Some(d) => r is Some && r.unwrap()@ == d,
        },
{
    let mut count: u64 = 0;
    let mut last: Option<&String> = None;
    let mut i: usize = 0;
    while i < events.len()
        invariant
            i <= events@.len(),
            count == retry_count(events@.take(i as int)),
            count <= i,
            match last_planner(events@.take(i as int)) {
                None => last is None,
                Some(p) => last is Some && last.unwrap()@ == p,
            },
        decreases events@.len() - i,
    {
        let e = &events[i];
        assert(events@.take(i + 1).drop_last() =~= events@.take(i as int));
        assert(events@.take(i + 1).last() == events@[i as int]);
        if str_eq(e.event_type.as_str(), "retry.started") {
            assert(i < usize::MAX);
            count = count + 1;
        }
        if str_eq(e.event_type.as_str(), "replan.started") {
            match planner(&e.payload) {
                Some(p) => {
                    if p.as_str().unicode_len() > 0 {
                        last = Some(p);
                    }
                },
                None => {},
            }
        }
        i = i + 1;
    }
    assert(events@.take(i as int) =~= events@);
    match last {
        Some(p) => {
            let mut s = string_of("replan:");
            push_text(&mut s, p.as_str());
            Some(s)
        },
        None => {
            if count > 0 {
                let mut s = string_of("retry(x");
                let c = u64_text(count);
                push_text(&mut s, c.as_str());
                push_text(&mut s, ")");
                Some(s)
            } else {
                None
            }
        },
    }
}

/// The status word fixtures use for a run status.
pub open spec fn status_word(s: RunStatus) -> Seq<char> {
    match s {
        RunStatus::Completed => "success"@,
        RunStatus::Failed => "failed"@,
        RunStatus::Pending => "pending"@,
        RunStatus::Running => "running"@,
        RunStatus::Compensating => "compensating"@,
        RunStatus::Compensated => "compensated"@,
    }
}

/// Maps a run status to the lowercase word used in fixtures.
pub fn status_to_string(s: RunStatus) -> (r: String)
    ensures
        r@ == status_word(s),
{
    match s {
        RunStatus::Completed => string_of("success"),
        RunStatus::Failed => string_of("failed"),
        RunStatus::Pending => string_of("pending"),
        RunStatus::Running => string_of("running"),
        RunStatus::Compensating => string_of("compensating"),
        RunStatus::Compensated => string_of("compensated"),
    }
}

// ── Verdict on an executed case ────────────────────────────────────────────

pub open spec fn bool_text(b: bool) -> Seq<char> {
    if b {
        "true"@
    } else {
        "false"@
    }
}

fn bool_word(b: bool) -> (r: &'static str)
    ensures
        r@ == bool_text(b),
{
    if b {
        "true"
    } else {
        "false"
    }
}

pub open spec fn opt_text_of(o: Option<String>) -> Option<Seq<char>> {
    match o {
        Some(s) => Some(s@),
        None => None,
    }
}

/// The verdict on an executed case and its note, given what was observed:
/// whether execution succeeded, the run's final status word, the recovery
/// label, the verification outcome and whether a model planner was available.
pub open spec fn verdict(
    exp: Expected,
    execution_ok: bool,
    final_status: Seq<char>,
    recovery: Option<Seq<char>>,
    verification: Option<bool>,
    model_available: bool,
) -> (CaseStatus, Seq<char>) {
    let exp_exec = match exp.execution {
        Some(b) => b,
        None => true,
    };
    let got_rec = match recovery {
        Some(r) => r,
        None => seq![],
    };
    let exp_ver = match exp.verification {
        Some(b) => b,
        None => true,
    };
    let got_ver = match verification {
        Some(b) => b,
        None => false,
    };
    if !execution_ok && opt_text_of(exp.recovery) == Some("model"@) && !model_available {
        (CaseStatus::Skip, "model not configured"@)
    } else if exp.final_status is Some && final_status != exp.final_status.unwrap()@ {
        (
            CaseStatus::Fail,
            "final_status expected "@ + exp.final_status.unwrap()@ + ", got "@ + final_status,
        )
    } else if execution_ok != exp_exec {
        (
            CaseStatus::Fail,
            "execution expected "@ + bool_text(exp_exec) + ", got "@ + bool_text(execution_ok),
        )
    } else if exp.recovery is Some && got_rec != exp.recovery.unwrap()@ {
        (CaseStatus::Fail, "recovery expected "@ + exp.recovery.unwrap()@ + ", got "@ + got_rec)
    } else if execution_ok && got_ver != exp_ver {
        (
            CaseStatus::Fail,
            "verification expected "@ + bool_text(exp_ver) + ", got "@ + bool_text(got_ver),
        )
    } else {
        (CaseStatus::Pass, "ok"@)
    }
}

/// Verification decides a case only when its run succeeded. Once the final
/// status, the execution outcome and the recovery all match what the fixture
/// expects, a succeeded run passes exactly when its verification outcome (none
/// read as failed) is the expected one (none read as passed), and a failed run
/// is never failed on verification.
pub proof fn lemma_verdict_verification(
    exp: Expected,
    execution_ok: bool,
    final_status: Seq<char>,
    recovery: Option<Seq<char>>,
    verification: Option<bool>,
    model_available: bool,
)
    requires
        exp.final_status is None || final_status == exp.final_status.unwrap()@,
        execution_ok == match exp.execution {
            Some(b) => b,
            None => true,
        },
        exp.recovery is None || match recovery {
            Some(r) => r,
            None => Seq::<char>::empty(),
        } == exp.recovery.unwrap()@,
    ensures
        ({
            let got = match verification {
                Some(b) => b,
                None => false,
            };
            let want = match exp.verification {
                Some(b) => b,
                None => true,
            };
            let v = verdict(exp, execution_ok, final_status, recovery, verification, model_available);
            &&& execution_ok && got == want ==> v == (CaseStatus::Pass, "ok"@)
            &&& execution_ok && got != want ==> v.0 == CaseStatus::Fail && v.1 == "verification expected "@
                + bool_text(want) + ", got "@ + bool_text(got)
            &&& !execution_ok ==> v.0 != CaseStatus::Fail
        }),
{
}

/// A case passes only when every expectation it states holds: the final
/// status, the execution outcome, the recovery label and, for a succeeded
/// run, the verification outcome.
pub proof fn lemma_pass_means_all_match(
    exp: Expected,
    execution_ok: bool,
    final_status: Seq<char>,
    recovery: Option<Seq<char>>,
    verification: Option<bool>,
    model_available: bool,
)
    requires
        verdict(exp, execution_ok, final_status, recovery, verification, model_available).0
            == CaseStatus::Pass,
    ensures
        exp.final_status is None || final_status == exp.final_status.unwrap()@,
        execution_ok == match exp.execution {
            Some(b) => b,
            None => true,
        },
        exp.recovery is None || match recovery {
            Some(r) => r,
            None => Seq::<char>::empty(),
        } == exp.recovery.unwrap()@,
        execution_ok ==> match verification {
            Some(b) => b,
            None => false,
        } == match exp.verification {
            Some(b) => b,
            None => true,
        },
{
}

/// Whether the run's verification is consulted: the run succeeded and its
/// final status is the expected one (else the verdict is already decided).
pub fn needs_verification(exp: &Expected, execution_ok: bool, final_status: &str) -> (b: bool)
    ensures
        b == (execution_ok && (exp.final_status is None || exp.final_status.unwrap()@
            == final_status@)),
{
    execution_ok && match &exp.final_status {
        None => true,
        Some(fs) => str_eq(fs.as_str(), final_status),
    }
}

/// Judges an executed case against its fixture's expectations.
pub fn judge_execution(
    exp: &Expected,
    execution_ok: bool,
    final_status: &str,
    recovery: Option<&str>,
    verification: Option<bool>,
    model_available: bool,
) -> (r: (CaseStatus, String))
    ensures
        (r.0, r.1@) == verdict(
            *exp,
            execution_ok,
            final_status@,
            match recovery {
                Some(s) => Some(s@),
                None => None,
            },
            verification,
            model_available,
        ),
{
    let model_expected = match &exp.recovery {
        Some(r) => str_eq(r.as_str(), "model"),
        None => false,
    };
    if !execution_ok && model_expected && !model_available {
        return (CaseStatus::Skip, string_of("model not configured"));
    }
    match &exp.final_status {
        Some(fs) => {
            if !str_eq(final_status, fs.as_str()) {
                let mut m = string_of("final_status expected ");
                push_text(&mut m, fs.as_str());
                push_text(&mut m, ", got ");
                push_text(&mut m, final_status);
                return (CaseStatus::Fail, m);
            }
        },
        None => {},
    }
    let exp_exec = match exp.execution {
        Some(b) => b,
        None => true,
    };
    if execution_ok != exp_exec {
        let mut m = string_of("execution expected ");
        push_text(&mut m, bool_word(exp_exec));
        push_text(&mut m, ", got ");
        push_text(&mut m, bool_word(execution_ok));
        return (CaseStatus::Fail, m);
    }
    match &exp.recovery {
        Some(er) => {
            let got = match recovery {
                Some(g) => g,
                None => "",
            };
            proof {
                reveal_strlit("");
                assert(""@ =~= Seq::<char>::empty());
            }
            if !str_eq(got, er.as_str()) {
                let mut m = string_of("recovery expected ");
                push_text(&mut m, er.as_str());
                push_text(&mut m, ", got ");
                push_text(&mut m, got);
                return (CaseStatus::Fail, m);
            }
        },
        None => {},
    }
    if execution_ok {
        let exp_ver = match exp.verification {
            Some(b) => b,
            None => true,
        };
        let got_ver = match verification {
            Some(b) => b,
            None => false,
        };
        if got_ver != exp_ver {
            let mut m = string_of("verification expected ");
            push_text(&mut m, bool_word(exp_ver));
            push_text(&mut m, ", got ");
            push_text(&mut m, bool_word(got_ver));
            return (CaseStatus::Fail, m);
        }
    }
    (CaseStatus::Pass, string_of("ok"))
}

} // verus!
