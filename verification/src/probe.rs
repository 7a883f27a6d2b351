//! The discovery probe's analysis of compiled programs: behavioral checks,
//! plan statistics, trace timestamps and command-line arguments.

use vstd::prelude::*;

use crate::json::{get_member, member_of, JsonValue};
use crate::plan::{contains_name, PlanStep, StepKind};
use crate::refs::views;
use crate::text::{
    chars_of, dec_text, debug_str, debug_text, find_chars, find_seq, push_text, str_eq, string_of,
    u64_text,
};
use crate::types::{CirNode, CirNodeKind, CirProgram};

verus! {

// ── Verdicts ────────────────────────────────────────────────────────────────

/// The outcome of one behavioral check.
#[derive(Debug, Clone, Copy, PartialEq, Eq, Structural)]
pub enum Verdict {
    Pass,
    Fail,
    Partial,
}

pub open spec fn verdict_symbol(v: Verdict) -> Seq<char> {
    match v {
        Verdict::Pass => "✓"@,
        Verdict::Fail => "✗"@,
        Verdict::Partial => "~"@,
    }
}

impl Verdict {
    /// The mark printed for the verdict.
    pub fn symbol(&self) -> (r: &'static str)
        ensures
            r@ == verdict_symbol(*self),
    {
        match self {
            Verdict::Pass => "✓",
            Verdict::Fail => "✗",
            Verdict::Partial => "~",
        }
    }
}

// ── Command-line arguments ──────────────────────────────────────────────────

/// Index of the first occurrence of `x` in `s`, or -1.
pub open spec fn first_index(s: Seq<Seq<char>>, x: Seq<char>) -> int
    decreases s.len(),
{
    if s.len() == 0 {
        -1
    } else if s[0] == x {
        0
    } else {
        let r = first_index(s.drop_first(), x);
        if r < 0 {
            -1
        } else {
            r + 1
        }
    }
}

/// The value that follows the first occurrence of `key` in `args`.
pub open spec fn arg_value(args: Seq<Seq<char>>, key: Seq<char>) -> Option<Seq<char>> {
    let p = first_index(args, key);
    if 0 <= p && p + 1 < args.len() {
        Some(args[p + 1])
    } else {
        None
    }
}

/// Returns the argument after the first `key` in `args`.
pub fn get_arg(args: &Vec<String>, key: &str) -> (r: Option<String>)
    ensures
        match arg_value(views(args@), key@) {
            None => r is None,
            Some(v) => r matches Some(s) && s@ == v,
        },
{
    let ghost a = views(args@);
    let mut i: usize = 0;
    assert(a.skip(0) =~= a);
    while i < args.len()
        invariant
            i <= args@.len(),
            a == views(args@),
            first_index(a, key@) == (if first_index(a.skip(i as int), key@) < 0 {
                -1
            } else {
                first_index(a.skip(i as int), key@) + i
            }),
        decreases args@.len() - i,
    {
        assert(a.skip(i as int)[0] == a[i as int]);
        assert(a.skip(i as int).drop_first() =~= a.skip(i + 1));
        if str_eq(args[i].as_str(), key) {
            if i + 1 < args.len() {
                return Some(string_of(args[i + 1].as_str()));
            }
            return None;
        }
        i = i + 1;
    }
    assert(a.skip(i as int).len() == 0);
    None
}

// ── Timestamps ──────────────────────────────────────────────────────────────

/// Two-digit zero-padded decimal text (`{:02}`).
pub open spec fn pad2(n: nat) -> Seq<char> {
    if n < 10 {
        "0"@ + dec_text(n)
    } else {
        dec_text(n)
    }
}

/// The approximate calendar date of a day count since the epoch: 365-day
/// years and 30-day months.
pub open spec fn date_text(days: nat) -> Seq<char> {
    dec_text(1970 + days / 365) + "-"@ + pad2((days % 365) / 30 + 1) + "-"@ + pad2(
        (days % 365) % 30 + 1,
    )
}

/// The approximate timestamp of a second count since the epoch.
pub open spec fn timestamp_text(secs: nat) -> Seq<char> {
    let rem = secs % 86400;
    date_text(secs / 86400) + "T"@ + pad2(rem / 3600) + ":"@ + pad2((rem % 3600) / 60) + ":"@
        + pad2(rem % 60) + "Z"@
}

fn push_pad2(out: &mut String, n: u64)
    ensures
        final(out)@ == old(out)@ + pad2(n as nat),
{
    if n < 10 {
        push_text(out, "0");
    }
    let t = u64_text(n);
    push_text(out, t.as_str());
    proof {
        reveal_strlit("0");
    }
}

/// Approximate date from days since the epoch (good enough for ordering).
pub fn days_to_date(days: u64) -> (r: String)
    ensures
        r@ == date_text(days as nat),
{
    let year = 1970u64 + days / 365;
    let day_of_year = days % 365;
    let month = day_of_year / 30 + 1;
    let day = day_of_year % 30 + 1;
    let mut s = u64_text(year);
    push_text(&mut s, "-");
    push_pad2(&mut s, month);
    push_text(&mut s, "-");
    push_pad2(&mut s, day);
    s
}

/// The trace timestamp of a moment given in seconds since the epoch.
pub fn iso_timestamp(secs: u64) -> (r: String)
    ensures
        r@ == timestamp_text(secs as nat),
{
    let days = secs / 86400;
    let rem = secs % 86400;
    let h = rem / 3600;
    let m = (rem % 3600) / 60;
    let s = rem % 60;
    let mut out = days_to_date(days);
    push_text(&mut out, "T");
    push_pad2(&mut out, h);
    push_text(&mut out, ":");
    push_pad2(&mut out, m);
    push_text(&mut out, ":");
    push_pad2(&mut out, s);
    push_text(&mut out, "Z");
    out
}

// ── Plan statistics ─────────────────────────────────────────────────────────

/// The name the probe gives a step kind.
pub open spec fn step_kind_name(k: StepKind) -> Seq<char> {
    match k {
        StepKind::Foreach => "foreach"@,
        StepKind::Conditional => "conditional"@,
        StepKind::Retry => "retry"@,
        StepKind::Primitive => "primitive"@,
    }
}

/// The number of steps named `kind`, nested bodies included.
pub open spec fn kind_count(steps: Seq<PlanStep>, kind: Seq<char>) -> nat
    decreases steps, 0int,
{
    if steps.len() == 0 {
        0
    } else {
        step_kind_count(steps[0], kind) + kind_count(steps.drop_first(), kind)
    }
}

pub open spec fn step_kind_count(s: PlanStep, kind: Seq<char>) -> nat
    decreases s, 1int,
{
    (if step_kind_name(s.kind) == kind {
        1nat
    } else {
        0nat
    }) + kind_count(s.body@, kind)
}

fn kind_name(k: StepKind) -> (r: &'static str)
    ensures
        r@ == step_kind_name(k),
{
    match k {
        StepKind::Foreach => "foreach",
        StepKind::Conditional => "conditional",
        StepKind::Retry => "retry",
        StepKind::Primitive => "primitive",
    }
}

/// Counts the steps of a given kind across the whole plan tree.
pub fn count_step_kind(steps: &Vec<PlanStep>, kind: &str) -> (n: usize)
    requires
        kind_count(steps@, kind@) <= usize::MAX,
    ensures
        n == kind_count(steps@, kind@),
    decreases steps@,
{
    let mut n: usize = 0;
    let mut i: usize = 0;
    assert(steps@.skip(0) =~= steps@);
    while i < steps.len()
        invariant
            i <= steps@.len(),
            n + kind_count(steps@.skip(i as int), kind@) == kind_count(steps@, kind@),
            kind_count(steps@, kind@) <= usize::MAX,
        decreases steps@.len() - i,
    {
        let s = &steps[i];
        assert(steps@.skip(i as int)[0] == steps@[i as int]);
        assert(steps@.skip(i as int).drop_first() =~= steps@.skip(i + 1));
        let mine: usize = if str_eq(kind_name(s.kind), kind) {
            1
        } else {
            0
        };
        proof {
            assert(decreases_to!(steps@ => steps@[i as int]));
            assert(decreases_to!(steps@[i as int] => steps@[i as int].body));
        }
        assert(kind_count(steps@.skip(i as int), kind@) == step_kind_count(steps@[i as int], kind@)
            + kind_count(steps@.skip(i + 1), kind@));
        assert(step_kind_count(steps@[i as int], kind@) == mine + kind_count(s.body@, kind@));
        let inner = count_step_kind(&s.body, kind);
        n = n + mine + inner;
        i = i + 1;
    }
    n
}

// ── Behavioral analysis ─────────────────────────────────────────────────────

/// What the probe gathers from a program's nodes.
pub struct Tally {
    pub loops: nat,
    pub conds: nat,
    pub retries: nat,
    pub prims: nat,
    /// Capabilities, each once, in order of first use.
    pub caps: Seq<Seq<char>>,
    /// Paths the program reads or embeds, each once.
    pub paths: Seq<Seq<char>>,
    pub write: bool,
    /// `${var}` forms of the loop item variables.
    pub items: Seq<Seq<char>>,
}

pub open spec fn add_new(s: Seq<Seq<char>>, x: Seq<char>) -> Seq<Seq<char>> {
    if s.contains(x) {
        s
    } else {
        s.push(x)
    }
}

/// `paths` with each declared path that occurs in `code` added.
pub open spec fn add_contained(paths: Seq<Seq<char>>, declared: Seq<Seq<char>>, code: Seq<char>) -> Seq<
    Seq<char>,
>
    decreases declared.len(),
{
    if declared.len() == 0 {
        paths
    } else {
        let p = add_contained(paths, declared.drop_last(), code);
        if find_seq(code, declared.last()) >= 0 {
            add_new(p, declared.last())
        } else {
            p
        }
    }
}

/// The text of input `key` of a node, where it is a string.
pub open spec fn str_input(n: CirNode, key: Seq<char>) -> Option<Seq<char>> {
    match member_of(n.inputs@, key) {
        Some(JsonValue::Str(s)) => Some(s@),
        _ => None,
    }
}

pub open spec fn cap_is(n: CirNode, c: Seq<char>) -> bool {
    n.capability matches Some(x) && x@ == c
}

pub open spec fn item_ref(n: CirNode) -> Option<Seq<char>> {
    match n.control {
        Some(c) => match c.loop_spec {
            Some(ls) => match ls.item_var {
                Some(v) => Some("${"@ + v@ + "}"@),
                None => None,
            },
            None => None,
        },
        None => None,
    }
}

pub open spec fn tally_node(t: Tally, n: CirNode, declared: Seq<Seq<char>>) -> Tally {
    let p1 = if cap_is(n, "read_file"@) {
        match str_input(n, "path"@) {
            Some(s) => add_new(t.paths, s),
            None => t.paths,
        }
    } else {
        t.paths
    };
    let p2 = if cap_is(n, "execute_python"@) {
        match str_input(n, "code"@) {
            Some(c) => add_contained(p1, declared, c),
            None => p1,
        }
    } else {
        p1
    };
    Tally {
        loops: if n.kind == CirNodeKind::LoopMap {
            t.loops + 1
        } else {
            t.loops
        },
        conds: if n.kind == CirNodeKind::Conditional {
            t.conds + 1
        } else {
            t.conds
        },
        retries: if n.control matches Some(c) && c.retry is Some {
            t.retries + 1
        } else {
            t.retries
        },
        prims: if n.capability is Some {
            t.prims + 1
        } else {
            t.prims
        },
        caps: match n.capability {
            Some(c) => add_new(t.caps, c@),
            None => t.caps,
        },
        paths: p2,
        write: t.write || cap_is(n, "write_file"@),
        items: match item_ref(n) {
            Some(v) => add_new(t.items, v),
            None => t.items,
        },
    }
}

pub open spec fn tally(nodes: Seq<CirNode>, declared: Seq<Seq<char>>) -> Tally
    decreases nodes.len(),
{
    if nodes.len() == 0 {
        Tally {
            loops: 0,
            conds: 0,
            retries: 0,
            prims: 0,
            caps: seq![],
            paths: seq![],
            write: false,
            items: seq![],
        }
    } else {
        tally_node(tally(nodes.drop_last(), declared), nodes.last(), declared)
    }
}

/// How many declared paths the program uses.
pub open spec fn matched_count(declared: Seq<Seq<char>>, paths: Seq<Seq<char>>) -> nat
    decreases declared.len(),
{
    if declared.len() == 0 {
        0
    } else {
        matched_count(declared.drop_last(), paths) + if paths.contains(declared.last()) {
            1nat
        } else {
            0nat
        }
    }
}

/// The paths used that are neither declared nor loop item variables.
pub open spec fn undeclared(paths: Seq<Seq<char>>, declared: Seq<Seq<char>>, items: Seq<Seq<char>>) -> Seq<
    Seq<char>,
>
    decreases paths.len(),
{
    if paths.len() == 0 {
        seq![]
    } else {
        let u = undeclared(paths.drop_last(), declared, items);
        if !declared.contains(paths.last()) && !items.contains(paths.last()) {
            u.push(paths.last())
        } else {
            u
        }
    }
}

/// The `Debug` renderings of strings joined by `", "`.
pub open spec fn debug_join(s: Seq<Seq<char>>) -> Seq<char>
    decreases s.len(),
{
    if s.len() == 0 {
        seq![]
    } else if s.len() == 1 {
        debug_text(s[0])
    } else {
        debug_join(s.drop_last()) + ", "@ + debug_text(s.last())
    }
}

pub open spec fn bool_text(b: bool) -> Seq<char> {
    if b {
        "true"@
    } else {
        "false"@
    }
}

pub open spec fn pass_if(b: bool) -> Verdict {
    if b {
        Verdict::Pass
    } else {
        Verdict::Fail
    }
}

pub open spec fn b2n(b: bool) -> nat {
    if b {
        1
    } else {
        0
    }
}

/// Every declared path is used (vacuously so when none is declared).
pub open spec fn br1_holds(t: Tally, declared: Seq<Seq<char>>) -> bool {
    declared.len() > 0 ==> matched_count(declared, t.paths) == declared.len()
}

pub open spec fn has_python(t: Tally) -> bool {
    t.caps.contains("execute_python"@)
}

pub open spec fn has_analysis(t: Tally) -> bool {
    has_python(t) || t.prims > 2
}

pub open spec fn has_repair(t: Tally) -> bool {
    t.conds > 0 || has_python(t)
}

pub open spec fn has_evidence(t: Tally, node_count: nat) -> bool {
    node_count >= 4 || t.prims >= 3
}

pub open spec fn has_control(t: Tally) -> bool {
    t.loops > 0 || t.conds > 0 || t.retries > 0
}

pub open spec fn no_hallucination(t: Tally, declared: Seq<Seq<char>>) -> bool {
    undeclared(t.paths, declared, t.items).len() == 0
}

pub open spec fn br1_s(t: Tally, declared: Seq<Seq<char>>) -> (Seq<char>, Verdict, Seq<char>) {
    let matched = matched_count(declared, t.paths);
    (
        "BR-1 Multi-File Processing"@,
        if br1_holds(t, declared) {
            Verdict::Pass
        } else if matched > 0 {
            Verdict::Partial
        } else {
            Verdict::Fail
        },
        dec_text(matched) + "/"@ + dec_text(declared.len()) + " declared paths referenced"@,
    )
}

pub open spec fn br2_s(t: Tally) -> (Seq<char>, Verdict, Seq<char>) {
    (
        "BR-2 Data Quality Analysis"@,
        pass_if(has_analysis(t)),
        if has_analysis(t) {
            "analysis caps: {"@ + debug_join(t.caps) + "}"@
        } else {
            "only read/write"@
        },
    )
}

pub open spec fn br3_s(t: Tally) -> (Seq<char>, Verdict, Seq<char>) {
    (
        "BR-3 Anomaly Detection/Repair"@,
        pass_if(has_repair(t)),
        "conditions="@ + dec_text(t.conds) + ", python="@ + bool_text(has_python(t)),
    )
}

pub open spec fn br4_s(t: Tally) -> (Seq<char>, Verdict, Seq<char>) {
    (
        "BR-4 Structured Report"@,
        pass_if(t.write),
        if t.write {
            "write_file present"@
        } else {
            "no output"@
        },
    )
}

pub open spec fn br5_s(t: Tally, node_count: nat) -> (Seq<char>, Verdict, Seq<char>) {
    (
        "BR-5 Evidence/Audit Trail"@,
        pass_if(has_evidence(t, node_count)),
        dec_text(node_count) + " nodes, "@ + dec_text(t.prims) + " primitives"@,
    )
}

pub open spec fn br6_s(t: Tally) -> (Seq<char>, Verdict, Seq<char>) {
    (
        "BR-6 Control Flow Complexity"@,
        pass_if(has_control(t)),
        dec_text(t.loops) + " loops, "@ + dec_text(t.conds) + " conds, "@ + dec_text(t.retries)
            + " retries"@,
    )
}

pub open spec fn br7_s(t: Tally, declared: Seq<Seq<char>>) -> (Seq<char>, Verdict, Seq<char>) {
    let u = undeclared(t.paths, declared, t.items);
    (
        "BR-7 No Hallucinated Resources"@,
        if u.len() == 0 {
            Verdict::Pass
        } else if u.len() < t.paths.len() {
            Verdict::Partial
        } else {
            Verdict::Fail
        },
        if u.len() == 0 {
            "all paths declared"@
        } else {
            "undeclared: ["@ + debug_join(u) + "]"@
        },
    )
}

/// The seven checks: name, verdict and detail.
pub open spec fn checks_s(t: Tally, declared: Seq<Seq<char>>, node_count: nat) -> Seq<
    (Seq<char>, Verdict, Seq<char>),
> {
    seq![
        br1_s(t, declared),
        br2_s(t),
        br3_s(t),
        br4_s(t),
        br5_s(t, node_count),
        br6_s(t),
        br7_s(t, declared),
    ]
}

/// The number of checks that pass.
pub open spec fn pass_count_s(t: Tally, declared: Seq<Seq<char>>, node_count: nat) -> nat {
    b2n(br1_holds(t, declared)) + b2n(has_analysis(t)) + b2n(has_repair(t)) + b2n(t.write) + b2n(
        has_evidence(t, node_count),
    ) + b2n(has_control(t)) + b2n(no_hallucination(t, declared))
}

/// The number of passing verdicts among checks.
pub open spec fn pass_total(cs: Seq<(Seq<char>, Verdict, Seq<char>)>) -> nat
    decreases cs.len(),
{
    if cs.len() == 0 {
        0
    } else {
        pass_total(cs.drop_last()) + b2n(cs.last().1 == Verdict::Pass)
    }
}

/// The checks that pass are those `pass_count_s` counts.
pub proof fn lemma_pass_total_checks(t: Tally, declared: Seq<Seq<char>>, node_count: nat)
    ensures
        pass_total(checks_s(t, declared, node_count)) == pass_count_s(t, declared, node_count),
{
    let cs = checks_s(t, declared, node_count);
    reveal_with_fuel(pass_total, 8);
    assert(cs.drop_last().drop_last().drop_last().drop_last().drop_last().drop_last().drop_last()
        =~= seq![]);
}

/// One behavioral check.
pub struct BehavioralCheck {
    pub name: String,
    pub verdict: Verdict,
    pub detail: String,
}

/// The probe's behavioral analysis of a compiled program.
pub struct BehavioralAnalysis {
    pub pass_count: u32,
    pub binding_matched: usize,
    pub binding_total: usize,
    pub node_count: usize,
    pub primitive_count: u32,
    pub loop_count: u32,
    pub condition_count: u32,
    pub retry_count: u32,
    pub checks: Vec<BehavioralCheck>,
}

pub open spec fn check_view(c: BehavioralCheck) -> (Seq<char>, Verdict, Seq<char>) {
    (c.name@, c.verdict, c.detail@)
}

struct Counts {
    loops: u32,
    conds: u32,
    retries: u32,
    prims: u32,
    caps: Vec<String>,
    paths: Vec<String>,
    write: bool,
    items: Vec<String>,
}

impl Counts {
    spec fn tally_view(&self) -> Tally {
        Tally {
            loops: self.loops as nat,
            conds: self.conds as nat,
            retries: self.retries as nat,
            prims: self.prims as nat,
            caps: views(self.caps@),
            paths: views(self.paths@),
            write: self.write,
            items: views(self.items@),
        }
    }
}

fn add_new_exec(v: &mut Vec<String>, x: &str)
    ensures
        views(final(v)@) == add_new(views(old(v)@), x@),
{
    if !contains_name(v, x) {
        v.push(string_of(x));
        assert(views(v@) =~= views(old(v)@).push(x@));
    }
}

fn add_contained_exec(paths: &mut Vec<String>, declared: &Vec<String>, code: &str)
    ensures
        views(final(paths)@) == add_contained(views(old(paths)@), views(declared@), code@),
{
    let ghost d = views(declared@);
    let cv = chars_of(code);
    let mut j: usize = 0;
    assert(d.take(0).len() == 0);
    while j < declared.len()
        invariant
            j <= declared@.len(),
            d == views(declared@),
            cv@ == code@,
            views(paths@) == add_contained(views(old(paths)@), d.take(j as int), code@),
        decreases declared@.len() - j,
    {
        assert(d.take(j + 1).drop_last() =~= d.take(j as int));
        assert(d.take(j + 1).last() == declared@[j as int]@);
        let pv = chars_of(declared[j].as_str());
        if find_chars(&cv, &pv, 0).is_some() {
            add_new_exec(paths, declared[j].as_str());
        }
        j = j + 1;
    }
    assert(d.take(declared@.len() as int) =~= d);
}

fn str_input_exec<'a>(n: &'a CirNode, key: &str) -> (r: Option<&'a String>)
    ensures
        match str_input(*n, key@) {
            None => r is None,
            Some(s) => r matches Some(x) && x@ == s,
        },
{
    match get_member(&n.inputs, key) {
        Some(v) => v.as_str(),
        None => None,
    }
}

fn count_node(c: &mut Counts, n: &CirNode, declared: &Vec<String>)
    requires
        old(c).loops < u32::MAX,
        old(c).conds < u32::MAX,
        old(c).retries < u32::MAX,
        old(c).prims < u32::MAX,
    ensures
        final(c).tally_view() == tally_node(old(c).tally_view(), *n, views(declared@)),
        final(c).loops <= old(c).loops + 1,
        final(c).conds <= old(c).conds + 1,
        final(c).retries <= old(c).retries + 1,
        final(c).prims <= old(c).prims + 1,
{
    proof {
        reveal_strlit("read_file");
        reveal_strlit("write_file");
        reveal_strlit("execute_python");
    }
    let ghost t = old(c).tally_view();
    match n.kind {
        CirNodeKind::LoopMap => c.loops = c.loops + 1,
        CirNodeKind::Conditional => c.conds = c.conds + 1,
        _ => {},
    }
    let mut is_python = false;
    match &n.capability {
        Some(cap) => {
            add_new_exec(&mut c.caps, cap.as_str());
            c.prims = c.prims + 1;
            if str_eq(cap.as_str(), "read_file") {
                assert(cap@.len() == 9);
                assert(!cap_is(*n, "write_file"@));
                match str_input_exec(n, "path") {
                    Some(p) => add_new_exec(&mut c.paths, p.as_str()),
                    None => {},
                }
            } else if str_eq(cap.as_str(), "write_file") {
                c.write = true;
            }
            is_python = str_eq(cap.as_str(), "execute_python");
        },
        None => {},
    }
    if is_python {
        match str_input_exec(n, "code") {
            Some(code) => add_contained_exec(&mut c.paths, declared, code.as_str()),
            None => {},
        }
    }
    match &n.control {
        Some(ctl) => {
            if ctl.retry.is_some() {
                c.retries = c.retries + 1;
            }
            match &ctl.loop_spec {
                Some(ls) => match &ls.item_var {
                    Some(v) => {
                        let mut r = string_of("${");
                        push_text(&mut r, v.as_str());
                        push_text(&mut r, "}");
                        add_new_exec(&mut c.items, r.as_str());
                    },
                    None => {},
                },
                None => {},
            }
        },
        None => {},
    }
}

fn push_debug_join(out: &mut String, v: &Vec<String>)
    ensures
        final(out)@ == old(out)@ + debug_join(views(v@)),
{
    let ghost w = views(v@);
    let mut i: usize = 0;
    assert(w.take(0) =~= seq![]);
    assert(out@ =~= old(out)@ + debug_join(w.take(0)));
    while i < v.len()
        invariant
            i <= v@.len(),
            w == views(v@),
            out@ == old(out)@ + debug_join(w.take(i as int)),
        decreases v@.len() - i,
    {
        assert(w.take(i + 1).drop_last() =~= w.take(i as int));
        assert(w.take(i + 1).last() == v@[i as int]@);
        if i > 0 {
            push_text(out, ", ");
        }
        let d = debug_str(v[i].as_str());
        push_text(out, d.as_str());
        proof {
            reveal_strlit(", ");
            if i == 0 {
                assert(w.take(1).len() == 1);
                assert(out@ =~= old(out)@ + debug_join(w.take(1)));
            } else {
                assert(out@ =~= old(out)@ + debug_join(w.take(i + 1)));
            }
        }
        i = i + 1;
    }
    assert(w.take(v@.len() as int) =~= w);
}

fn count_matched(declared: &Vec<String>, paths: &Vec<String>) -> (n: usize)
    ensures
        n == matched_count(views(declared@), views(paths@)),
{
    let ghost d = views(declared@);
    let mut n: usize = 0;
    let mut j: usize = 0;
    assert(d.take(0).len() == 0);
    while j < declared.len()
        invariant
            j <= declared@.len(),
            d == views(declared@),
            n == matched_count(d.take(j as int), views(paths@)),
            n <= j,
        decreases declared@.len() - j,
    {
        assert(d.take(j + 1).drop_last() =~= d.take(j as int));
        assert(d.take(j + 1).last() == declared@[j as int]@);
        if contains_name(paths, declared[j].as_str()) {
            n = n + 1;
        }
        j = j + 1;
    }
    assert(d.take(declared@.len() as int) =~= d);
    n
}

fn undeclared_exec(paths: &Vec<String>, declared: &Vec<String>, items: &Vec<String>) -> (r: Vec<String>)
    ensures
        views(r@) == undeclared(views(paths@), views(declared@), views(items@)),
        r@.len() <= paths@.len(),
{
    let ghost p = views(paths@);
    let mut r: Vec<String> = Vec::new();
    let mut j: usize = 0;
    assert(p.take(0).len() == 0);
    assert(views(r@) =~= seq![]);
    while j < paths.len()
        invariant
            j <= paths@.len(),
            p == views(paths@),
            views(r@) == undeclared(p.take(j as int), views(declared@), views(items@)),
            r@.len() <= j,
        decreases paths@.len() - j,
    {
        assert(p.take(j + 1).drop_last() =~= p.take(j as int));
        assert(p.take(j + 1).last() == paths@[j as int]@);
        if !contains_name(declared, paths[j].as_str()) && !contains_name(items, paths[j].as_str()) {
            let ghost before = r@;
            r.push(string_of(paths[j].as_str()));
            assert(views(r@) =~= views(before).push(paths@[j as int]@));
        }
        j = j + 1;
    }
    assert(p.take(paths@.len() as int) =~= p);
    r
}

fn push_u64(out: &mut String, n: u64)
    ensures
        final(out)@ == old(out)@ + dec_text(n as nat),
{
    let t = u64_text(n);
    push_text(out, t.as_str());
}

fn check(name: &str, verdict: Verdict, detail: String) -> (c: BehavioralCheck)
    ensures
        check_view(c) == (name@, verdict, detail@),
{
    BehavioralCheck { name: string_of(name), verdict, detail }
}

fn verdict_for(b: bool) -> (v: Verdict)
    ensures
        v == pass_if(b),
{
    if b {
        Verdict::Pass
    } else {
        Verdict::Fail
    }
}

fn tally_program(nodes: &Vec<CirNode>, declared: &Vec<String>) -> (c: Counts)
    requires
        nodes@.len() < u32::MAX,
    ensures
        c.tally_view() == tally(nodes@, views(declared@)),
{
    let ghost d = views(declared@);
    let mut c = Counts {
        loops: 0,
        conds: 0,
        retries: 0,
        prims: 0,
        caps: Vec::new(),
        paths: Vec::new(),
        write: false,
        items: Vec::new(),
    };
    let mut i: usize = 0;
    assert(views(c.caps@) =~= seq![]);
    assert(views(c.paths@) =~= seq![]);
    assert(views(c.items@) =~= seq![]);
    assert(nodes@.take(0) =~= seq![]);
    while i < nodes.len()
        invariant
            i <= nodes@.len(),
            nodes@.len() < u32::MAX,
            d == views(declared@),
            c.tally_view() == tally(nodes@.take(i as int), d),
            c.loops <= i,
            c.conds <= i,
            c.retries <= i,
            c.prims <= i,
        decreases nodes@.len() - i,
    {
        assert(nodes@.take(i + 1).drop_last() =~= nodes@.take(i as int));
        count_node(&mut c, &nodes[i], declared);
        i = i + 1;
    }
    assert(nodes@.take(nodes@.len() as int) =~= nodes@);
    c
}

fn br1_check(c: &Counts, declared: &Vec<String>) -> (r: BehavioralCheck)
    ensures
        check_view(r) == br1_s(c.tally_view(), views(declared@)),
{
    let total = declared.len();
    let matched = count_matched(declared, &c.paths);
    let br1 = if total > 0 {
        matched == total
    } else {
        true
    };
    let mut d1 = String::new();
    push_u64(&mut d1, matched as u64);
    push_text(&mut d1, "/");
    push_u64(&mut d1, total as u64);
    push_text(&mut d1, " declared paths referenced");
    let v = if br1 {
        Verdict::Pass
    } else if matched > 0 {
        Verdict::Partial
    } else {
        Verdict::Fail
    };
    check("BR-1 Multi-File Processing", v, d1)
}

fn br2_check(c: &Counts, python: bool) -> (r: BehavioralCheck)
    requires
        python == has_python(c.tally_view()),
    ensures
        check_view(r) == br2_s(c.tally_view()),
{
    let analysis = python || c.prims > 2;
    let d2 = if analysis {
        let mut d2 = string_of("analysis caps: {");
        push_debug_join(&mut d2, &c.caps);
        push_text(&mut d2, "}");
        d2
    } else {
        string_of("only read/write")
    };
    check("BR-2 Data Quality Analysis", verdict_for(analysis), d2)
}

fn br3_check(c: &Counts, python: bool) -> (r: BehavioralCheck)
    requires
        python == has_python(c.tally_view()),
    ensures
        check_view(r) == br3_s(c.tally_view()),
{
    let mut d3 = string_of("conditions=");
    push_u64(&mut d3, c.conds as u64);
    push_text(&mut d3, ", python=");
    push_text(&mut d3, if python {
        "true"
    } else {
        "false"
    });
    check("BR-3 Anomaly Detection/Repair", verdict_for(c.conds > 0 || python), d3)
}

fn br4_check(c: &Counts) -> (r: BehavioralCheck)
    ensures
        check_view(r) == br4_s(c.tally_view()),
{
    let d4 = if c.write {
        string_of("write_file present")
    } else {
        string_of("no output")
    };
    check("BR-4 Structured Report", verdict_for(c.write), d4)
}

fn br5_check(c: &Counts, node_count: usize) -> (r: BehavioralCheck)
    ensures
        check_view(r) == br5_s(c.tally_view(), node_count as nat),
{
    let mut d5 = String::new();
    push_u64(&mut d5, node_count as u64);
    push_text(&mut d5, " nodes, ");
    push_u64(&mut d5, c.prims as u64);
    push_text(&mut d5, " primitives");
    check("BR-5 Evidence/Audit Trail", verdict_for(node_count >= 4 || c.prims >= 3), d5)
}

fn br6_check(c: &Counts) -> (r: BehavioralCheck)
    ensures
        check_view(r) == br6_s(c.tally_view()),
{
    let mut d6 = String::new();
    push_u64(&mut d6, c.loops as u64);
    push_text(&mut d6, " loops, ");
    push_u64(&mut d6, c.conds as u64);
    push_text(&mut d6, " conds, ");
    push_u64(&mut d6, c.retries as u64);
    push_text(&mut d6, " retries");
    check(
        "BR-6 Control Flow Complexity",
        verdict_for(c.loops > 0 || c.conds > 0 || c.retries > 0),
        d6,
    )
}

fn br7_check(c: &Counts, declared: &Vec<String>) -> (r: BehavioralCheck)
    ensures
        check_view(r) == br7_s(c.tally_view(), views(declared@)),
{
    let u = undeclared_exec(&c.paths, declared, &c.items);
    let v = if u.len() == 0 {
        Verdict::Pass
    } else if u.len() < c.paths.len() {
        Verdict::Partial
    } else {
        Verdict::Fail
    };
    let d7 = if u.len() == 0 {
        string_of("all paths declared")
    } else {
        let mut d7 = string_of("undeclared: [");
        push_debug_join(&mut d7, &u);
        push_text(&mut d7, "]");
        d7
    };
    check("BR-7 No Hallucinated Resources", v, d7)
}

/// Runs the seven behavioral checks on a compiled program against the input
/// paths the task declares (a set: each path listed once).
pub fn analyze_behavioral_requirements(program: &CirProgram, declared_paths: &Vec<String>) -> (r:
    BehavioralAnalysis)
    requires
        program.nodes@.len() < u32::MAX,
        crate::lower::no_dups(views(declared_paths@)),
    ensures
        ({
            let d = views(declared_paths@);
            let t = tally(program.nodes@, d);
            &&& r.node_count == program.nodes@.len()
            &&& r.loop_count == t.loops
            &&& r.condition_count == t.conds
            &&& r.retry_count == t.retries
            &&& r.primitive_count == t.prims
            &&& r.binding_total == d.len()
            &&& r.binding_matched == matched_count(d, t.paths)
            &&& r.checks@.map_values(|c: BehavioralCheck| check_view(c)) == checks_s(
                t,
                d,
                program.nodes@.len() as nat,
            )
            &&& r.pass_count == pass_count_s(t, d, program.nodes@.len() as nat)
        }),
{
    let ghost d = views(declared_paths@);
    let c = tally_program(&program.nodes, declared_paths);
    let ghost t = c.tally_view();
    let node_count = program.nodes.len();
    proof {
        reveal_strlit("execute_python");
    }
    let python = contains_name(&c.caps, "execute_python");
    let mut checks: Vec<BehavioralCheck> = Vec::new();
    checks.push(br1_check(&c, declared_paths));
    checks.push(br2_check(&c, python));
    checks.push(br3_check(&c, python));
    checks.push(br4_check(&c));
    checks.push(br5_check(&c, node_count));
    checks.push(br6_check(&c));
    checks.push(br7_check(&c, declared_paths));
    let mut pass_count: u32 = 0;
    let mut k: usize = 0;
    while k < checks.len()
        invariant
            k <= checks@.len(),
            checks@.len() == 7,
            pass_count <= k,
            pass_count == pass_total(checks@.take(k as int).map_values(|c: BehavioralCheck| check_view(c))),
        decreases checks@.len() - k,
    {
        assert(checks@.take(k + 1).map_values(|c: BehavioralCheck| check_view(c)).drop_last()
            =~= checks@.take(k as int).map_values(|c: BehavioralCheck| check_view(c)));
        if checks[k].verdict == Verdict::Pass {
            pass_count = pass_count + 1;
        }
        k = k + 1;
    }
    let binding_matched = count_matched(declared_paths, &c.paths);
    proof {
        let cs = checks@.map_values(|c: BehavioralCheck| check_view(c));
        assert(cs =~= checks_s(t, d, node_count as nat));
        assert(checks@.take(7) =~= checks@);
        lemma_pass_total_checks(t, d, node_count as nat);
    }
    BehavioralAnalysis {
        pass_count,
        binding_matched,
        binding_total: declared_paths.len(),
        node_count,
        primitive_count: c.prims,
        loop_count: c.loops,
        condition_count: c.conds,
        retry_count: c.retries,
        checks,
    }
}

} // verus!
