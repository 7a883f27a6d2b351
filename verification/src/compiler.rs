//! The compiler front end: semantic validation of CIR programs, extraction of
//! the JSON object from a model reply, and classification of decoding errors.

use vstd::prelude::*;

use crate::cir::{
    any_primitive, caps_s, check_children, check_else_children, check_entry, check_result,
    children_s, control_s, effects_s, else_s, entry_s, err_is, has_primitive,
    validate_capabilities, validate_control_semantics, validate_effects, CErr,
};
use crate::contract::{contract_error, contract_s, data_contract_walk, ContractWalk, WalkS};
use crate::error::{compiler_error_text, AcosError, CompilerError};
use crate::plan::{chars_start_with, starts_with};
use crate::reach::{check_reachability, reach_s};
use crate::text::{
    chars_of, find_chars, find_from, last_index, last_index_of, lemma_find_from_bounds,
    lemma_last_index_bounds, slice_chars, string_from_chars, string_of, trim_bounds,
    trim_start_index, trim_start_seq, trim_seq,
};
use crate::types::{CirProgram, EffectKind};

verus! {

pub open spec fn first_err(a: Option<CErr>, b: Option<CErr>) -> Option<CErr> {
    if a is Some {
        a
    } else {
        b
    }
}

/// The structural stages, in order: entry, children, else-children,
/// capabilities, control semantics, effects, reachability.
pub open spec fn structural_s(p: CirProgram) -> Option<CErr> {
    let n = p.nodes@;
    first_err(
        entry_s(p),
        first_err(
            children_s(n, n),
            first_err(
                else_s(n, n),
                first_err(
                    caps_s(n),
                    first_err(control_s(n, n), first_err(effects_s(p.effects@), reach_s(p))),
                ),
            ),
        ),
    )
}

/// The first rule of CIR validation that `p` breaks: the structural stages,
/// then the data contract, then the no-op guard.
pub open spec fn semantic_s(p: CirProgram) -> Option<CErr> {
    first_err(
        structural_s(p),
        first_err(
            contract_error(p),
            if has_primitive(p.nodes@) {
                None
            } else {
                Some(CErr::NoOpProgram)
            },
        ),
    )
}

/// A program that declares an external irreversible effect marked reversible
/// never passes validation.
pub proof fn lemma_reversible_irreversible_refused(p: CirProgram, i: int)
    requires
        0 <= i < p.effects@.len(),
        p.effects@[i].kind == EffectKind::ExternalIrreversible,
        p.effects@[i].reversible,
    ensures
        structural_s(p) is Some,
        semantic_s(p) is Some,
{
    crate::cir::lemma_effects_rule(p.effects@);
    assert(effects_s(p.effects@) is Some);
}

/// Validation ends: a structural stage fails first, or the contract walk
/// finishes.
pub open spec fn semantic_ends(p: CirProgram) -> bool {
    structural_s(p) is Some || !(contract_s(p) is Unbounded)
}

/// Runs every validation stage; `None` when the data contract walk of a
/// structurally valid program would descend forever.
pub fn validate_cir_bounded(p: &CirProgram) -> (r: Option<Result<(), CompilerError>>)
    ensures
        match r {
            None => !semantic_ends(*p),
            Some(x) => semantic_ends(*p) && check_result(x, semantic_s(*p)),
        },
{
    let c = check_entry(p);
    if c.is_err() {
        return Some(c);
    }
    let c = check_children(p);
    if c.is_err() {
        return Some(c);
    }
    let c = check_else_children(p);
    if c.is_err() {
        return Some(c);
    }
    let c = validate_capabilities(p);
    if c.is_err() {
        return Some(c);
    }
    let c = validate_control_semantics(p);
    if c.is_err() {
        return Some(c);
    }
    let c = validate_effects(p);
    if c.is_err() {
        return Some(c);
    }
    let c = check_reachability(p);
    if c.is_err() {
        return Some(c);
    }
    match data_contract_walk(p) {
        ContractWalk::Unbounded => {
            return None;
        },
        ContractWalk::Failed(e) => {
            return Some(Err(e));
        },
        ContractWalk::Passed => {},
    }
    if !any_primitive(&p.nodes) {
        return Some(Err(CompilerError::NoOpProgram));
    }
    Some(Ok(()))
}

/// Validates structural and semantic invariants of a CIR program, reporting
/// the first broken rule as a specific compiler error.
pub fn validate_cir_semantic(p: &CirProgram) -> (r: Result<(), CompilerError>)
    requires
        semantic_ends(*p),
    ensures
        check_result(r, semantic_s(*p)),
{
    match validate_cir_bounded(p) {
        Some(r) => r,
        None => Ok(()),
    }
}

/// Validates a CIR program; a failure becomes a compiler failure carrying the
/// text of the specific error.
pub fn validate_cir(p: &CirProgram) -> (r: Result<(), AcosError>)
    requires
        semantic_ends(*p),
    ensures
        r is Ok <==> semantic_s(*p) is None,
        r is Err ==> exists|ce: CompilerError|
            #![trigger compiler_error_text(ce)]
            err_is(ce, semantic_s(*p).unwrap()) && r->Err_0 is CompilerFailure
                && r->Err_0->CompilerFailure_message@ == compiler_error_text(ce),
{
    match validate_cir_semantic(p) {
        Ok(()) => Ok(()),
        Err(e) => Err(e.to_acos_error()),
    }
}

// ── JSON object extraction ─────────────────────────────────────────────────

/// `s` without its leading backticks.
pub open spec fn drop_ticks(s: Seq<char>) -> Seq<char>
    decreases s.len(),
{
    if s.len() > 0 && s[0] == '`' {
        drop_ticks(s.drop_first())
    } else {
        s
    }
}

/// The body of a fenced reply: after the opening backticks, blanks and an
/// optional `json` tag, up to the next ``` fence, trimmed.
pub open spec fn fence_body(t: Seq<char>) -> Seq<char> {
    let w = trim_start_seq(drop_ticks(t));
    let body = if starts_with(w, "json"@) {
        w.skip(4)
    } else {
        w
    };
    let end = find_from(body, "```"@, 0);
    trim_seq(
        body.take(
            if end < 0 {
                body.len() as int
            } else {
                end
            },
        ),
    )
}

/// The text searched for the object: the fenced body when the trimmed reply
/// opens with a fence, else the trimmed reply.
pub open spec fn json_candidate(text: Seq<char>) -> Seq<char> {
    let t = trim_seq(text);
    if starts_with(t, "```"@) {
        fence_body(t)
    } else {
        t
    }
}

/// The candidate from its first `{` to its last `}`; the whole candidate when
/// either is missing.
pub open spec fn json_object_s(text: Seq<char>) -> Seq<char> {
    let c = json_candidate(text);
    let s = find_from(c, seq!['{'], 0);
    let e = last_index(c, '}');
    if s < 0 || e < 0 {
        c
    } else {
        c.subrange(s, e + 1)
    }
}

/// The slice from the first `{` to the last `}` is well formed: it is empty
/// or runs forward.
pub open spec fn json_slice_ok(text: Seq<char>) -> bool {
    let c = json_candidate(text);
    let s = find_from(c, seq!['{'], 0);
    let e = last_index(c, '}');
    s < 0 || e < 0 || s <= e + 1
}

fn drop_tick_index(v: &Vec<char>) -> (i: usize)
    ensures
        i <= v@.len(),
        v@.skip(i as int) == drop_ticks(v@),
{
    let mut i: usize = 0;
    assert(v@.skip(0) =~= v@);
    while i < v.len() && v[i] == '`'
        invariant
            i <= v@.len(),
            drop_ticks(v@) == drop_ticks(v@.skip(i as int)),
        decreases v@.len() - i,
    {
        assert(v@.skip(i as int).drop_first() =~= v@.skip(i + 1));
        i = i + 1;
    }
    i
}

fn fence_body_of(t: &Vec<char>) -> (r: Vec<char>)
    ensures
        r@ == fence_body(t@),
{
    let a = drop_tick_index(t);
    let w0 = slice_chars(t, a, t.len());
    assert(w0@ =~= drop_ticks(t@));
    let b = trim_start_index(&w0);
    let w = slice_chars(&w0, b, w0.len());
    assert(w@ =~= trim_start_seq(drop_ticks(t@)));
    let body = if chars_start_with(&w, "json") {
        proof {
            reveal_strlit("json");
        }
        slice_chars(&w, 4, w.len())
    } else {
        slice_chars(&w, 0, w.len())
    };
    assert(body@ =~= if starts_with(w@, "json"@) {
        w@.skip(4)
    } else {
        w@
    });
    let fence = chars_of("```");
    let end = match find_chars(&body, &fence, 0) {
        Some(e) => {
            proof {
                lemma_find_from_bounds(body@, fence@, 0);
            }
            e
        },
        None => body.len(),
    };
    let head = slice_chars(&body, 0, end);
    assert(head@ =~= body@.take(end as int));
    let (x, y) = trim_bounds(&head);
    slice_chars(&head, x, y)
}

/// Extracts the JSON object from text that may carry markdown fences or
/// surrounding commentary; `None` when the last `}` comes before the first
/// `{` less one, where the slice between them is malformed.
pub fn try_extract_json_object(text: &str) -> (r: Option<String>)
    ensures
        json_slice_ok(text@) ==> (r matches Some(x) && x@ == json_object_s(text@)),
        !json_slice_ok(text@) ==> r is None,
{
    let v = chars_of(text);
    let (a, b) = trim_bounds(&v);
    let t = slice_chars(&v, a, b);
    let c = if chars_start_with(&t, "```") {
        fence_body_of(&t)
    } else {
        t
    };
    assert(c@ == json_candidate(text@));
    let open = chars_of("{");
    proof {
        reveal_strlit("{");
        assert(open@ =~= seq!['{']);
    }
    match find_chars(&c, &open, 0) {
        None => Some(string_from_chars(c.as_slice())),
        Some(s) => match last_index_of(&c, '}') {
            None => Some(string_from_chars(c.as_slice())),
            Some(e) => {
                proof {
                    lemma_find_from_bounds(c@, open@, 0);
                    lemma_last_index_bounds(c@, '}');
                }
                if s > e + 1 {
                    return None;
                }
                let piece = slice_chars(&c, s, e + 1);
                Some(string_from_chars(piece.as_slice()))
            },
        },
    }
}

/// Extracts the JSON object from text that may carry markdown fences or
/// surrounding commentary.
pub fn extract_json_object(text: &str) -> (r: String)
    requires
        json_slice_ok(text@),
    ensures
        r@ == json_object_s(text@),
{
    try_extract_json_object(text).unwrap()
}

// ── Decoding errors ────────────────────────────────────────────────────────

/// The field named by a serde "missing field" message: the text after the
/// first "missing field `", up to the next such marker and then up to the
/// first backtick; "unknown" when the marker is absent.
pub open spec fn missing_field_name(msg: Seq<char>) -> Seq<char> {
    let marker = "missing field `"@;
    let i = find_from(msg, marker, 0);
    if i < 0 {
        "unknown"@
    } else {
        let rest = msg.skip(i + marker.len());
        let j = find_from(rest, marker, 0);
        let seg = if j < 0 {
            rest
        } else {
            rest.take(j)
        };
        let k = find_from(seg, seq!['`'], 0);
        if k < 0 {
            seg
        } else {
            seg.take(k)
        }
    }
}

/// The compiler error for a message of a failed conversion into a program:
/// a missing field when the message reports one, else a shape error.
pub open spec fn shape_error_is(e: CompilerError, msg: Seq<char>) -> bool {
    if find_from(msg, "missing field"@, 0) >= 0 {
        e matches CompilerError::MissingRequiredField { field } && field@ == missing_field_name(msg)
    } else {
        e matches CompilerError::JsonShapeError { message } && message@ == msg
    }
}

fn prefix_upto(v: &Vec<char>, pat: &Vec<char>) -> (r: Vec<char>)
    ensures
        r@ == if find_from(v@, pat@, 0) < 0 {
            v@
        } else {
            v@.take(find_from(v@, pat@, 0))
        },
{
    match find_chars(v, pat, 0) {
        None => slice_chars(v, 0, v.len()),
        Some(j) => {
            proof {
                lemma_find_from_bounds(v@, pat@, 0);
            }
            let r = slice_chars(v, 0, j);
            assert(r@ =~= v@.take(j as int));
            r
        },
    }
}

/// Classifies the message of a failed conversion into a program.
pub fn classify_shape_error(msg: &str) -> (e: CompilerError)
    ensures
        shape_error_is(e, msg@),
{
    let v = chars_of(msg);
    let probe = chars_of("missing field");
    if find_chars(&v, &probe, 0).is_none() {
        return CompilerError::JsonShapeError { message: string_of(msg) };
    }
    let marker = chars_of("missing field `");
    let field = match find_chars(&v, &marker, 0) {
        None => {
            proof {
                reveal_strlit("missing field `");
            }
            string_of("unknown")
        },
        Some(i) => {
            proof {
                lemma_find_from_bounds(v@, marker@, 0);
            }
            let n = v.len();
            assert(i + marker@.len() <= n);
            let rest = slice_chars(&v, i + marker.len(), n);
            assert(rest@ =~= v@.skip(i + marker@.len()));
            let seg = prefix_upto(&rest, &marker);
            let tick = chars_of("`");
            proof {
                reveal_strlit("`");
                assert(tick@ =~= seq!['`']);
            }
            let name = prefix_upto(&seg, &tick);
            string_from_chars(name.as_slice())
        },
    };
    CompilerError::MissingRequiredField { field }
}

/// The error for unparseable JSON: the parser's message and the first 200
/// characters of the raw reply.
pub fn syntax_error(message: String, raw: &str) -> (e: CompilerError)
    ensures
        e matches CompilerError::JsonSyntaxError { message: m, raw_excerpt } && m@ == message@
            && raw_excerpt@ == if raw@.len() <= 200 {
            raw@
        } else {
            raw@.take(200)
        },
{
    let v = chars_of(raw);
    let n = if v.len() <= 200 {
        v.len()
    } else {
        200
    };
    let head = slice_chars(&v, 0, n);
    assert(head@ =~= if raw@.len() <= 200 {
        raw@
    } else {
        raw@.take(200)
    });
    CompilerError::JsonSyntaxError { message, raw_excerpt: string_from_chars(head.as_slice()) }
}

} // verus!
