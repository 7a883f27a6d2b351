//! The data contract of lowered programs: the program a valid plan lowers to
//! passes the contract walk, so a valid plan always compiles.
//!
//! The walk resolves a reference to the item variable of an enclosing loop or
//! to the last node that declares an output of that name; validation resolves
//! it in the step's visible scope. Output names being unique across the plan,
//! both resolve to the same declaration.

use vstd::prelude::*;

use crate::contract::{
    contract_s, entries_s, aggregate_s, compatible, field_path_s, inputs_s, item_var_of, last_child_type, last_producer,
    node_refs_s, ref_s, refs_s, resolve_s, type_for, walk_list, walk_s, WalkS,
};
use crate::reach::last_node;
use crate::json::{hex_digit_lower, json_escape, json_escape_char, json_items, json_quoted, json_string_array, JsonValue};
use crate::lower::{
    all_str, base_inputs, bind_fold, body_outer, bound_name, bound_type, key_index, lemma_lookup_concat,
    list_type_s, lowered_list, lowered_step, opt_view, out_matches, pairs_view, prim_node_ok, put,
    lemma_step_lowers, placed, resolve_b, same_scope, shapes_ok, sib_after, step_ids, step_shape_ok,
    step_uses_inputs, str_view, task_paths, top_ids, uses_inputs, visible_of, plan_program,
    plan_prefix, injector_ok, node_ids, post_ids, lemma_valid_steps_shape, lemma_list_sound,
    lemma_steps_ids_fresh,
};
use crate::plan::{
    bad_out, bindings_s, check_fields_s, opt_text, primitive_s, BindingRef, check_output_s, check_ref_s, check_refs_s, find_field, is_ident,
    item_view, last_output, lemma_split_dot_nonempty, list_source_s, lookup, out_view, own_out,
    post_outs, split_dot, step_outs, v_step, v_steps, OutView, PlanStep, StepKind, PlanIR,
    plan_valid,
};
use crate::text::is_ascii_alnum;
use crate::types::{fields_view, CirProgram, ProgramId, TaskId, TaskSpec};
use crate::text::{all_ws, is_ws};
use crate::refs::{json_refs, refs_from, text_refs, views};
use crate::types::CirNode;

verus! {

// ── Entry lists with unique keys ───────────────────────────────────────────

pub open spec fn keys_unique(ps: Seq<(Seq<char>, Seq<char>)>) -> bool {
    forall|i: int, j: int| 0 <= i < j < ps.len() ==> #[trigger] ps[i].0 != #[trigger] ps[j].0
}

/// The value of the first entry with key `k`.
pub open spec fn tlook(ps: Seq<(Seq<char>, Seq<char>)>, k: Seq<char>) -> Option<Seq<char>>
    decreases ps.len(),
{
    if ps.len() == 0 {
        None
    } else if ps[0].0 == k {
        Some(ps[0].1)
    } else {
        tlook(ps.drop_first(), k)
    }
}

proof fn lemma_tlook_type_for(its: Seq<(String, String)>, k: Seq<char>)
    ensures
        type_for(its, k) == tlook(pairs_view(its), k),
    decreases its.len(),
{
    if its.len() > 0 {
        assert(pairs_view(its).drop_first() =~= pairs_view(its.drop_first()));
        lemma_tlook_type_for(its.drop_first(), k);
    }
}

proof fn lemma_tlook_at(ps: Seq<(Seq<char>, Seq<char>)>, j: int, k: Seq<char>)
    requires
        0 <= j < ps.len(),
        ps[j].0 == k,
        forall|i: int| 0 <= i < j ==> (#[trigger] ps[i]).0 != k,
    ensures
        tlook(ps, k) == Some(ps[j].1),
    decreases j,
{
    if j > 0 {
        let d = ps.drop_first();
        assert(ps[0].0 != k);
        assert forall|i: int| 0 <= i < j - 1 implies (#[trigger] d[i]).0 != k by {
            assert(d[i] == ps[i + 1]);
        }
        lemma_tlook_at(d, j - 1, k);
        assert(d[j - 1] == ps[j]);
    }
}

proof fn lemma_tlook_none(ps: Seq<(Seq<char>, Seq<char>)>, k: Seq<char>)
    requires
        forall|i: int| 0 <= i < ps.len() ==> (#[trigger] ps[i]).0 != k,
    ensures
        tlook(ps, k) is None,
    decreases ps.len(),
{
    if ps.len() > 0 {
        let d = ps.drop_first();
        assert(ps[0].0 != k);
        assert forall|i: int| 0 <= i < d.len() implies (#[trigger] d[i]).0 != k by {
            assert(d[i] == ps[i + 1]);
        }
        lemma_tlook_none(d, k);
    }
}

/// In a list with unique keys, the value under a key is that of its entry.
proof fn lemma_tlook_unique(ps: Seq<(Seq<char>, Seq<char>)>, j: int)
    requires
        keys_unique(ps),
        0 <= j < ps.len(),
    ensures
        tlook(ps, ps[j].0) == Some(ps[j].1),
{
    assert forall|i: int| 0 <= i < j implies (#[trigger] ps[i]).0 != ps[j].0 by {}
    lemma_tlook_at(ps, j, ps[j].0);
}

proof fn lemma_key_index(m: Seq<(Seq<char>, Seq<char>)>, k: Seq<char>)
    ensures
        -1 <= key_index(m, k) < m.len(),
        key_index(m, k) >= 0 ==> m[key_index(m, k)].0 == k,
        key_index(m, k) == -1 ==> forall|j: int| 0 <= j < m.len() ==> (#[trigger] m[j]).0 != k,
    decreases m.len(),
{
    if m.len() > 0 && m.last().0 != k {
        lemma_key_index(m.drop_last(), k);
        if key_index(m, k) == -1 {
            assert forall|j: int| 0 <= j < m.len() implies (#[trigger] m[j]).0 != k by {
                if j < m.len() - 1 {
                    assert(m.drop_last()[j] == m[j]);
                }
            }
        }
    }
}

/// Inserting into a list with unique keys keeps the keys unique, sets the
/// key's value, and leaves every other entry and lookup as it was.
proof fn lemma_put(m: Seq<(Seq<char>, Seq<char>)>, k: Seq<char>, v: Seq<char>)
    requires
        keys_unique(m),
    ensures
        keys_unique(put(m, k, v)),
        forall|j: int|
            0 <= j < put(m, k, v).len() ==> (#[trigger] put(m, k, v)[j]).0 == k ==> put(m, k, v)[j].1 == v,
        forall|j: int|
            0 <= j < put(m, k, v).len() && (#[trigger] put(m, k, v)[j]).0 != k ==> j < m.len() && put(
                m,
                k,
                v,
            )[j] == m[j],
        forall|x: Seq<char>| #[trigger] tlook(put(m, k, v), x) == if x == k {
            Some(v)
        } else {
            tlook(m, x)
        },
{
    lemma_key_index(m, k);
    let i = key_index(m, k);
    let r = put(m, k, v);
    assert forall|x: Seq<char>| #[trigger] tlook(r, x) == if x == k {
        Some(v)
    } else {
        tlook(m, x)
    } by {
        if exists|j: int| 0 <= j < m.len() && m[j].0 == x {
            let j = choose|j: int| 0 <= j < m.len() && m[j].0 == x;
            lemma_tlook_unique(m, j);
            if x == k {
                assert(i >= 0);
                assert(i == j);
                assert forall|q: int| 0 <= q < i implies (#[trigger] r[q]).0 != x by {}
                lemma_tlook_at(r, i, x);
            } else {
                assert forall|q: int| 0 <= q < j implies (#[trigger] r[q]).0 != x by {}
                lemma_tlook_at(r, j, x);
            }
        } else {
            assert forall|q: int| 0 <= q < m.len() implies (#[trigger] m[q]).0 != x by {}
            lemma_tlook_none(m, x);
            if x == k {
                assert(i == -1);
                assert forall|q: int| 0 <= q < m.len() implies (#[trigger] r[q]).0 != x by {
                    assert(r[q] == m[q]);
                }
                lemma_tlook_at(r, m.len() as int, x);
            } else {
                assert forall|q: int| 0 <= q < r.len() implies (#[trigger] r[q]).0 != x by {
                    if q < m.len() {
                        assert(r[q] == m[q] || q == i);
                    }
                }
                lemma_tlook_none(r, x);
            }
        }
    }
}

// ── Reference checks over entry lists ──────────────────────────────────────

/// A reference resolves, its field path exists, and its producer's type is
/// compatible with the expected type `t`, if any.
pub open spec fn rv_ok(
    id: Seq<char>,
    raw: Seq<char>,
    t: Option<Seq<char>>,
    sc: Seq<Seq<char>>,
    all: Seq<CirNode>,
) -> bool {
    let parts = split_dot(raw);
    let name = parts[0];
    match resolve_s(all, sc, name) {
        None => false,
        Some(b) => field_path_s(id, name, parts.drop_first(), b.1) is None && match t {
            Some(exp) => compatible(exp, b.0),
            None => true,
        },
    }
}

/// Every reference of every entry passes, with the entry's declared type.
pub open spec fn entries_ok(
    id: Seq<char>,
    ps: Seq<(Seq<char>, Seq<char>)>,
    tys: Seq<(Seq<char>, Seq<char>)>,
    sc: Seq<Seq<char>>,
    all: Seq<CirNode>,
) -> bool {
    forall|j: int, r: Seq<char>|
        0 <= j < ps.len() && #[trigger] text_refs(ps[j].1).contains(r) ==> rv_ok(
            id,
            r,
            tlook(tys, ps[j].0),
            sc,
            all,
        )
}

proof fn lemma_refs_pass(n: CirNode, key: Seq<char>, raws: Seq<Seq<char>>, sc: Seq<Seq<char>>, all: Seq<CirNode>)
    requires
        forall|i: int| 0 <= i < raws.len() ==> #[trigger] rv_ok(
            n.node_id@,
            raws[i],
            type_for(n.input_types@, key),
            sc,
            all,
        ),
    ensures
        refs_s(n, key, raws, sc, all) is None,
    decreases raws.len(),
{
    if raws.len() > 0 {
        assert(rv_ok(n.node_id@, raws[0], type_for(n.input_types@, key), sc, all));
        assert(ref_s(n, key, raws[0], sc, all) is None);
        let d = raws.drop_first();
        assert forall|i: int| 0 <= i < d.len() implies #[trigger] rv_ok(
            n.node_id@,
            d[i],
            type_for(n.input_types@, key),
            sc,
            all,
        ) by {
            assert(d[i] == raws[i + 1]);
        }
        lemma_refs_pass(n, key, d, sc, all);
    }
}

proof fn lemma_inputs_pass(n: CirNode, ins: Seq<(String, JsonValue)>, sc: Seq<Seq<char>>, all: Seq<CirNode>)
    requires
        all_str(ins),
        entries_ok(n.node_id@, str_view(ins), pairs_view(n.input_types@), sc, all),
    ensures
        inputs_s(n, ins, sc, all) is None,
    decreases ins.len(),
{
    if ins.len() > 0 {
        let key = ins[0].0@;
        let v = str_view(ins)[0].1;
        assert(ins[0].1 is Str);
        assert(json_refs(ins[0].1) == text_refs(v));
        lemma_tlook_type_for(n.input_types@, key);
        assert forall|i: int| 0 <= i < text_refs(v).len() implies #[trigger] rv_ok(
            n.node_id@,
            text_refs(v)[i],
            type_for(n.input_types@, key),
            sc,
            all,
        ) by {
            assert(str_view(ins)[0].0 == key);
            assert(text_refs(str_view(ins)[0].1).contains(text_refs(v)[i]));
        }
        lemma_refs_pass(n, key, text_refs(v), sc, all);
        let d = ins.drop_first();
        assert(str_view(d) =~= str_view(ins).drop_first());
        assert forall|j: int, r: Seq<char>|
            0 <= j < str_view(d).len() && #[trigger] text_refs(str_view(d)[j].1).contains(r) implies rv_ok(
            n.node_id@,
            r,
            tlook(pairs_view(n.input_types@), str_view(d)[j].0),
            sc,
            all,
        ) by {
            assert(str_view(d)[j] == str_view(ins)[j + 1]);
        }
        assert forall|i: int| 0 <= i < d.len() implies (#[trigger] d[i]).1 is Str by {
            assert(d[i] == ins[i + 1]);
        }
        lemma_inputs_pass(n, d, sc, all);
    }
}

/// A node whose inputs all pass has no reference error.
pub proof fn lemma_node_refs_pass(n: CirNode, sc: Seq<Seq<char>>, all: Seq<CirNode>)
    requires
        all_str(n.inputs@),
        entries_ok(n.node_id@, str_view(n.inputs@), pairs_view(n.input_types@), sc, all),
    ensures
        node_refs_s(n, sc, all) is None,
{
    lemma_inputs_pass(n, n.inputs@, sc, all);
}

// ── Declared outputs of a lowered program ──────────────────────────────────

pub open spec fn out_name(n: CirNode) -> Option<Seq<char>> {
    match n.output {
        Some(o) => Some(o.name@),
        None => None,
    }
}

pub open spec fn node_outs(s: Seq<CirNode>) -> Seq<Option<Seq<char>>> {
    s.map_values(|n: CirNode| out_name(n))
}

/// A declared output is complete, its name an identifier other than `item`.
pub open spec fn out_ok(n: CirNode) -> bool {
    n.output is Some ==> {
        let o = n.output.unwrap();
        &&& !all_ws(o.name@)
        &&& !all_ws(o.type_label@)
        &&& is_ident(o.name@)
        &&& o.name@ != "item"@
    }
}

proof fn lemma_out_checked(n: CirNode, step: PlanStep)
    requires
        out_matches(n.output, step.output),
        step.output is Some ==> check_output_s(step.output.unwrap(), step.name@) is None,
    ensures
        out_ok(n),
        out_name(n) == match step.output {
            Some(o) => Some(o.name@),
            None => None::<Seq<char>>,
        },
{
}

pub(crate) proof fn lemma_step_outs(
    step: PlanStep,
    sib: Seq<OutView>,
    outer: Seq<OutView>,
    item: Option<Seq<char>>,
    seg: Seq<CirNode>,
)
    requires
        lowered_step(step, sib, outer, item, seg),
        step_shape_ok(step),
    ensures
        node_outs(seg) == step_outs(step),
        forall|k: int| 0 <= k < seg.len() ==> out_ok(#[trigger] seg[k]),
    decreases step, 1int,
{
    match step.kind {
        StepKind::Primitive | StepKind::Retry => {
            lemma_out_checked(seg[0], step);
            assert(node_outs(seg) =~= seq![own_out(step)]);
        },
        _ => {
            let body = seg.drop_last();
            if step.kind == StepKind::Foreach {
                let lt = list_type_s(step.over.unwrap()@, step.name@, sib, outer)->Ok_0;
                lemma_list_outs(step.body@, seq![], body_outer(outer, sib, lt), Some(step.name@), body);
                lemma_out_checked(seg.last(), step);
            } else {
                lemma_list_outs(step.body@, seq![], outer + sib, None, body);
                assert(out_name(seg.last()) == None::<Seq<char>>);
            }
            assert(node_outs(seg) =~= node_outs(body).push(out_name(seg.last())));
            assert forall|k: int| 0 <= k < seg.len() implies out_ok(#[trigger] seg[k]) by {
                if k < seg.len() - 1 {
                    assert(seg[k] == body[k]);
                }
            }
        },
    }
}

pub(crate) proof fn lemma_list_outs(
    steps: Seq<PlanStep>,
    sib: Seq<OutView>,
    outer: Seq<OutView>,
    item: Option<Seq<char>>,
    seg: Seq<CirNode>,
)
    requires
        lowered_list(steps, sib, outer, item, seg),
        shapes_ok(steps),
    ensures
        node_outs(seg) == post_outs(steps),
        forall|k: int| 0 <= k < seg.len() ==> out_ok(#[trigger] seg[k]),
    decreases steps, 0int,
{
    if steps.len() == 0 {
        assert(node_outs(seg) =~= seq![]);
    } else {
        let m = step_ids(steps[0]).len() as int;
        let a = seg.take(m);
        let b = seg.skip(m);
        lemma_step_outs(steps[0], sib, outer, item, a);
        lemma_list_outs(steps.drop_first(), sib_after(steps[0], sib), outer, item, b);
        assert(node_outs(seg) =~= node_outs(a) + node_outs(b));
        assert forall|k: int| 0 <= k < seg.len() implies out_ok(#[trigger] seg[k]) by {
            if k < m {
                assert(seg[k] == a[k]);
            } else {
                assert(seg[k] == b[k - m]);
            }
        }
    }
}

/// No two nodes declare an output of the same name, and none declares `item`.
pub open spec fn outs_unique(all: Seq<CirNode>) -> bool {
    &&& forall|k1: int, k2: int|
        0 <= k1 < k2 < all.len() && out_name(all[k1]) is Some ==> #[trigger] out_name(all[k1])
            != #[trigger] out_name(all[k2])
    &&& forall|k: int| 0 <= k < all.len() ==> #[trigger] out_name(all[k]) != Some("item"@)
}

proof fn lemma_bad_out_none(os: Seq<Option<Seq<char>>>, i: int)
    requires
        0 <= i,
        bad_out(os, i) is None,
    ensures
        forall|j: int|
            i <= j < os.len() && (#[trigger] os[j]) is Some ==> os[j] != Some("input_files"@)
                && !os.take(j).contains(os[j]),
    decreases os.len() - i,
{
    if i < os.len() {
        lemma_bad_out_none(os, i + 1);
    }
}

/// Distinct declared outputs: the plan's output names, in node order, repeat
/// no name and leave `input_files` to the task inputs.
proof fn lemma_outs_distinct(os: Seq<Option<Seq<char>>>)
    requires
        bad_out(os, 0) is None,
    ensures
        forall|a: int, b: int| 0 <= a < b < os.len() && os[a] is Some ==> os[a] != os[b],
        forall|j: int| 0 <= j < os.len() ==> os[j] != Some("input_files"@),
{
    lemma_bad_out_none(os, 0);
    assert forall|a: int, b: int| 0 <= a < b < os.len() && os[a] is Some implies os[a] != os[b] by {
        if os[a] == os[b] {
            assert(os.take(b)[a] == os[a]);
            assert(os.take(b).contains(os[b]));
        }
    }
}

pub(crate) proof fn lemma_last_producer_unique(all: Seq<CirNode>, k: int)
    requires
        outs_unique(all),
        0 <= k < all.len(),
        all[k].output is Some,
    ensures
        last_producer(all, all[k].output.unwrap().name@) == all[k].output,
{
    let x = all[k].output.unwrap().name@;
    assert forall|m: int| k < m < all.len() implies (#[trigger] all[m]).output is None
        || all[m].output.unwrap().name@ != x by {
        assert(out_name(all[k]) != out_name(all[m]));
    }
    crate::rule::lemma_last_producer_at(all, k, x);
}

pub(crate) proof fn lemma_last_producer_none(all: Seq<CirNode>, x: Seq<char>)
    requires
        forall|k: int| 0 <= k < all.len() ==> #[trigger] out_name(all[k]) != Some(x),
    ensures
        last_producer(all, x) is None,
    decreases all.len(),
{
    if all.len() > 0 {
        assert(out_name(all[all.len() - 1]) != Some(x));
        assert(all.last() == all[all.len() - 1]);
        let d = all.drop_last();
        assert forall|k: int| 0 <= k < d.len() implies #[trigger] out_name(d[k]) != Some(x) by {
            assert(d[k] == all[k]);
        }
        lemma_last_producer_none(d, x);
    }
}

// ── Validation scopes against the walk ─────────────────────────────────────

/// The walk's item scope `sc` agrees with the validation scope `vis`: `sc`
/// holds only item variables, and holds one exactly when an item binding is
/// visible; an item binding has no fields; other bindings are identifiers
/// whose last producer declares their type and fields.
pub open spec fn sc_ok(sc: Seq<Seq<char>>, vis: Seq<OutView>, all: Seq<CirNode>) -> bool {
    &&& forall|i: int| 0 <= i < sc.len() ==> #[trigger] sc[i] == "item"@
    &&& (sc.contains("item"@) <==> lookup(vis, "item"@) is Some)
    &&& forall|i: int|
        0 <= i < vis.len() && (#[trigger] vis[i]).name == "item"@ ==> vis[i].fields
            == Seq::<(Seq<char>, Seq<char>)>::empty()
    &&& forall|i: int| 0 <= i < vis.len() ==> (#[trigger] vis[i]).name == "item"@ || is_ident(vis[i].name)
    &&& forall|x: Seq<char>|
        x != "item"@ && (#[trigger] lookup(vis, x)) is Some ==> (last_producer(all, x) matches Some(po)
            && po.type_label@ == lookup(vis, x).unwrap().ty && fields_view(po.fields@) == lookup(
            vis,
            x,
        ).unwrap().fields)
}

pub(crate) proof fn lemma_lookup_in(vis: Seq<OutView>, x: Seq<char>)
    requires
        lookup(vis, x) is Some,
    ensures
        exists|i: int| 0 <= i < vis.len() && vis[i] == lookup(vis, x).unwrap() && vis[i].name == x,
    decreases vis.len(),
{
    if vis.last().name != x {
        lemma_lookup_in(vis.drop_last(), x);
        let i = choose|i: int| 0 <= i < vis.drop_last().len() && vis.drop_last()[i] == lookup(vis, x).unwrap()
            && vis.drop_last()[i].name == x;
        assert(vis[i] == vis.drop_last()[i]);
    } else {
        assert(vis[vis.len() - 1] == vis.last());
    }
}

proof fn lemma_ident_plain(s: Seq<char>)
    requires
        is_ident(s),
    ensures
        forall|c: int| 0 <= c < s.len() ==> s[c] != '.' && s[c] != '}',
{
    assert forall|c: int| 0 <= c < s.len() implies s[c] != '.' && s[c] != '}' by {
        if c > 0 {
            assert(is_ascii_alnum(s[c]) || s[c] == '_');
        }
    }
}

proof fn lemma_fields_agree(
    step_name: Seq<char>,
    raw: Seq<char>,
    source: Seq<char>,
    id: Seq<char>,
    name: Seq<char>,
    fields: Seq<(Seq<char>, Seq<char>)>,
    path: Seq<Seq<char>>,
)
    requires
        check_fields_s(step_name, raw, source, name, fields, path) is None,
    ensures
        field_path_s(id, name, path, fields) is None,
    decreases path.len(),
{
    if path.len() > 0 {
        lemma_fields_agree(step_name, raw, source, id, name, fields, path.drop_first());
    }
}

/// A reference that validation resolves passes the walk's reference check.
proof fn lemma_checked_ref(
    step_name: Seq<char>,
    raw: Seq<char>,
    visible: Seq<OutView>,
    source: Seq<char>,
    vis: Seq<OutView>,
    id: Seq<char>,
    sc: Seq<Seq<char>>,
    all: Seq<CirNode>,
)
    requires
        check_ref_s(step_name, raw, visible, source) is None,
        forall|n: Seq<char>| #[trigger] lookup(visible, n) == lookup(vis, n),
        sc_ok(sc, vis, all),
    ensures
        rv_ok(id, raw, None, sc, all),
{
    let parts = split_dot(raw);
    lemma_split_dot_nonempty(raw);
    let name = parts[0];
    assert(lookup(visible, name) == lookup(vis, name));
    let sp = lookup(vis, name).unwrap();
    if name == "item"@ {
        assert(sc.contains("item"@));
        lemma_lookup_in(vis, name);
        let i = choose|i: int| 0 <= i < vis.len() && vis[i] == sp && vis[i].name == name;
        assert(sp.fields == Seq::<(Seq<char>, Seq<char>)>::empty());
        if parts.drop_first().len() > 0 {
            assert(find_field(sp.fields, parts.drop_first()[0]) is None);
        }
    } else {
        if sc.contains(name) {
            let i = choose|i: int| 0 <= i < sc.len() && sc[i] == name;
            assert(sc[i] == "item"@);
        }
        let po = last_producer(all, name).unwrap();
        lemma_fields_agree(step_name, raw, source, id, name, sp.fields, parts.drop_first());
    }
}

proof fn lemma_checked_refs(
    step_name: Seq<char>,
    refs: Seq<Seq<char>>,
    visible: Seq<OutView>,
    source: Seq<char>,
    vis: Seq<OutView>,
    id: Seq<char>,
    sc: Seq<Seq<char>>,
    all: Seq<CirNode>,
)
    requires
        check_refs_s(step_name, refs, visible, source) is None,
        forall|n: Seq<char>| #[trigger] lookup(visible, n) == lookup(vis, n),
        sc_ok(sc, vis, all),
    ensures
        forall|r: Seq<char>| #[trigger] refs.contains(r) ==> rv_ok(id, r, None, sc, all),
    decreases refs.len(),
{
    if refs.len() > 0 {
        lemma_checked_ref(step_name, refs[0], visible, source, vis, id, sc, all);
        lemma_checked_refs(step_name, refs.drop_first(), visible, source, vis, id, sc, all);
        assert forall|r: Seq<char>| #[trigger] refs.contains(r) implies rv_ok(id, r, None, sc, all) by {
            let k = choose|k: int| 0 <= k < refs.len() && refs[k] == r;
            if k > 0 {
                assert(refs.drop_first()[k - 1] == r);
                assert(refs.drop_first().contains(r));
            }
        }
    }
}

/// The references of `${x}` are just `x`.
pub(crate) proof fn lemma_wrap_refs(x: Seq<char>)
    requires
        forall|c: int| 0 <= c < x.len() ==> x[c] != '}',
    ensures
        text_refs("${"@ + x + "}"@) == seq![x],
{
    reveal_strlit("${");
    reveal_strlit("}");
    let s = "${"@ + x + "}"@;
    let m: int = x.len() as int + 2;
    assert(s.len() == m + 1);
    assert(s[0] == '$' && s[1] == '{' && s[m] == '}');
    assert forall|j: int| 2 <= j < m implies s[j] != '}' by {
        assert(s[j] == x[j - 2]);
    }
    crate::refs::lemma_body_scan(s, 0, 2, m);
    assert(s.subrange(2, m) =~= x);
    assert(refs_from(s, m + 1) =~= Seq::<Seq<char>>::empty());
    assert(seq![x] + Seq::<Seq<char>>::empty() =~= seq![x]);
}

// ── Primitive nodes ────────────────────────────────────────────────────────

proof fn lemma_bind_ok(
    name: Seq<char>,
    bs: Seq<BindingRef>,
    ins: Seq<(Seq<char>, Seq<char>)>,
    tys: Seq<(Seq<char>, Seq<char>)>,
    declared: Seq<OutView>,
    outer: Seq<OutView>,
    item: Option<Seq<char>>,
    visible: Seq<OutView>,
    id: Seq<char>,
    sc: Seq<Seq<char>>,
    all: Seq<CirNode>,
)
    requires
        bind_fold(name, bs, ins, tys, declared, outer, item) is Ok,
        bindings_s(name, bs, visible) is None,
        forall|n: Seq<char>| #[trigger] lookup(visible, n) == lookup(outer + declared, n),
        sc_ok(sc, outer + declared, all),
        item is Some ==> lookup(outer + declared, "item"@) is Some,
        keys_unique(ins),
        keys_unique(tys),
        entries_ok(id, ins, tys, sc, all),
    ensures
        keys_unique(bind_fold(name, bs, ins, tys, declared, outer, item)->Ok_0.0),
        keys_unique(bind_fold(name, bs, ins, tys, declared, outer, item)->Ok_0.1),
        entries_ok(
            id,
            bind_fold(name, bs, ins, tys, declared, outer, item)->Ok_0.0,
            bind_fold(name, bs, ins, tys, declared, outer, item)->Ok_0.1,
            sc,
            all,
        ),
    decreases bs.len(),
{
    if bs.len() > 0 {
        reveal_strlit("item");
        let b = bs[0];
        let vis = outer + declared;
        let x = bound_name(b, item);
        let v = "${"@ + x + "}"@;
        lemma_lookup_concat(outer, declared, b.binding@);
        let o = resolve_b(b.binding@, declared, outer).unwrap();
        let t = bound_type(b, item, o);
        assert(check_ref_s(name, b.binding@, visible, b.source@) is None);
        assert(lookup(visible, b.binding@) == lookup(vis, b.binding@));
        let p0 = lookup(vis, b.binding@).unwrap();
        assert(p0.name == b.binding@);
        assert(o == p0);
        lemma_lookup_in(vis, b.binding@);
        let i0 = choose|i: int| 0 <= i < vis.len() && vis[i] == p0 && vis[i].name == b.binding@;
        assert(vis[i0].name == "item"@ || is_ident(vis[i0].name));
        if x == "item"@ {
            assert forall|c: int| 0 <= c < x.len() implies x[c] != '.' && x[c] != '}' by {}
        } else {
            assert(x == b.binding@);
            if b.binding@ == "item"@ {
            } else {
                lemma_ident_plain(b.binding@);
            }
        }
        assert(forall|c: int| 0 <= c < x.len() ==> x[c] != '.' && x[c] != '}');
        lemma_wrap_refs(x);
        crate::rule::lemma_split_dot_plain(x);
        assert(split_dot(x).drop_first() =~= Seq::<Seq<char>>::empty());
        if x == "item"@ {
            if item is Some && b.source@ == item.unwrap() {
                assert(lookup(vis, "item"@) is Some);
            } else {
                assert(b.binding@ == "item"@);
            }
            assert(sc.contains("item"@));
            assert(t == "Any"@);
            assert(rv_ok(id, x, Some(t), sc, all));
        } else {
            assert(x == b.binding@);
            if sc.contains(x) {
                let k = choose|k: int| 0 <= k < sc.len() && sc[k] == x;
                assert(sc[k] == "item"@);
            }
            assert(lookup(vis, x) is Some);
            assert(t == p0.ty);
            assert(rv_ok(id, x, Some(t), sc, all));
        }
        let ins2 = put(ins, b.param@, v);
        let tys2 = put(tys, b.param@, t);
        lemma_put(ins, b.param@, v);
        lemma_put(tys, b.param@, t);
        assert forall|j: int, r: Seq<char>|
            0 <= j < ins2.len() && #[trigger] text_refs(ins2[j].1).contains(r) implies rv_ok(
            id,
            r,
            tlook(tys2, ins2[j].0),
            sc,
            all,
        ) by {
            if ins2[j].0 == b.param@ {
                assert(ins2[j].1 == v);
                assert(seq![x].contains(r));
                assert(r == x);
                assert(tlook(tys2, b.param@) == Some(t));
            } else {
                assert(ins2[j] == ins[j]);
                assert(tlook(tys2, ins2[j].0) == tlook(tys, ins2[j].0));
            }
        }
        lemma_bind_ok(name, bs.drop_first(), ins2, tys2, declared, outer, item, visible, id, sc, all);
    }
}

proof fn lemma_base_ok(
    step: PlanStep,
    visible: Seq<OutView>,
    vis: Seq<OutView>,
    id: Seq<char>,
    sc: Seq<Seq<char>>,
    all: Seq<CirNode>,
)
    requires
        check_refs_s(step.name@, text_refs(opt_text(step.code)), visible, step.name@) is None,
        check_refs_s(step.name@, text_refs(opt_text(step.write_path)), visible, step.name@) is None,
        forall|n: Seq<char>| #[trigger] lookup(visible, n) == lookup(vis, n),
        sc_ok(sc, vis, all),
    ensures
        keys_unique(base_inputs(step)),
        entries_ok(id, base_inputs(step), Seq::<(Seq<char>, Seq<char>)>::empty(), sc, all),
{
    let none: Seq<(Seq<char>, Seq<char>)> = Seq::empty();
    let c = opt_text(step.code);
    let w = opt_text(step.write_path);
    lemma_checked_refs(step.name@, text_refs(c), visible, step.name@, vis, id, sc, all);
    lemma_checked_refs(step.name@, text_refs(w), visible, step.name@, vis, id, sc, all);
    assert(forall|k: Seq<char>| #[trigger] tlook(none, k) is None);
    let a: Seq<(Seq<char>, Seq<char>)> = match step.code {
        Some(cc) => put(none, "code"@, cc@),
        None => none,
    };
    lemma_put(none, "code"@, c);
    assert(keys_unique(a));
    assert forall|j: int| 0 <= j < a.len() implies (#[trigger] a[j]).1 == c by {}
    let wp = match step.write_path {
        Some(pp) => pp@,
        None => seq![],
    };
    assert(wp == w);
    lemma_put(a, "path"@, wp);
    let base = base_inputs(step);
    assert forall|j: int| 0 <= j < base.len() implies (#[trigger] base[j]).1 == c || base[j].1 == w by {
        if opt_view(step.capability) == Some("write_file"@) {
            if base[j].0 != "path"@ {
                assert(base[j] == a[j]);
            }
        }
    }
    assert forall|j: int, r: Seq<char>|
        0 <= j < base.len() && #[trigger] text_refs(base[j].1).contains(r) implies rv_ok(
        id,
        r,
        tlook(none, base[j].0),
        sc,
        all,
    ) by {
        assert(base[j].1 == c || base[j].1 == w);
    }
}

/// A primitive node of a valid step passes its reference checks.
proof fn lemma_prim_refs(
    step: PlanStep,
    declared: Seq<OutView>,
    outer: Seq<OutView>,
    item: Option<Seq<char>>,
    visible: Seq<OutView>,
    n: CirNode,
    sc: Seq<Seq<char>>,
    all: Seq<CirNode>,
)
    requires
        prim_node_ok(step, declared, outer, item, n),
        primitive_s(step, visible) is None,
        bindings_s(step.name@, step.input_bindings@, visible) is None,
        forall|x: Seq<char>| #[trigger] lookup(visible, x) == lookup(outer + declared, x),
        sc_ok(sc, outer + declared, all),
        item is Some ==> lookup(outer + declared, "item"@) is Some,
    ensures
        node_refs_s(n, sc, all) is None,
{
    let id = step.name@;
    assert(check_refs_s(id, text_refs(opt_text(step.code)), visible, id) is None);
    assert(check_refs_s(id, text_refs(opt_text(step.write_path)), visible, id) is None);
    lemma_base_ok(step, visible, outer + declared, id, sc, all);
    let none: Seq<(Seq<char>, Seq<char>)> = Seq::empty();
    assert(keys_unique(none));
    lemma_bind_ok(
        id,
        step.input_bindings@,
        base_inputs(step),
        none,
        declared,
        outer,
        item,
        visible,
        id,
        sc,
        all,
    );
    assert(n.node_id@ == id);
    lemma_node_refs_pass(n, sc, all);
}

// ── The contract walk over lowered steps ───────────────────────────────────

/// Each node of a segment is the node its id resolves to.
pub open spec fn ids_in(seg: Seq<CirNode>, all: Seq<CirNode>, off: int) -> bool {
    forall|k: int| 0 <= k < seg.len() ==> last_node(all, #[trigger] seg[k].node_id@) == off + k
}

proof fn lemma_sub_placed(seg: Seq<CirNode>, all: Seq<CirNode>, off: int, a: int, b: int)
    requires
        placed(seg, all, off),
        ids_in(seg, all, off),
        0 <= a <= b <= seg.len(),
    ensures
        placed(seg.subrange(a, b), all, off + a),
        ids_in(seg.subrange(a, b), all, off + a),
{
    let t = seg.subrange(a, b);
    assert forall|k: int| 0 <= k < t.len() implies all[off + a + k] == #[trigger] t[k] by {
        assert(t[k] == seg[a + k]);
    }
    assert forall|k: int| 0 <= k < t.len() implies last_node(all, #[trigger] t[k].node_id@) == off + a
        + k by {
        assert(t[k] == seg[a + k]);
    }
}

/// The last node a step lowers to is its own.
proof fn lemma_step_own(
    step: PlanStep,
    sib: Seq<OutView>,
    outer: Seq<OutView>,
    item: Option<Seq<char>>,
    seg: Seq<CirNode>,
)
    requires
        lowered_step(step, sib, outer, item, seg),
        step_shape_ok(step),
    ensures
        seg.last().node_id@ == step.name@,
        out_matches(seg.last().output, step.output),
{
    if step.kind == StepKind::Primitive || step.kind == StepKind::Retry {
        assert(seg.last() == seg[0]);
    }
}

/// Each step of a lowered list has its own node, with its output.
proof fn lemma_own_nodes(
    steps: Seq<PlanStep>,
    sib: Seq<OutView>,
    outer: Seq<OutView>,
    item: Option<Seq<char>>,
    seg: Seq<CirNode>,
)
    requires
        lowered_list(steps, sib, outer, item, seg),
        shapes_ok(steps),
    ensures
        forall|i: int|
            0 <= i < steps.len() ==> exists|k: int|
                0 <= k < seg.len() && seg[k].node_id@ == (#[trigger] steps[i]).name@ && out_matches(
                    seg[k].output,
                    steps[i].output,
                ),
    decreases steps.len(),
{
    if steps.len() > 0 {
        let m = step_ids(steps[0]).len() as int;
        let a = seg.take(m);
        let b = seg.skip(m);
        lemma_step_own(steps[0], sib, outer, item, a);
        assert(seg[m - 1] == a.last());
        lemma_own_nodes(steps.drop_first(), sib_after(steps[0], sib), outer, item, b);
        assert forall|i: int| 0 <= i < steps.len() implies exists|k: int|
            0 <= k < seg.len() && seg[k].node_id@ == (#[trigger] steps[i]).name@ && out_matches(
                seg[k].output,
                steps[i].output,
            ) by {
            if i > 0 {
                assert(steps[i] == steps.drop_first()[i - 1]);
                let k = choose|k: int|
                    0 <= k < b.len() && b[k].node_id@ == steps.drop_first()[i - 1].name@ && out_matches(
                        b[k].output,
                        steps.drop_first()[i - 1].output,
                    );
                assert(seg[m + k] == b[k]);
            }
        }
    }
}

/// The last child that produces a value has the type of the last step output.
proof fn lemma_last_child(steps: Seq<PlanStep>, seg: Seq<CirNode>, all: Seq<CirNode>, off: int)
    requires
        placed(seg, all, off),
        ids_in(seg, all, off),
        forall|i: int|
            0 <= i < steps.len() ==> exists|k: int|
                0 <= k < seg.len() && seg[k].node_id@ == (#[trigger] steps[i]).name@ && out_matches(
                    seg[k].output,
                    steps[i].output,
                ),
    ensures
        last_child_type(all, top_ids(steps)) == match last_output(steps) {
            Some(o) => Some(o.type_label@),
            None => None::<Seq<char>>,
        },
    decreases steps.len(),
{
    if steps.len() > 0 {
        let ids = top_ids(steps);
        let l = steps.len() - 1;
        assert(ids.last() == steps[l].name@);
        let k = choose|k: int|
            0 <= k < seg.len() && seg[k].node_id@ == steps[l].name@ && out_matches(seg[k].output, steps[l].output);
        assert(last_node(all, seg[k].node_id@) == off + k);
        assert(all[off + k] == seg[k]);
        assert(steps.last() == steps[l]);
        assert(ids.drop_last() =~= top_ids(steps.drop_last()));
        let d = steps.drop_last();
        assert forall|i: int| 0 <= i < d.len() implies exists|k: int|
            0 <= k < seg.len() && seg[k].node_id@ == (#[trigger] d[i]).name@ && out_matches(
                seg[k].output,
                d[i].output,
            ) by {
            assert(d[i] == steps[i]);
        }
        lemma_last_child(d, seg, all, off);
    }
}

proof fn lemma_sc_push(sc: Seq<Seq<char>>, vis: Seq<OutView>, all: Seq<CirNode>, o: OutView)
    requires
        sc_ok(sc, vis, all),
        o.name != "item"@,
        is_ident(o.name),
        last_producer(all, o.name) matches Some(po) && po.type_label@ == o.ty && fields_view(
            po.fields@,
        ) == o.fields,
    ensures
        sc_ok(sc, vis.push(o), all),
{
    let v2 = vis.push(o);
    assert(v2.drop_last() =~= vis);
    assert(v2.last() == o);
    assert(lookup(v2, "item"@) == lookup(vis, "item"@));
    assert forall|i: int| 0 <= i < v2.len() && (#[trigger] v2[i]).name == "item"@ implies v2[i].fields
        == Seq::<(Seq<char>, Seq<char>)>::empty() by {
        if i < vis.len() {
            assert(v2[i] == vis[i]);
        }
    }
    assert forall|i: int| 0 <= i < v2.len() implies (#[trigger] v2[i]).name == "item"@ || is_ident(
        v2[i].name,
    ) by {
        if i < vis.len() {
            assert(v2[i] == vis[i]);
        }
    }
    assert forall|x: Seq<char>| x != "item"@ && (#[trigger] lookup(v2, x)) is Some implies (last_producer(
        all,
        x,
    ) matches Some(po) && po.type_label@ == lookup(v2, x).unwrap().ty && fields_view(po.fields@)
        == lookup(v2, x).unwrap().fields) by {
        if x != o.name {
            assert(lookup(v2, x) == lookup(vis, x));
        }
    }
}

proof fn lemma_sc_item(sc: Seq<Seq<char>>, vis: Seq<OutView>, all: Seq<CirNode>, ty: Seq<char>)
    requires
        sc_ok(sc, vis, all),
    ensures
        sc_ok(sc.push("item"@), vis.push(item_view(ty)), all),
{
    let v2 = vis.push(item_view(ty));
    let s2 = sc.push("item"@);
    assert(v2.drop_last() =~= vis);
    assert(v2.last() == item_view(ty));
    assert(s2[sc.len() as int] == "item"@);
    assert(s2.contains("item"@));
    assert forall|i: int| 0 <= i < s2.len() implies #[trigger] s2[i] == "item"@ by {
        if i < sc.len() {
            assert(s2[i] == sc[i]);
        }
    }
    assert forall|i: int| 0 <= i < v2.len() && (#[trigger] v2[i]).name == "item"@ implies v2[i].fields
        == Seq::<(Seq<char>, Seq<char>)>::empty() by {
        if i < vis.len() {
            assert(v2[i] == vis[i]);
        }
    }
    assert forall|i: int| 0 <= i < v2.len() implies (#[trigger] v2[i]).name == "item"@ || is_ident(
        v2[i].name,
    ) by {
        if i < vis.len() {
            assert(v2[i] == vis[i]);
        }
    }
    assert forall|x: Seq<char>| x != "item"@ && (#[trigger] lookup(v2, x)) is Some implies (last_producer(
        all,
        x,
    ) matches Some(po) && po.type_label@ == lookup(v2, x).unwrap().ty && fields_view(po.fields@)
        == lookup(v2, x).unwrap().fields) by {
        assert(lookup(v2, x) == lookup(vis, x));
    }
}

/// The node a valid step lowers to passes the contract walk, and the scope
/// after it still agrees with the walk.
proof fn lemma_step_walk(
    step: PlanStep,
    seen: Seq<Seq<char>>,
    declared: Seq<OutView>,
    scope: Option<Seq<OutView>>,
    outer: Seq<OutView>,
    item: Option<Seq<char>>,
    prior: Seq<Seq<char>>,
    seg: Seq<CirNode>,
    all: Seq<CirNode>,
    off: int,
    sc: Seq<Seq<char>>,
    f: nat,
)
    requires
        v_step(step, seen, declared, scope) is Ok,
        same_scope(outer, declared, visible_of(declared, scope)),
        step_uses_inputs(step) ==> prior.contains("task_inputs"@),
        lowered_step(step, declared, outer, item, seg),
        step_shape_ok(step),
        placed(seg, all, off),
        ids_in(seg, all, off),
        outs_unique(all),
        sc_ok(sc, outer + declared, all),
        item is Some ==> lookup(outer + declared, "item"@) is Some,
        f >= seg.len(),
    ensures
        walk_s(all, seg.last(), sc, f) == WalkS::Pass,
        sc_ok(sc, outer + sib_after(step, declared), all),
    decreases step, 1int,
{
    lemma_step_lowers(step, seen, declared, scope, outer, item, prior);
    lemma_step_own(step, declared, outer, item, seg);
    let name = step.name@;
    let visible = visible_of(declared, scope);
    let vis = outer + declared;
    let last = seg.len() - 1;
    let node = seg.last();
    assert(all[off + last] == node);
    assert forall|x: Seq<char>| #[trigger] lookup(visible, x) == lookup(vis, x) by {}
    match step.kind {
        StepKind::Primitive | StepKind::Retry => {
            assert(node == seg[0]);
            assert(primitive_s(step, visible) is None);
            assert(bindings_s(name, step.input_bindings@, visible) is None);
            lemma_prim_refs(step, declared, outer, item, visible, node, sc, all);
            assert(walk_s(all, node, sc, f) == WalkS::Pass);
        },
        StepKind::Foreach => {
            let over = step.over.unwrap();
            lemma_lookup_concat(outer, declared, over@);
            let ty = list_source_s(over@, visible, name)->Ok_0;
            let body_scope = visible.push(item_view(ty));
            let bo = body_outer(outer, declared, ty);
            assert(bo == vis.push(item_view(ty)));
            assert forall|n: Seq<char>| #[trigger]
                lookup(visible_of(seq![], Some(body_scope)), n) == lookup(bo + seq![], n) by {
                assert(bo + seq![] =~= bo);
                assert(seq![] + body_scope =~= body_scope);
                assert(bo.drop_last() =~= vis);
                assert(body_scope.drop_last() =~= visible);
                assert(lookup(visible, n) == lookup(vis, n));
            }
            assert(bo + seq![] =~= bo);
            lemma_sc_item(sc, vis, all, ty);
            let s2 = sc.push("item"@);
            assert(bo.last() == item_view(ty));
            assert(lookup(bo, "item"@) is Some);
            let body = seg.drop_last();
            lemma_sub_placed(seg, all, off, 0, last);
            assert(seg.subrange(0, last) =~= body);
            lemma_steps_walk(
                step.body@,
                seen.push(name),
                seq![],
                Some(body_scope),
                bo,
                Some(name),
                prior,
                body,
                all,
                off,
                s2,
                (f - 1) as nat,
                name,
            );
            assert(node_refs_s(node, sc, all) is None);
            assert(item_var_of(node) == Some("item"@));
            assert forall|k: int| 0 <= k < all.len() implies #[trigger] out_name(all[k]) != Some("item"@) by {}
            lemma_last_producer_none(all, "item"@);
            lemma_own_nodes(step.body@, seq![], bo, Some(name), body);
            lemma_last_child(step.body@, body, all, off);
            assert(aggregate_s(node, all) is None);
            assert(walk_s(all, node, sc, f) == WalkS::Pass);
        },
        StepKind::Conditional => {
            assert(v_steps(step.body@, seen.push(name), seq![], Some(visible)) is Ok);
            assert forall|n: Seq<char>| #[trigger]
                lookup(visible_of(seq![], Some(visible)), n) == lookup(vis + seq![], n) by {
                assert(vis + seq![] =~= vis);
                assert(seq![] + visible =~= visible);
            }
            assert(vis + seq![] =~= vis);
            let body = seg.drop_last();
            lemma_sub_placed(seg, all, off, 0, last);
            assert(seg.subrange(0, last) =~= body);
            lemma_steps_walk(
                step.body@,
                seen.push(name),
                seq![],
                Some(visible),
                vis,
                None,
                prior,
                body,
                all,
                off,
                sc,
                (f - 1) as nat,
                name,
            );
            assert(node_refs_s(node, sc, all) is None);
            assert(views(node.else_children@).len() == 0);
            assert(walk_list(all, name, views(node.else_children@), sc, (f - 1) as nat) == WalkS::Pass);
            assert(walk_s(all, node, sc, f) == WalkS::Pass);
        },
    }
    if step.kind != StepKind::Conditional && step.output is Some {
        let o = out_view(step.output.unwrap());
        assert(all[off + last].output is Some);
        lemma_last_producer_unique(all, off + last);
        assert(outer + declared.push(o) =~= vis.push(o));
        lemma_sc_push(sc, vis, all, o);
    }
}

proof fn lemma_steps_walk(
    steps: Seq<PlanStep>,
    seen: Seq<Seq<char>>,
    declared: Seq<OutView>,
    scope: Option<Seq<OutView>>,
    outer: Seq<OutView>,
    item: Option<Seq<char>>,
    prior: Seq<Seq<char>>,
    seg: Seq<CirNode>,
    all: Seq<CirNode>,
    off: int,
    sc: Seq<Seq<char>>,
    f: nat,
    pid: Seq<char>,
)
    requires
        v_steps(steps, seen, declared, scope) is Ok,
        same_scope(outer, declared, visible_of(declared, scope)),
        uses_inputs(steps) ==> prior.contains("task_inputs"@),
        lowered_list(steps, declared, outer, item, seg),
        shapes_ok(steps),
        placed(seg, all, off),
        ids_in(seg, all, off),
        outs_unique(all),
        sc_ok(sc, outer + declared, all),
        item is Some ==> lookup(outer + declared, "item"@) is Some,
        f >= seg.len(),
    ensures
        walk_list(all, pid, top_ids(steps), sc, f) == WalkS::Pass,
    decreases steps, 0int,
{
    if steps.len() == 0 {
        assert(top_ids(steps).len() == 0);
    } else {
        let m = step_ids(steps[0]).len() as int;
        let a = seg.take(m);
        let b = seg.skip(m);
        lemma_sub_placed(seg, all, off, 0, m);
        lemma_sub_placed(seg, all, off, m, seg.len() as int);
        assert(seg.subrange(0, m) =~= a);
        assert(seg.subrange(m, seg.len() as int) =~= b);
        lemma_step_walk(steps[0], seen, declared, scope, outer, item, prior, a, all, off, sc, f);
        lemma_step_lowers(steps[0], seen, declared, scope, outer, item, prior);
        lemma_step_own(steps[0], declared, outer, item, a);
        let (s2, d2) = v_step(steps[0], seen, declared, scope)->Ok_0;
        if uses_inputs(steps.drop_first()) {
            crate::lower::lemma_contains_grows(prior, step_ids(steps[0]), "task_inputs"@);
        }
        let ids = top_ids(steps);
        assert(ids[0] == steps[0].name@);
        assert(a[m - 1] == a.last());
        assert(last_node(all, ids[0]) == off + m - 1);
        assert(all[off + m - 1] == a.last());
        assert(ids.drop_first() =~= top_ids(steps.drop_first()));
        if item is Some {
            assert(sc.contains("item"@));
        }
        lemma_steps_walk(
            steps.drop_first(),
            s2,
            d2,
            scope,
            outer,
            item,
            prior + step_ids(steps[0]),
            b,
            all,
            off + m,
            sc,
            f,
            pid,
        );
    }
}

// ── The input injector ─────────────────────────────────────────────────────

pub open spec fn no_dollar(s: Seq<char>) -> bool {
    forall|c: int| 0 <= c < s.len() ==> s[c] != '$'
}

/// No task input path holds a `$`.
pub open spec fn plain_paths(task: TaskSpec) -> bool {
    forall|i: int| 0 <= i < task_paths(task).len() ==> no_dollar(#[trigger] task_paths(task)[i])
}

proof fn lemma_no_dollar_concat(a: Seq<char>, b: Seq<char>)
    requires
        no_dollar(a),
        no_dollar(b),
    ensures
        no_dollar(a + b),
{
    assert forall|c: int| 0 <= c < (a + b).len() implies (a + b)[c] != '$' by {
        if c < a.len() {
            assert((a + b)[c] == a[c]);
        } else {
            assert((a + b)[c] == b[c - a.len()]);
        }
    }
}

proof fn lemma_escape_char_no_dollar(ch: char)
    requires
        ch != '$',
    ensures
        no_dollar(json_escape_char(ch)),
{
    if (ch as u32) < 0x20 && ch != '\u{8}' && ch != '\u{c}' && ch != '\n' && ch != '\r' && ch != '\t' {
        let hi = (ch as u32) as int / 16;
        let lo = (ch as u32) as int % 16;
        assert(0 <= hi < 16 && 0 <= lo < 16);
        assert(hex_digit_lower(hi) != '$');
        assert(hex_digit_lower(lo) != '$');
    }
}

proof fn lemma_escape_no_dollar(s: Seq<char>)
    requires
        no_dollar(s),
    ensures
        no_dollar(json_escape(s)),
    decreases s.len(),
{
    if s.len() > 0 {
        assert(s.last() == s[s.len() - 1]);
        assert forall|c: int| 0 <= c < s.drop_last().len() implies s.drop_last()[c] != '$' by {
            assert(s.drop_last()[c] == s[c]);
        }
        lemma_escape_no_dollar(s.drop_last());
        lemma_escape_char_no_dollar(s.last());
        lemma_no_dollar_concat(json_escape(s.drop_last()), json_escape_char(s.last()));
    }
}

proof fn lemma_items_no_dollar(items: Seq<Seq<char>>)
    requires
        forall|i: int| 0 <= i < items.len() ==> no_dollar(#[trigger] items[i]),
    ensures
        no_dollar(json_items(items)),
    decreases items.len(),
{
    if items.len() > 0 {
        let l = items[items.len() - 1];
        assert(items.last() == l);
        lemma_escape_no_dollar(l);
        lemma_no_dollar_concat(seq!['"'], json_escape(l));
        lemma_no_dollar_concat(seq!['"'] + json_escape(l), seq!['"']);
        if items.len() > 1 {
            let d = items.drop_last();
            assert forall|i: int| 0 <= i < d.len() implies no_dollar(#[trigger] d[i]) by {
                assert(d[i] == items[i]);
            }
            lemma_items_no_dollar(d);
            lemma_no_dollar_concat(json_items(d), seq![',']);
            lemma_no_dollar_concat(json_items(d) + seq![','], json_quoted(l));
        } else {
            assert(items[0] == l);
        }
    }
}

/// The code of the input injector holds no reference when no path holds `$`.
proof fn lemma_injector_code(paths: Seq<Seq<char>>)
    requires
        forall|i: int| 0 <= i < paths.len() ==> no_dollar(#[trigger] paths[i]),
    ensures
        text_refs("import json\nprint(json.dumps("@ + json_string_array(paths) + "))\n"@)
            == Seq::<Seq<char>>::empty(),
{
    reveal_strlit("import json\nprint(json.dumps(");
    reveal_strlit("))\n");
    let a = "import json\nprint(json.dumps("@;
    let b = "))\n"@;
    lemma_items_no_dollar(paths);
    lemma_no_dollar_concat(seq!['['], json_items(paths));
    lemma_no_dollar_concat(seq!['['] + json_items(paths), seq![']']);
    assert(no_dollar(a));
    assert(no_dollar(b));
    lemma_no_dollar_concat(a, json_string_array(paths));
    lemma_no_dollar_concat(a + json_string_array(paths), b);
    crate::refs::lemma_refs_none(a + json_string_array(paths) + b, 0);
}

// ── The whole program ──────────────────────────────────────────────────────

/// No id a valid step list emits is one the compiler reserves.
proof fn lemma_post_ids_names(steps: Seq<PlanStep>)
    requires
        shapes_ok(steps),
    ensures
        forall|i: int|
            0 <= i < post_ids(steps).len() ==> #[trigger] post_ids(steps)[i] != "plan_root"@
                && post_ids(steps)[i] != "task_inputs"@,
    decreases steps, 0int,
{
    if steps.len() > 0 {
        let s = steps[0];
        assert(step_shape_ok(s) && shapes_ok(steps.drop_first()));
        lemma_post_ids_names(steps.drop_first());
        let a = step_ids(s);
        let b = post_ids(steps.drop_first());
        if s.kind == StepKind::Foreach || s.kind == StepKind::Conditional {
            assert(shapes_ok(s.body@));
            lemma_post_ids_names(s.body@);
        }
        assert forall|i: int| 0 <= i < a.len() implies #[trigger] a[i] != "plan_root"@ && a[i]
            != "task_inputs"@ by {
            if s.kind == StepKind::Foreach || s.kind == StepKind::Conditional {
                if i < post_ids(s.body@).len() {
                    assert(a[i] == post_ids(s.body@)[i]);
                }
            }
        }
        assert forall|i: int| 0 <= i < (a + b).len() implies #[trigger] (a + b)[i] != "plan_root"@ && (a
            + b)[i] != "task_inputs"@ by {
            if i < a.len() {
                assert((a + b)[i] == a[i]);
            } else {
                assert((a + b)[i] == b[i - a.len()]);
            }
        }
    }
}

/// The program a valid plan lowers to passes the data contract walk, when no
/// task input path holds a `$` (or no foreach reads the task inputs).
pub proof fn lemma_valid_plan_contract(
    plan: PlanIR,
    task: TaskSpec,
    task_id: TaskId,
    program_id: ProgramId,
    p: CirProgram,
)
    requires
        plan_valid(plan),
        plan_program(plan, task, task_id, program_id, p),
        uses_inputs(plan.steps@) ==> plain_paths(task),
    ensures
        contract_s(p) == WalkS::Pass,
{
    reveal_strlit("plan_root");
    reveal_strlit("task_inputs");
    reveal_strlit("input_files");
    reveal_strlit("item");
    reveal_strlit("List<String>");
    let pre = plan_prefix(plan).len() as int;
    let all = p.nodes@;
    let n = all.len() as int;
    let seg = all.subrange(pre, n - 1);
    let steps = plan.steps@;
    let root = all[n - 1];
    assert(v_steps(steps, seq![], seq![], None) is Ok);
    lemma_valid_steps_shape(steps, seq![], seq![], None);
    lemma_list_sound(steps, seq![], seq![], None, seg);
    lemma_steps_ids_fresh(steps, seq![], seq![], None);
    lemma_post_ids_names(steps);
    lemma_list_outs(steps, seq![], seq![], None, seg);
    assert(bad_out(post_outs(steps), 0) is None);
    lemma_outs_distinct(post_outs(steps));
    if pre == 1 {
        assert(plan_prefix(plan) == seq!["task_inputs"@]);
        assert(injector_ok(all[0], task));
    }
    assert(root.node_id@ == "plan_root"@);
    // Placement and id resolution of the lowered steps.
    assert(placed(seg, all, pre));
    assert forall|k: int| 0 <= k < seg.len() implies last_node(all, #[trigger] seg[k].node_id@) == pre + k by {
        assert(node_ids(seg)[k] == seg[k].node_id@);
        assert(all[pre + k] == seg[k]);
        assert forall|m: int| pre + k < m < n implies (#[trigger] all[m]).node_id@ != seg[k].node_id@ by {
            if m < n - 1 {
                assert(all[m] == seg[m - pre]);
                assert(node_ids(seg)[m - pre] == seg[m - pre].node_id@);
            }
        }
        crate::lower::lemma_last_node_at(all, pre + k, seg[k].node_id@);
    }
    // Unique outputs.
    assert forall|k: int| 0 <= k < n implies #[trigger] out_name(all[k]) == if k < pre {
        Some("input_files"@)
    } else if k < n - 1 {
        post_outs(steps)[k - pre]
    } else {
        None::<Seq<char>>
    } by {
        if pre <= k < n - 1 {
            assert(all[k] == seg[k - pre]);
            assert(node_outs(seg)[k - pre] == out_name(seg[k - pre]));
        }
    }
    assert(outs_unique(all)) by {
        assert forall|k: int| 0 <= k < n implies #[trigger] out_name(all[k]) != Some("item"@) by {
            if pre <= k < n - 1 {
                assert(all[k] == seg[k - pre]);
                assert(out_ok(seg[k - pre]));
            }
        }
        assert forall|k1: int, k2: int|
            0 <= k1 < k2 < n && out_name(all[k1]) is Some implies #[trigger] out_name(all[k1])
            != #[trigger] out_name(all[k2]) by {
            if k1 < pre && k2 < n - 1 {
                assert(post_outs(steps)[k2 - pre] != Some("input_files"@));
            }
        }
    }
    // The steps under the root.
    let none: Seq<OutView> = Seq::empty();
    let sc0: Seq<Seq<char>> = Seq::empty();
    assert(none + none =~= none);
    assert(sc_ok(sc0, none + none, all));
    assert forall|x: Seq<char>| #[trigger] lookup(visible_of(none, None), x) == lookup(none + none, x) by {}
    if uses_inputs(steps) {
        assert(plan_prefix(plan)[0] == "task_inputs"@);
    }
    let f = (n - 1) as nat;
    lemma_steps_walk(steps, seq![], none, None, none, None, plan_prefix(plan), seg, all, pre, sc0, f, "plan_root"@);
    let rc = views(root.children@);
    assert(rc == plan_prefix(plan) + top_ids(steps));
    if pre == 1 {
        let inj = all[0];
        assert(task_paths(task) == task_paths(task));
        assert(uses_inputs(steps));
        lemma_injector_code(task_paths(task));
        let sv = str_view(inj.inputs@);
        assert(sv.len() == 1);
        assert(text_refs(sv[0].1) == Seq::<Seq<char>>::empty());
        assert(entries_ok(inj.node_id@, sv, pairs_view(inj.input_types@), sc0, all));
        lemma_node_refs_pass(inj, sc0, all);
        assert(steps.len() > 0);
        assert(post_ids(steps).len() >= 1) by {
            assert(step_ids(steps[0]).len() >= 1);
        }
        assert(walk_s(all, inj, sc0, f) == WalkS::Pass);
        assert forall|m: int| 0 < m < n implies (#[trigger] all[m]).node_id@ != "task_inputs"@ by {
            if m < n - 1 {
                assert(all[m] == seg[m - pre]);
                assert(node_ids(seg)[m - pre] == seg[m - pre].node_id@);
                assert(post_ids(steps)[m - pre] != "task_inputs"@);
            } else {
                assert("plan_root"@.len() == 9 && "task_inputs"@.len() == 11);
            }
        }
        crate::lower::lemma_last_node_at(all, 0, "task_inputs"@);
        assert(rc[0] == "task_inputs"@);
        assert(rc.drop_first() =~= top_ids(steps));
    } else {
        assert(rc =~= top_ids(steps));
    }
    assert(walk_list(all, "plan_root"@, rc, sc0, f) == WalkS::Pass);
    assert(views(root.else_children@).len() == 0);
    assert(walk_list(all, "plan_root"@, views(root.else_children@), sc0, f) == WalkS::Pass);
    assert(root.inputs@.len() == 0);
    assert(node_refs_s(root, sc0, all) is None);
    assert(walk_s(all, root, sc0, n as nat) == WalkS::Pass);
    // The entry and the outputs.
    crate::lower::lemma_last_node_at(all, n - 1, "plan_root"@);
    let es = views(p.entry@);
    assert(es[0] == "plan_root"@);
    assert(es.drop_first().len() == 0);
    assert(entries_s(all, es.drop_first(), all.len()) == WalkS::Pass);
    assert(entries_s(all, es, all.len()) == WalkS::Pass);
    assert forall|m: int| 0 <= m < n && (#[trigger] all[m]).output is Some implies !all_ws(
        all[m].output.unwrap().name@,
    ) && !all_ws(all[m].output.unwrap().type_label@) by {
        if m < pre {
            assert(!is_ws('i') && !is_ws('L'));
            assert("input_files"@[0] == 'i' && "List<String>"@[0] == 'L');
        } else if m < n - 1 {
            assert(all[m] == seg[m - pre]);
            assert(out_ok(seg[m - pre]));
        }
    }
    crate::rule::lemma_outputs_complete(all);
}

} // verus!
