use vstd::prelude::*;

use crate::json::JsonValue;
use crate::text::{chars_of, slice_chars, string_from_chars};

verus! {

/// The views of a sequence of strings.
pub open spec fn views(v: Seq<String>) -> Seq<Seq<char>> {
    v.map_values(|s: String| s@)
}

/// The `${...}` references of `s`, scanning left to right from position `i`:
/// each reference runs from a `${` to the next `}`.
pub open spec fn refs_from(s: Seq<char>, i: int) -> Seq<Seq<char>>
    decreases s.len() - i, 1int,
{
    if i < 0 || i + 1 >= s.len() {
        seq![]
    } else if s[i] == '$' && s[i + 1] == '{' {
        ref_body(s, i, i + 2)
    } else {
        refs_from(s, i + 1)
    }
}

/// The reference opened by the `${` at `i`, scanning for its `}` from `k`.
/// Without a closing `}`, no further reference can close either.
pub open spec fn ref_body(s: Seq<char>, i: int, k: int) -> Seq<Seq<char>>
    decreases s.len() - k, 0int,
{
    if k < i + 2 || k >= s.len() {
        seq![]
    } else if s[k] == '}' {
        seq![s.subrange(i + 2, k)] + refs_from(s, k + 1)
    } else {
        ref_body(s, i, k + 1)
    }
}

/// The text with each `${name}` written as the bare `name`, scanning from
/// position `i` outside a reference.
pub open spec fn unref_from(s: Seq<char>, i: int) -> Seq<char>
    decreases s.len() - i, 1int,
{
    if i < 0 || i >= s.len() {
        seq![]
    } else if i + 1 < s.len() && s[i] == '$' && s[i + 1] == '{' {
        unref_body(s, i + 2)
    } else {
        seq![s[i]] + unref_from(s, i + 1)
    }
}

/// The rest of a reference body from `k`: its characters up to the closing
/// `}`, then the text after it.
pub open spec fn unref_body(s: Seq<char>, k: int) -> Seq<char>
    decreases s.len() - k, 0int,
{
    if k < 0 || k >= s.len() {
        seq![]
    } else if s[k] == '}' {
        unref_from(s, k + 1)
    } else {
        seq![s[k]] + unref_body(s, k + 1)
    }
}

/// Writes each `${name}` of `s` as the bare `name`.
pub fn unref_text(s: &str) -> (r: String)
    ensures
        r@ == unref_from(s@, 0),
{
    let cs = chars_of(s);
    let mut out: Vec<char> = Vec::new();
    let mut i: usize = 0;
    let mut in_body = false;
    assert(out@ + unref_from(s@, 0) =~= unref_from(s@, 0));
    while i < cs.len()
        invariant
            cs@ == s@,
            i <= cs@.len(),
            !in_body ==> out@ + unref_from(s@, i as int) == unref_from(s@, 0),
            in_body ==> out@ + unref_body(s@, i as int) == unref_from(s@, 0),
        decreases cs@.len() - i,
    {
        let c = cs[i];
        if in_body {
            if c == '}' {
                in_body = false;
            } else {
                out.push(c);
                assert(out@ + unref_body(s@, i + 1) =~= out@.drop_last() + (seq![c] + unref_body(
                    s@,
                    i + 1,
                )));
            }
            i = i + 1;
        } else if i + 1 < cs.len() && c == '$' && cs[i + 1] == '{' {
            in_body = true;
            i = i + 2;
        } else {
            out.push(c);
            assert(out@ + unref_from(s@, i + 1) =~= out@.drop_last() + (seq![c] + unref_from(
                s@,
                i + 1,
            )));
            i = i + 1;
        }
    }
    assert(out@ + Seq::<char>::empty() =~= out@);
    string_from_chars(out.as_slice())
}

/// Every `${...}` reference in the text, in order.
pub open spec fn text_refs(s: Seq<char>) -> Seq<Seq<char>> {
    refs_from(s, 0)
}

/// Every `${` opened in `x` at or after `i` is closed by a `}` inside `x`,
/// and `x` does not end in `$`.
pub open spec fn closed_from(x: Seq<char>, i: int) -> bool {
    forall|j: int|
        i <= j < x.len() && #[trigger] x[j] == '$' ==> j + 1 < x.len() && (x[j + 1] == '{'
            ==> exists|m: int| j + 2 <= m < x.len() && x[m] == '}')
}

/// Scanning from the right of a prefix gives the references of the rest.
pub proof fn lemma_refs_shift(x: Seq<char>, y: Seq<char>, j: int)
    requires
        0 <= j,
    ensures
        refs_from(x + y, x.len() + j) == refs_from(y, j),
    decreases y.len() - j, 1int,
{
    let s = x + y;
    let i = x.len() + j;
    if !(j + 1 >= y.len()) {
        assert(s[i] == y[j] && s[i + 1] == y[j + 1]);
        if y[j] == '$' && y[j + 1] == '{' {
            lemma_body_shift(x, y, j, j + 2);
        } else {
            lemma_refs_shift(x, y, j + 1);
        }
    }
}

pub proof fn lemma_body_shift(x: Seq<char>, y: Seq<char>, j: int, k: int)
    requires
        0 <= j,
        j + 2 <= k,
    ensures
        ref_body(x + y, x.len() + j, x.len() + k) == ref_body(y, j, k),
    decreases y.len() - k, 0int,
{
    let s = x + y;
    if k < y.len() {
        assert(s[x.len() + k] == y[k]);
        if y[k] == '}' {
            assert(s.subrange(x.len() + j + 2, x.len() + k) =~= y.subrange(j + 2, k));
            lemma_refs_shift(x, y, k + 1);
        } else {
            lemma_body_shift(x, y, j, k + 1);
        }
    }
}

/// The references of a concatenation whose first part closes every reference
/// it opens are those of the parts.
pub proof fn lemma_refs_concat(x: Seq<char>, y: Seq<char>, i: int)
    requires
        0 <= i <= x.len(),
        closed_from(x, i),
    ensures
        refs_from(x + y, i) == refs_from(x, i) + refs_from(y, 0),
    decreases x.len() - i, 1int,
{
    let s = x + y;
    if i == x.len() {
        lemma_refs_shift(x, y, 0);
        assert(refs_from(x, i) =~= seq![]);
        assert(refs_from(x, i) + refs_from(y, 0) =~= refs_from(y, 0));
    } else {
        assert(s[i] == x[i]);
        if x[i] == '$' {
            assert(i + 1 < x.len());
            assert(s[i + 1] == x[i + 1]);
            if x[i + 1] == '{' {
                lemma_body_concat(x, y, i, i + 2);
            } else {
                lemma_refs_concat(x, y, i + 1);
            }
        } else {
            if i + 1 >= x.len() {
                assert(refs_from(x, i) =~= seq![]);
                lemma_refs_concat(x, y, i + 1);
                if i + 1 >= s.len() {
                    assert(y.len() == 0);
                    assert(refs_from(y, 0) =~= seq![]);
                }
            } else {
                lemma_refs_concat(x, y, i + 1);
            }
        }
    }
}

pub proof fn lemma_body_concat(x: Seq<char>, y: Seq<char>, i: int, k: int)
    requires
        0 <= i,
        i + 2 <= k,
        closed_from(x, i + 1),
        exists|m: int| k <= m < x.len() && x[m] == '}',
    ensures
        ref_body(x + y, i, k) == ref_body(x, i, k) + refs_from(y, 0),
    decreases x.len() - k, 0int,
{
    let s = x + y;
    let m = choose|m: int| k <= m < x.len() && x[m] == '}';
    assert(s[k] == x[k]);
    if x[k] == '}' {
        assert(s.subrange(i + 2, k) =~= x.subrange(i + 2, k));
        lemma_refs_concat(x, y, k + 1);
        assert(seq![x.subrange(i + 2, k)] + refs_from(x, k + 1) + refs_from(y, 0) =~= seq![
            x.subrange(i + 2, k),
        ] + (refs_from(x, k + 1) + refs_from(y, 0)));
    } else {
        assert(m > k);
        lemma_body_concat(x, y, i, k + 1);
    }
}

/// A text with no `$` from `i` on has no references there.
pub proof fn lemma_refs_none(s: Seq<char>, i: int)
    requires
        0 <= i,
        forall|j: int| i <= j < s.len() ==> s[j] != '$',
    ensures
        refs_from(s, i) == Seq::<Seq<char>>::empty(),
    decreases s.len() - i,
{
    if i + 1 < s.len() {
        lemma_refs_none(s, i + 1);
    }
}

/// A reference whose `}` is at `m` with none before it.
pub proof fn lemma_body_scan(s: Seq<char>, i: int, k: int, m: int)
    requires
        0 <= i,
        i + 2 <= k <= m < s.len(),
        s[m] == '}',
        forall|j: int| k <= j < m ==> s[j] != '}',
    ensures
        ref_body(s, i, k) == seq![s.subrange(i + 2, m)] + refs_from(s, m + 1),
    decreases m - k,
{
    if k < m {
        lemma_body_scan(s, i, k + 1, m);
    }
}

/// Every `${...}` reference of a JSON value: those of a string, or of every
/// element / member value in order.
pub open spec fn json_refs(v: JsonValue) -> Seq<Seq<char>>
    decreases v,
{
    match v {
        JsonValue::Str(s) => text_refs(s@),
        JsonValue::Array(items) => list_refs(items@),
        JsonValue::Object(members) => member_refs(members@),
        _ => seq![],
    }
}

pub open spec fn list_refs(items: Seq<JsonValue>) -> Seq<Seq<char>>
    decreases items,
{
    if items.len() == 0 {
        seq![]
    } else {
        json_refs(items[0]) + list_refs(items.drop_first())
    }
}

pub open spec fn member_refs(members: Seq<(String, JsonValue)>) -> Seq<Seq<char>>
    decreases members,
{
    if members.len() == 0 {
        seq![]
    } else {
        json_refs(members[0].1) + member_refs(members.drop_first())
    }
}

/// Extracts every `${...}` reference (including dotted paths) from a text.
pub fn extract_text_refs(text: &str) -> (r: Vec<String>)
    ensures
        views(r@) == text_refs(text@),
{
    let s = chars_of(text);
    let n = s.len();
    let mut out: Vec<String> = Vec::new();
    let mut i: usize = 0;
    while n > 0 && i < n - 1
        invariant
            n == s@.len(),
            s@ == text@,
            i <= n,
            views(out@) + refs_from(s@, i as int) == text_refs(s@),
        decreases n - i,
    {
        if s[i] == '$' && s[i + 1] == '{' {
            assert(refs_from(s@, i as int) == ref_body(s@, i as int, i + 2));
            let mut k = i + 2;
            while k < n && s[k] != '}'
                invariant
                    n == s@.len(),
                    i + 2 <= k <= n,
                    ref_body(s@, i as int, k as int) == ref_body(s@, i as int, i + 2),
                decreases n - k,
            {
                k = k + 1;
            }
            if k >= n {
                assert(ref_body(s@, i as int, k as int) =~= seq![]);
                assert(refs_from(s@, i as int) =~= seq![]);
                assert(views(out@) + seq![] =~= views(out@));
                return out;
            }
            let part = slice_chars(&s, i + 2, k);
            let ghost before = views(out@);
            out.push(string_from_chars(part.as_slice()));
            assert(views(out@) =~= before.push(s@.subrange(i + 2, k as int)));
            assert(before + ref_body(s@, i as int, k as int) =~= views(out@) + refs_from(
                s@,
                k + 1,
            ));
            i = k + 1;
        } else {
            i = i + 1;
        }
    }
    assert(views(out@) + seq![] =~= views(out@));
    out
}

/// Extracts every `${...}` reference from a JSON value.
pub fn extract_refs(value: &JsonValue) -> (r: Vec<String>)
    ensures
        views(r@) == json_refs(*value),
    decreases value,
{
    match value {
        JsonValue::Str(s) => extract_text_refs(s.as_str()),
        JsonValue::Array(items) => {
            let mut out: Vec<String> = Vec::new();
            let mut i: usize = 0;
            assert(items@.skip(0) =~= items@);
            while i < items.len()
                invariant
                    *value is Array,
                    value->Array_0 == *items,
                    i <= items@.len(),
                    views(out@) + list_refs(items@.skip(i as int)) == list_refs(items@),
                decreases items@.len() - i,
            {
                proof {
                    assert(items@.skip(i as int).drop_first() =~= items@.skip(i + 1));
                    vstd::std_specs::vec::axiom_vec_index_decreases(*items, i as int);
                    assert(decreases_to!(*value => value->Array_0));
                }
                let sub = extract_refs(&items[i]);
                let ghost before = views(out@);
                append_strings(&mut out, sub);
                assert(before + list_refs(items@.skip(i as int)) =~= views(out@) + list_refs(
                    items@.skip(i + 1),
                ));
                i = i + 1;
            }
            assert(views(out@) + seq![] =~= views(out@));
            out
        },
        JsonValue::Object(members) => {
            let mut out: Vec<String> = Vec::new();
            let mut i: usize = 0;
            assert(members@.skip(0) =~= members@);
            while i < members.len()
                invariant
                    *value is Object,
                    value->Object_0 == *members,
                    i <= members@.len(),
                    views(out@) + member_refs(members@.skip(i as int)) == member_refs(members@),
                decreases members@.len() - i,
            {
                proof {
                    assert(members@.skip(i as int).drop_first() =~= members@.skip(i + 1));
                    vstd::std_specs::vec::axiom_vec_index_decreases(*members, i as int);
                    assert(decreases_to!(*value => value->Object_0));
                    assert(decreases_to!(members@[i as int] => members@[i as int].1));
                }
                let sub = extract_refs(&members[i].1);
                let ghost before = views(out@);
                append_strings(&mut out, sub);
                assert(before + member_refs(members@.skip(i as int)) =~= views(out@)
                    + member_refs(members@.skip(i + 1)));
                i = i + 1;
            }
            assert(views(out@) + seq![] =~= views(out@));
            out
        },
        _ => {
            let out: Vec<String> = Vec::new();
            assert(views(out@) =~= seq![]);
            out
        },
    }
}

pub fn append_strings(out: &mut Vec<String>, more: Vec<String>)
    ensures
        views(final(out)@) == views(old(out)@) + views(more@),
{
    let mut more = more;
    let ghost m = more@;
    let ghost o = out@;
    out.append(&mut more);
    assert(views(out@) =~= views(o) + views(m));
}

} // verus!
