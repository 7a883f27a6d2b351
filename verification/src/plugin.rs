//! The built-in primitives' descriptions and their text helpers: the local
//! summary, CSV line splitting and missing-value sentinels.

use vstd::prelude::*;

use crate::error::join_strings;
use crate::error::join_text;
use crate::refs::views;
use crate::text::{
    chars_of, dec_text, is_blank, push_text, slice_chars, str_eq, string_from_chars, string_of,
    trim_bounds, trim_seq, trim_text, u128_text,
};
use crate::error::AcosError;
use crate::traits::{CapabilityDesc, PrimitiveManifest};
use crate::types::{EffectDecl, EffectKind, PrimitiveId};

verus! {

// ── Lines ──────────────────────────────────────────────────────────────────

/// The pieces of `s` between `c` separators (at least one piece).
pub open spec fn split_char(s: Seq<char>, c: char) -> Seq<Seq<char>>
    decreases s.len(),
{
    if s.len() == 0 {
        seq![seq![]]
    } else {
        let r = split_char(s.drop_last(), c);
        if s.last() == c {
            r.push(seq![])
        } else {
            r.update(r.len() - 1, r.last().push(s.last()))
        }
    }
}

pub proof fn lemma_split_char_nonempty(s: Seq<char>, c: char)
    ensures
        split_char(s, c).len() >= 1,
    decreases s.len(),
{
    if s.len() > 0 {
        lemma_split_char_nonempty(s.drop_last(), c);
    }
}

/// A line that ended with a newline loses one trailing carriage return.
pub open spec fn strip_cr(l: Seq<char>) -> Seq<char> {
    if l.len() > 0 && l.last() == '\r' {
        l.drop_last()
    } else {
        l
    }
}

/// The lines terminated by a newline, without their line endings.
pub open spec fn ended_lines(s: Seq<char>) -> Seq<Seq<char>> {
    let p = split_char(s, '\n');
    p.drop_last().map_values(|l: Seq<char>| strip_cr(l))
}

/// `str::lines`: the newline-terminated lines, then the unterminated rest
/// when it is not empty.
pub open spec fn text_lines(s: Seq<char>) -> Seq<Seq<char>> {
    let rest = split_char(s, '\n').last();
    ended_lines(s) + if rest.len() > 0 {
        seq![rest]
    } else {
        seq![]
    }
}

/// The UTF-8 length of a character.
pub open spec fn utf8_len(c: char) -> nat {
    let u = c as u32;
    if u < 0x80 {
        1
    } else if u < 0x800 {
        2
    } else if u < 0x10000 {
        3
    } else {
        4
    }
}

/// The UTF-8 length of a text (`str::len`).
pub open spec fn byte_len(s: Seq<char>) -> nat
    decreases s.len(),
{
    if s.len() == 0 {
        0
    } else {
        byte_len(s.drop_last()) + utf8_len(s.last())
    }
}

/// The lines that hold more than whitespace.
pub open spec fn kept_lines(ls: Seq<Seq<char>>) -> Seq<Seq<char>>
    decreases ls.len(),
{
    if ls.len() == 0 {
        seq![]
    } else if trim_seq(ls.last()).len() > 0 {
        kept_lines(ls.drop_last()).push(ls.last())
    } else {
        kept_lines(ls.drop_last())
    }
}

pub open spec fn total_bytes(ls: Seq<Seq<char>>) -> nat
    decreases ls.len(),
{
    if ls.len() == 0 {
        0
    } else {
        total_bytes(ls.drop_last()) + byte_len(ls.last())
    }
}

/// The trimmed first five of `ls`.
pub open spec fn preview_items(ls: Seq<Seq<char>>) -> Seq<Seq<char>> {
    ls.take(if ls.len() < 5 {
        ls.len() as int
    } else {
        5
    }).map_values(|l: Seq<char>| trim_seq(l))
}

/// The deterministic local summary of a text: how many non-blank lines it
/// has, their UTF-8 length, and the first five of them.
pub open spec fn summary_text(s: Seq<char>) -> Seq<char> {
    let kept = kept_lines(text_lines(s));
    "Summary: "@ + dec_text(kept.len()) + " lines, "@ + dec_text(total_bytes(kept))
        + " chars. Preview: "@ + join_text(preview_items(kept), " | "@)
}

fn utf8_width(c: char) -> (n: u128)
    ensures
        n == utf8_len(c),
{
    let u = c as u32;
    if u < 0x80 {
        1
    } else if u < 0x800 {
        2
    } else if u < 0x10000 {
        3
    } else {
        4
    }
}

/// Accumulated summary of the lines seen so far.
struct LineTally {
    count: u128,
    bytes: u128,
    preview: Vec<String>,
}

fn tally_line(t: &mut LineTally, line: &Vec<char>, Ghost(seen): Ghost<Seq<Seq<char>>>)
    requires
        old(t).count == kept_lines(seen).len(),
        old(t).bytes == total_bytes(kept_lines(seen)),
        views(old(t).preview@) == preview_items(kept_lines(seen)),
        old(t).count <= seen.len(),
        old(t).bytes <= 4 * total_len(seen),
        seen.len() < usize::MAX,
        total_len(seen) + line@.len() <= usize::MAX,
    ensures
        final(t).count == kept_lines(seen.push(line@)).len(),
        final(t).bytes == total_bytes(kept_lines(seen.push(line@))),
        views(final(t).preview@) == preview_items(kept_lines(seen.push(line@))),
        final(t).count <= seen.len() + 1,
        final(t).bytes <= 4 * total_len(seen.push(line@)),
{
    let ghost ls = seen.push(line@);
    assert(ls.drop_last() =~= seen);
    assert(ls.last() == line@);
    assert(total_len(ls) == total_len(seen) + line@.len());
    let (a, b) = trim_bounds(line);
    if a == b {
        return;
    }
    let mut bytes: u128 = 0;
    let mut i: usize = 0;
    while i < line.len()
        invariant
            i <= line@.len(),
            bytes == byte_len(line@.take(i as int)),
            bytes <= 4 * i,
        decreases line@.len() - i,
    {
        assert(line@.take(i + 1).drop_last() =~= line@.take(i as int));
        bytes = bytes + utf8_width(line[i]);
        i = i + 1;
    }
    assert(line@.take(line@.len() as int) =~= line@);
    let ghost kept_before = kept_lines(seen);
    assert(kept_before.push(line@).drop_last() =~= kept_before);
    t.count = t.count + 1;
    t.bytes = t.bytes + bytes;
    if t.preview.len() < 5 {
        let trimmed = slice_chars(line, a, b);
        let ghost pv = views(t.preview@);
        t.preview.push(string_from_chars(trimmed.as_slice()));
        proof {
            let k2 = kept_before.push(line@);
            assert(views(t.preview@) =~= pv.push(trim_seq(line@)));
            assert(preview_items(k2) =~= preview_items(kept_before).push(trim_seq(line@)));
        }
    } else {
        proof {
            let k2 = kept_before.push(line@);
            assert(preview_items(k2) =~= preview_items(kept_before));
        }
    }
}

/// Sum of the lengths of a list of texts.
pub open spec fn total_len(ls: Seq<Seq<char>>) -> nat
    decreases ls.len(),
{
    if ls.len() == 0 {
        0
    } else {
        total_len(ls.drop_last()) + ls.last().len()
    }
}

/// The tally of the non-blank lines of a text.
fn tally_text(text: &str) -> (t: LineTally)
    ensures
        t.count == kept_lines(text_lines(text@)).len(),
        t.bytes == total_bytes(kept_lines(text_lines(text@))),
        views(t.preview@) == preview_items(kept_lines(text_lines(text@))),
        t.count <= text@.len(),
{
    let v = chars_of(text);
    let mut t = LineTally { count: 0, bytes: 0, preview: Vec::new() };
    assert(views(t.preview@) =~= seq![]);
    assert(preview_items(seq![]) =~= seq![]);
    let mut cur: Vec<char> = Vec::new();
    let mut i: usize = 0;
    let ghost mut done: Seq<Seq<char>> = seq![];
    assert(v@.take(0) =~= seq![]);
    while i < v.len()
        invariant
            i <= v@.len(),
            v@ == text@,
            done == ended_lines(v@.take(i as int)),
            cur@ == split_char(v@.take(i as int), '\n').last(),
            t.count == kept_lines(done).len(),
            t.bytes == total_bytes(kept_lines(done)),
            views(t.preview@) == preview_items(kept_lines(done)),
            t.count <= done.len(),
            done.len() + total_len(done) + cur@.len() <= i,
            t.bytes <= 4 * total_len(done),
        decreases v@.len() - i,
    {
        let c = v[i];
        let ghost pre = v@.take(i as int);
        let ghost post = v@.take(i + 1);
        assert(post.drop_last() =~= pre);
        proof {
            lemma_split_char_nonempty(pre, '\n');
        }
        if c == '\n' {
            let line = if cur.len() > 0 && cur[cur.len() - 1] == '\r' {
                slice_chars(&cur, 0, cur.len() - 1)
            } else {
                slice_chars(&cur, 0, cur.len())
            };
            assert(line@ == strip_cr(cur@)) by {
                if cur@.len() > 0 && cur@.last() == '\r' {
                    assert(line@ =~= cur@.drop_last());
                } else {
                    assert(line@ =~= cur@);
                }
            }
            tally_line(&mut t, &line, Ghost(done));
            proof {
                let p = split_char(pre, '\n');
                assert(split_char(post, '\n') =~= p.push(seq![]));
                assert(split_char(post, '\n').drop_last() =~= p);
                assert(p.drop_last().map_values(|l: Seq<char>| strip_cr(l)).push(strip_cr(p.last()))
                    =~= p.map_values(|l: Seq<char>| strip_cr(l)));
                assert(done.push(line@).drop_last() =~= done);
                assert(total_len(done.push(line@)) == total_len(done) + line@.len());
                assert(line@.len() <= cur@.len());
                done = done.push(line@);
            }
            cur = Vec::new();
        } else {
            cur.push(c);
            proof {
                let p = split_char(pre, '\n');
                assert(split_char(post, '\n') == p.update(p.len() - 1, p.last().push(c)));
                assert(split_char(post, '\n').drop_last() =~= p.drop_last());
            }
        }
        i = i + 1;
    }
    assert(v@.take(i as int) =~= v@);
    if cur.len() > 0 {
        tally_line(&mut t, &cur, Ghost(done));
        proof {
            assert(text_lines(v@) =~= done.push(cur@));
        }
    } else {
        assert(text_lines(v@) =~= done);
    }
    t
}

/// The number of lines of a text that hold more than whitespace.
pub fn count_nonblank_lines(text: &str) -> (n: usize)
    ensures
        n == kept_lines(text_lines(text@)).len(),
{
    let v = chars_of(text);
    let n = v.len();
    let t = tally_text(text);
    assert(t.count <= n);
    t.count as usize
}

/// Deterministic, dependency-free summary of a text.
pub fn summarize_text(text: &str) -> (r: String)
    ensures
        r@ == summary_text(text@),
{
    let t = tally_text(text);
    let mut s = string_of("Summary: ");
    let c = u128_text(t.count);
    push_text(&mut s, c.as_str());
    push_text(&mut s, " lines, ");
    let b = u128_text(t.bytes);
    push_text(&mut s, b.as_str());
    push_text(&mut s, " chars. Preview: ");
    let p = join_strings(&t.preview, " | ");
    push_text(&mut s, p.as_str());
    s
}

// ── CSV lines ──────────────────────────────────────────────────────────────

/// The CSV splitting state after `s`: finished fields, the current field and
/// whether a quoted segment is open. A `"` toggles quoting and is dropped;
/// a `,` outside quotes ends a field.
pub open spec fn csv_state(s: Seq<char>) -> (Seq<Seq<char>>, Seq<char>, bool)
    decreases s.len(),
{
    if s.len() == 0 {
        (seq![], seq![], false)
    } else {
        let (f, cur, q) = csv_state(s.drop_last());
        let c = s.last();
        if c == '"' {
            (f, cur, !q)
        } else if c == ',' && !q {
            (f.push(trim_seq(cur)), seq![], q)
        } else {
            (f, cur.push(c), q)
        }
    }
}

/// The trimmed fields of one CSV line.
pub open spec fn csv_fields(s: Seq<char>) -> Seq<Seq<char>> {
    let (f, cur, _) = csv_state(s);
    f.push(trim_seq(cur))
}

/// Parses one CSV line into trimmed fields, honoring double-quoted segments.
pub fn parse_csv_line(line: &str) -> (r: Vec<String>)
    ensures
        views(r@) == csv_fields(line@),
{
    let v = chars_of(line);
    let mut fields: Vec<String> = Vec::new();
    let mut cur: Vec<char> = Vec::new();
    let mut in_quotes = false;
    let mut i: usize = 0;
    assert(v@.take(0) =~= seq![]);
    while i < v.len()
        invariant
            i <= v@.len(),
            v@ == line@,
            csv_state(v@.take(i as int)) == (views(fields@), cur@, in_quotes),
        decreases v@.len() - i,
    {
        let c = v[i];
        assert(v@.take(i + 1).drop_last() =~= v@.take(i as int));
        if c == '"' {
            in_quotes = !in_quotes;
        } else if c == ',' && !in_quotes {
            let (a, b) = trim_bounds(&cur);
            let piece = slice_chars(&cur, a, b);
            let ghost before = views(fields@);
            fields.push(string_from_chars(piece.as_slice()));
            assert(views(fields@) =~= before.push(trim_seq(cur@)));
            cur = Vec::new();
            assert(cur@ =~= seq![]);
        } else {
            cur.push(c);
        }
        i = i + 1;
    }
    assert(v@.take(i as int) =~= v@);
    let (a, b) = trim_bounds(&cur);
    let piece = slice_chars(&cur, a, b);
    let ghost before = views(fields@);
    fields.push(string_from_chars(piece.as_slice()));
    assert(views(fields@) =~= before.push(trim_seq(cur@)));
    fields
}

/// The missing-value sentinels.
pub open spec fn missing_sentinel(t: Seq<char>) -> bool {
    t == ""@ || t == "NA"@ || t == "N/A"@ || t == "NULL"@ || t == "null"@ || t == "nan"@ || t
        == "-"@
}

/// Whether a cell holds a missing-value sentinel once trimmed.
pub fn is_missing(v: &str) -> (b: bool)
    ensures
        b == missing_sentinel(trim_seq(v@)),
{
    let t = trim_text(v);
    let s = t.as_str();
    str_eq(s, "") || str_eq(s, "NA") || str_eq(s, "N/A") || str_eq(s, "NULL") || str_eq(s, "null")
        || str_eq(s, "nan") || str_eq(s, "-")
}

// ── Built-in primitive descriptions ────────────────────────────────────────

fn capability(id: &str, name: &str, input: &str, output: &str) -> (c: CapabilityDesc)
    ensures
        c.id@ == id@,
        c.name@ == name@,
        c.input_type@ == input@,
        c.output_type@ == output@,
{
    CapabilityDesc {
        id: string_of(id),
        name: string_of(name),
        input_type: string_of(input),
        output_type: string_of(output),
    }
}

fn effect(kind: EffectKind, description: &str) -> (e: EffectDecl)
    ensures
        e.kind == kind,
        e.description@ == description@,
        e.reversible,
{
    EffectDecl { kind, description: string_of(description), reversible: true }
}

pub open spec fn cap_is(c: CapabilityDesc, id: Seq<char>, name: Seq<char>, input: Seq<char>, output: Seq<char>) -> bool {
    c.id@ == id && c.name@ == name && c.input_type@ == input && c.output_type@ == output
}

pub open spec fn effect_is(e: EffectDecl, kind: EffectKind, description: Seq<char>) -> bool {
    e.kind == kind && e.description@ == description && e.reversible
}

/// `search`: a network read; the offline primitive returns no documents.
pub struct SearchPrimitive;

/// `read_file`: a filesystem read.
pub struct ReadFilePrimitive;

/// `write_file`: a filesystem write, compensated by deleting the file.
pub struct WriteFilePrimitive;

/// `execute_python`: runs Python code in a child process.
pub struct ExecutePythonPrimitive;

/// `csv.inspect_schema`: column names, inferred types and issues of a CSV file.
pub struct CsvInspectSchemaPrimitive;

/// `csv.aggregate`: column sums of a CSV file with schema enforcement.
pub struct CsvAggregatePrimitive;

impl SearchPrimitive {
    pub fn capability(&self) -> (c: CapabilityDesc)
        ensures
            cap_is(c, "search"@, "Search"@, "SearchQuery"@, "DocumentList"@),
    {
        capability("search", "Search", "SearchQuery", "DocumentList")
    }

    pub fn effects(&self) -> (r: Vec<EffectDecl>)
        ensures
            r@.len() == 1,
            effect_is(r@[0], EffectKind::NetworkRead, "network read"@),
    {
        let mut r = Vec::new();
        r.push(effect(EffectKind::NetworkRead, "network read"));
        r
    }

    pub fn has_compensation(&self, effect: &EffectDecl) -> (b: bool)
        ensures
            !b,
    {
        false
    }
}

impl ReadFilePrimitive {
    pub fn capability(&self) -> (c: CapabilityDesc)
        ensures
            cap_is(c, "read_file"@, "Read File"@, "FileRef"@, "Document"@),
    {
        capability("read_file", "Read File", "FileRef", "Document")
    }

    pub fn effects(&self) -> (r: Vec<EffectDecl>)
        ensures
            r@.len() == 1,
            effect_is(r@[0], EffectKind::FsRead, "filesystem read"@),
    {
        let mut r = Vec::new();
        r.push(effect(EffectKind::FsRead, "filesystem read"));
        r
    }

    pub fn has_compensation(&self, effect: &EffectDecl) -> (b: bool)
        ensures
            !b,
    {
        false
    }
}

impl WriteFilePrimitive {
    pub fn capability(&self) -> (c: CapabilityDesc)
        ensures
            cap_is(c, "write_file"@, "Write File"@, "ArtifactWriteRequest"@, "ArtifactRef"@),
    {
        capability("write_file", "Write File", "ArtifactWriteRequest", "ArtifactRef")
    }

    pub fn effects(&self) -> (r: Vec<EffectDecl>)
        ensures
            r@.len() == 1,
            effect_is(r@[0], EffectKind::FsWrite, "filesystem write"@),
    {
        let mut r = Vec::new();
        r.push(effect(EffectKind::FsWrite, "filesystem write"));
        r
    }

    /// A filesystem write is compensated by deleting the written file.
    pub fn has_compensation(&self, effect: &EffectDecl) -> (b: bool)
        ensures
            b == (effect.kind == EffectKind::FsWrite),
    {
        effect.kind == EffectKind::FsWrite
    }
}

impl ExecutePythonPrimitive {
    pub fn capability(&self) -> (c: CapabilityDesc)
        ensures
            cap_is(c, "execute_python"@, "Execute Python"@, "PythonExecutionRequest"@, "ExecutionResult"@),
    {
        capability("execute_python", "Execute Python", "PythonExecutionRequest", "ExecutionResult")
    }

    pub fn effects(&self) -> (r: Vec<EffectDecl>)
        ensures
            r@.len() == 2,
            effect_is(r@[0], EffectKind::ProcessSpawn, "process execution"@),
            effect_is(r@[1], EffectKind::FsRead, "optional filesystem/network access"@),
    {
        let mut r = Vec::new();
        r.push(effect(EffectKind::ProcessSpawn, "process execution"));
        r.push(effect(EffectKind::FsRead, "optional filesystem/network access"));
        r
    }

    pub fn has_compensation(&self, effect: &EffectDecl) -> (b: bool)
        ensures
            !b,
    {
        false
    }
}

impl CsvInspectSchemaPrimitive {
    pub fn capability(&self) -> (c: CapabilityDesc)
        ensures
            cap_is(c, "csv.inspect_schema"@, "CSV Inspect Schema"@, "CsvInspectRequest"@, "CsvSchemaReport"@),
    {
        capability("csv.inspect_schema", "CSV Inspect Schema", "CsvInspectRequest", "CsvSchemaReport")
    }

    pub fn effects(&self) -> (r: Vec<EffectDecl>)
        ensures
            r@.len() == 1,
            effect_is(r@[0], EffectKind::FsRead, "read CSV file"@),
    {
        let mut r = Vec::new();
        r.push(effect(EffectKind::FsRead, "read CSV file"));
        r
    }

    pub fn has_compensation(&self, effect: &EffectDecl) -> (b: bool)
        ensures
            !b,
    {
        false
    }
}

impl CsvAggregatePrimitive {
    pub fn capability(&self) -> (c: CapabilityDesc)
        ensures
            cap_is(c, "csv.aggregate"@, "CSV Aggregate"@, "CsvAggregateRequest"@, "CsvAggregateResult"@),
    {
        capability("csv.aggregate", "CSV Aggregate", "CsvAggregateRequest", "CsvAggregateResult")
    }

    pub fn effects(&self) -> (r: Vec<EffectDecl>)
        ensures
            r@.len() == 1,
            effect_is(r@[0], EffectKind::FsRead, "read CSV file"@),
    {
        let mut r = Vec::new();
        r.push(effect(EffectKind::FsRead, "read CSV file"));
        r
    }

    pub fn has_compensation(&self, effect: &EffectDecl) -> (b: bool)
        ensures
            !b,
    {
        false
    }
}

/// The summarize capability (its primitive lives with the model client).
pub fn summarize_capability() -> (c: CapabilityDesc)
    ensures
        cap_is(c, "summarize"@, "Summarize"@, "Document"@, "Summary"@),
{
    capability("summarize", "Summarize", "Document", "Summary")
}

/// The capabilities of the built-in registry, in registration order.
pub struct BuiltinRegistry {
    pub capabilities: Vec<CapabilityDesc>,
}

impl BuiltinRegistry {
    /// A registry with the five built-in primitives registered.
    pub fn new() -> (r: Self)
        ensures
            r.capabilities@.len() == 5,
            cap_is(r.capabilities@[0], "search"@, "Search"@, "SearchQuery"@, "DocumentList"@),
            cap_is(r.capabilities@[1], "read_file"@, "Read File"@, "FileRef"@, "Document"@),
            cap_is(r.capabilities@[2], "write_file"@, "Write File"@, "ArtifactWriteRequest"@, "ArtifactRef"@),
            cap_is(r.capabilities@[3], "execute_python"@, "Execute Python"@, "PythonExecutionRequest"@, "ExecutionResult"@),
            cap_is(r.capabilities@[4], "summarize"@, "Summarize"@, "Document"@, "Summary"@),
    {
        let mut capabilities = Vec::new();
        capabilities.push(SearchPrimitive.capability());
        capabilities.push(ReadFilePrimitive.capability());
        capabilities.push(WriteFilePrimitive.capability());
        capabilities.push(ExecutePythonPrimitive.capability());
        capabilities.push(summarize_capability());
        BuiltinRegistry { capabilities }
    }

    /// Whether `id` names one of the five built-in capabilities.
    pub fn resolves(&self, id: &str) -> (b: bool)
        ensures
            b == (id@ == "search"@ || id@ == "read_file"@ || id@ == "write_file"@ || id@
                == "execute_python"@ || id@ == "summarize"@),
    {
        str_eq(id, "search") || str_eq(id, "read_file") || str_eq(id, "write_file") || str_eq(
            id,
            "execute_python",
        ) || str_eq(id, "summarize")
    }

    /// Loads a primitive from its manifest: only a registered capability can
    /// be loaded, and it gets a fresh identifier.
    pub fn load(&self, manifest: &PrimitiveManifest) -> (r: Result<PrimitiveId, AcosError>)
        ensures
            r is Ok <==> exists|k: int|
                0 <= k < self.capabilities@.len() && (#[trigger] self.capabilities@[k]).id@
                    == manifest.id@,
            r is Err ==> (r->Err_0 matches AcosError::ValidationFailure { message } && message@
                == "cannot load unknown primitive: "@ + manifest.id@),
    {
        let mut k: usize = 0;
        while k < self.capabilities.len()
            invariant
                k <= self.capabilities@.len(),
                forall|m: int| 0 <= m < k ==> (#[trigger] self.capabilities@[m]).id@ != manifest.id@,
            decreases self.capabilities@.len() - k,
        {
            if str_eq(self.capabilities[k].id.as_str(), manifest.id.as_str()) {
                return Ok(PrimitiveId::new());
            }
            k = k + 1;
        }
        let mut m = string_of("cannot load unknown primitive: ");
        push_text(&mut m, manifest.id.as_str());
        Err(AcosError::ValidationFailure { message: m })
    }

    /// Unloads a primitive: the built-in primitives are always present, so
    /// this does nothing.
    pub fn unload(&self, id: PrimitiveId) -> (r: Result<(), AcosError>)
        ensures
            r is Ok,
    {
        Ok(())
    }
}

} // verus!
