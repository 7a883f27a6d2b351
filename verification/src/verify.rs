//! Verification of run results: findings per layer, the structural checks
//! of an output artifact and the evidence checks of a run's event log.

use vstd::prelude::*;

use crate::refs::views;
use crate::text::{chars_of, dec_text, find_chars, find_from, push_text, string_of, u64_text};
use crate::traits::Event;

verus! {

/// Verification layer that produced a finding.
#[derive(Debug, Clone, Copy, PartialEq, Eq, Structural)]
pub enum VerificationLayer {
    /// Structural checks (artifact exists, sections present).
    Structure,
    /// Semantic checks (numeric claims against the ground truth).
    Semantic,
    /// Evidence checks (event log entries exist).
    Evidence,
}

/// A verification finding from any layer.
pub struct VerificationFinding {
    pub passed: bool,
    pub layer: VerificationLayer,
    pub message: String,
}

/// A full verification report for a run.
pub struct VerificationReport {
    pub findings: Vec<VerificationFinding>,
}

/// Every finding of the sequence passed.
pub open spec fn every_passed(fs: Seq<VerificationFinding>) -> bool {
    forall|i: int| 0 <= i < fs.len() ==> (#[trigger] fs[i]).passed
}

/// The findings of one layer, in order.
pub open spec fn of_layer(fs: Seq<VerificationFinding>, layer: VerificationLayer) -> Seq<VerificationFinding> {
    fs.filter(|f: VerificationFinding| f.layer == layer)
}

impl VerificationReport {
    /// Whether the report has findings and all of them passed.
    pub fn all_passed(&self) -> (b: bool)
        ensures
            b == (self.findings@.len() > 0 && every_passed(self.findings@)),
    {
        if self.findings.len() == 0 {
            return false;
        }
        let mut i: usize = 0;
        while i < self.findings.len()
            invariant
                i <= self.findings@.len(),
                forall|k: int| 0 <= k < i ==> (#[trigger] self.findings@[k]).passed,
            decreases self.findings@.len() - i,
        {
            if !self.findings[i].passed {
                return false;
            }
            i = i + 1;
        }
        true
    }

    /// The findings of one layer, in order.
    pub fn layer_findings(&self, layer: VerificationLayer) -> (r: Vec<&VerificationFinding>)
        ensures
            r@.map_values(|f: &VerificationFinding| *f) == of_layer(self.findings@, layer),
    {
        let fs = &self.findings;
        let mut r: Vec<&VerificationFinding> = Vec::new();
        let mut i: usize = 0;
        while i < fs.len()
            invariant
                i <= fs@.len(),
                r@.map_values(|f: &VerificationFinding| *f) == of_layer(fs@.take(i as int), layer),
            decreases fs@.len() - i,
        {
            let ghost before = r@.map_values(|f: &VerificationFinding| *f);
            assert(fs@.take(i + 1).drop_last() =~= fs@.take(i as int));
            proof {
                assert(fs@.take(i as int).push(fs@[i as int]) =~= fs@.take(i + 1));
                fs@.take(i as int).lemma_filter_push(
                    fs@[i as int],
                    |f: VerificationFinding| f.layer == layer,
                );
            }
            if fs[i].layer == layer {
                r.push(&fs[i]);
                assert(r@.map_values(|f: &VerificationFinding| *f) =~= before.push(fs@[i as int]));
            }
            i = i + 1;
        }
        assert(fs@.take(fs@.len() as int) =~= fs@);
        r
    }

    /// Whether the layer has findings and all of them passed.
    pub fn layer_passed(&self, layer: VerificationLayer) -> (b: bool)
        ensures
            b == (of_layer(self.findings@, layer).len() > 0 && every_passed(
                of_layer(self.findings@, layer),
            )),
    {
        let fs = self.layer_findings(layer);
        let ghost lf = of_layer(self.findings@, layer);
        assert(fs@.len() == lf.len());
        if fs.len() == 0 {
            return false;
        }
        let mut i: usize = 0;
        while i < fs.len()
            invariant
                i <= fs@.len(),
                fs@.map_values(|f: &VerificationFinding| *f) == lf,
                lf == of_layer(self.findings@, layer),
                forall|k: int| 0 <= k < i ==> (#[trigger] lf[k]).passed,
            decreases fs@.len() - i,
        {
            assert(lf[i as int] == *fs@[i as int]);
            if !fs[i].passed {
                assert(!lf[i as int].passed);
                return false;
            }
            i = i + 1;
        }
        true
    }
}

/// A report whose findings all passed has every layer that reports
/// something passed.
pub proof fn lemma_all_passed_layers(fs: Seq<VerificationFinding>, layer: VerificationLayer)
    requires
        fs.len() > 0,
        every_passed(fs),
        of_layer(fs, layer).len() > 0,
    ensures
        every_passed(of_layer(fs, layer)),
{
    assert forall|i: int| 0 <= i < of_layer(fs, layer).len() implies (#[trigger] of_layer(
        fs,
        layer,
    )[i]).passed by {
        let f = of_layer(fs, layer)[i];
        assert(of_layer(fs, layer).contains(f));
        fs.lemma_filter_contains_rev(|f: VerificationFinding| f.layer == layer, f);
        assert(fs.contains(f));
    }
}

// ── Layer 1: structural ────────────────────────────────────────────────────

/// What `String::from_utf8_lossy` decodes from bytes.
pub uninterp spec fn utf8_lossy(bytes: Seq<u8>) -> Seq<char>;

/// What `str::to_lowercase` makes of a text.
pub uninterp spec fn lowercase(s: Seq<char>) -> Seq<char>;

/// Decodes bytes as UTF-8, replacing invalid sequences
/// (`String::from_utf8_lossy`); the text is named `utf8_lossy`.
#[verifier::external_body]
fn decode_lossy(bytes: &[u8]) -> (r: String)
    ensures
        r@ == utf8_lossy(bytes@),
{
    String::from_utf8_lossy(bytes).into_owned()
}

/// Unicode lowercase of a text (`str::to_lowercase`); named `lowercase`.
#[verifier::external_body]
fn to_lower(s: &str) -> (r: String)
    ensures
        r@ == lowercase(s@),
{
    s.to_lowercase()
}

/// Whether `pat` occurs in `s`.
pub open spec fn contains_text(s: Seq<char>, pat: Seq<char>) -> bool {
    find_from(s, pat, 0) >= 0
}

pub open spec fn structural_finding(f: VerificationFinding, passed: bool, message: Seq<char>) -> bool {
    f.passed == passed && f.layer == VerificationLayer::Structure && f.message@ == message
}

/// The section findings for the artifact text `text`.
pub open spec fn section_findings_ok(
    fs: Seq<VerificationFinding>,
    sections: Seq<Seq<char>>,
    text: Seq<char>,
) -> bool {
    &&& fs.len() == sections.len()
    &&& forall|i: int|
        0 <= i < fs.len() ==> {
            let found = contains_text(lowercase(text), lowercase(sections[i]));
            structural_finding(
                #[trigger] fs[i],
                found,
                "section '"@ + sections[i] + if found {
                    "': present"@
                } else {
                    "': MISSING"@
                },
            )
        }
}

/// Checks that the artifact exists, is non-empty, and has every required
/// section (a case-insensitive substring match).
pub fn check_structural(artifact: Option<&[u8]>, required_sections: &Vec<String>) -> (r: Vec<
    VerificationFinding,
>)
    ensures
        match artifact {
            None => r@.len() == 1 && structural_finding(
                r@[0],
                false,
                "artifact: missing — no output artifact produced"@,
            ),
            Some(c) => if c@.len() == 0 {
                r@.len() == 1 && structural_finding(
                    r@[0],
                    false,
                    "artifact: empty — output artifact has zero bytes"@,
                )
            } else {
                section_findings_ok(r@, views(required_sections@), utf8_lossy(c@))
            },
        },
{
    let mut findings: Vec<VerificationFinding> = Vec::new();
    let content = match artifact {
        None => {
            findings.push(
                VerificationFinding {
                    passed: false,
                    layer: VerificationLayer::Structure,
                    message: string_of("artifact: missing — no output artifact produced"),
                },
            );
            return findings;
        },
        Some(c) => c,
    };
    if content.len() == 0 {
        findings.push(
            VerificationFinding {
                passed: false,
                layer: VerificationLayer::Structure,
                message: string_of("artifact: empty — output artifact has zero bytes"),
            },
        );
        return findings;
    }
    let text = decode_lossy(content);
    let text_lower = to_lower(text.as_str());
    let tv = chars_of(text_lower.as_str());
    let mut i: usize = 0;
    while i < required_sections.len()
        invariant
            i <= required_sections@.len(),
            tv@ == lowercase(utf8_lossy(content@)),
            section_findings_ok(
                findings@,
                views(required_sections@).take(i as int),
                utf8_lossy(content@),
            ),
        decreases required_sections@.len() - i,
    {
        let section = required_sections[i].as_str();
        let section_lower = to_lower(section);
        let sv = chars_of(section_lower.as_str());
        let found = find_chars(&tv, &sv, 0).is_some();
        let mut m = string_of("section '");
        push_text(&mut m, section);
        if found {
            push_text(&mut m, "': present");
        } else {
            push_text(&mut m, "': MISSING");
        }
        let ghost before = findings@;
        findings.push(VerificationFinding { passed: found, layer: VerificationLayer::Structure, message: m });
        proof {
            let secs = views(required_sections@).take(i + 1);
            assert(secs[i as int] == section@);
            assert forall|k: int| 0 <= k < findings@.len() implies {
                let fnd = contains_text(lowercase(utf8_lossy(content@)), lowercase(secs[k]));
                structural_finding(
                    #[trigger] findings@[k],
                    fnd,
                    "section '"@ + secs[k] + if fnd {
                        "': present"@
                    } else {
                        "': MISSING"@
                    },
                )
            } by {
                if k < i {
                    assert(findings@[k] == before[k]);
                    assert(secs[k] == views(required_sections@).take(i as int)[k]);
                }
            }
        }
        i = i + 1;
    }
    assert(views(required_sections@).take(i as int) =~= views(required_sections@));
    findings
}

// ── Layer 3: evidence ──────────────────────────────────────────────────────

/// Whether some event has type `t`.
pub open spec fn has_event(events: Seq<Event>, t: Seq<char>) -> bool {
    exists|i: int| 0 <= i < events.len() && (#[trigger] events[i]).event_type@ == t
}

/// The number of events of type `t`.
pub open spec fn count_events(events: Seq<Event>, t: Seq<char>) -> nat
    decreases events.len(),
{
    if events.len() == 0 {
        0
    } else {
        count_events(events.drop_last(), t) + if events.last().event_type@ == t {
            1nat
        } else {
            0nat
        }
    }
}

pub open spec fn evidence_finding(f: VerificationFinding, passed: bool, message: Seq<char>) -> bool {
    f.passed == passed && f.layer == VerificationLayer::Evidence && f.message@ == message
}

fn any_event(events: &Vec<Event>, t: &str) -> (b: bool)
    ensures
        b == has_event(events@, t@),
{
    let mut i: usize = 0;
    while i < events.len()
        invariant
            i <= events@.len(),
            forall|k: int| 0 <= k < i ==> (#[trigger] events@[k]).event_type@ != t@,
        decreases events@.len() - i,
    {
        if crate::text::str_eq(events[i].event_type.as_str(), t) {
            return true;
        }
        i = i + 1;
    }
    false
}

fn count_of(events: &Vec<Event>, t: &str) -> (n: u64)
    ensures
        n == count_events(events@, t@),
{
    let mut n: u64 = 0;
    let mut i: usize = 0;
    while i < events.len()
        invariant
            i <= events@.len(),
            n == count_events(events@.take(i as int), t@),
            n <= i,
        decreases events@.len() - i,
    {
        assert(events@.take(i + 1).drop_last() =~= events@.take(i as int));
        if crate::text::str_eq(events[i].event_type.as_str(), t) {
            assert(i < usize::MAX);
            n = n + 1;
        }
        i = i + 1;
    }
    assert(events@.take(i as int) =~= events@);
    n
}

/// Checks the event log of a run: a start event, a finish event, and at
/// least one finished primitive.
pub fn check_evidence(events: &Vec<Event>) -> (r: Vec<VerificationFinding>)
    ensures
        r@.len() == 3,
        evidence_finding(
            r@[0],
            has_event(events@, "run.started"@),
            if has_event(events@, "run.started"@) {
                "evidence: run.started event present"@
            } else {
                "evidence: MISSING run.started event"@
            },
        ),
        evidence_finding(
            r@[1],
            has_event(events@, "run.finished"@),
            if has_event(events@, "run.finished"@) {
                "evidence: run.finished event present"@
            } else {
                "evidence: MISSING run.finished event"@
            },
        ),
        evidence_finding(
            r@[2],
            count_events(events@, "primitive.end"@) > 0,
            "evidence: "@ + dec_text(count_events(events@, "primitive.end"@))
                + " primitives executed"@,
        ),
{
    let mut findings: Vec<VerificationFinding> = Vec::new();
    let has_start = any_event(events, "run.started");
    findings.push(
        VerificationFinding {
            passed: has_start,
            layer: VerificationLayer::Evidence,
            message: if has_start {
                string_of("evidence: run.started event present")
            } else {
                string_of("evidence: MISSING run.started event")
            },
        },
    );
    let has_finish = any_event(events, "run.finished");
    findings.push(
        VerificationFinding {
            passed: has_finish,
            layer: VerificationLayer::Evidence,
            message: if has_finish {
                string_of("evidence: run.finished event present")
            } else {
                string_of("evidence: MISSING run.finished event")
            },
        },
    );
    let count = count_of(events, "primitive.end");
    let mut m = string_of("evidence: ");
    let c = u64_text(count);
    push_text(&mut m, c.as_str());
    push_text(&mut m, " primitives executed");
    findings.push(VerificationFinding { passed: count > 0, layer: VerificationLayer::Evidence, message: m });
    findings
}

} // verus!
