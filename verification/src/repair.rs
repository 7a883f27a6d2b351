//! The bookkeeping of a model-assisted compile with bounded repair: what is
//! recorded after each model reply, and whether to ask for another repair.

use vstd::prelude::*;

use crate::error::{acos_error_text, compiler_error_text, AcosError, CompilerError};
use crate::lower::opt_view;
use crate::text::{dec_text, push_text, string_of, u64_text};
use crate::traits::{CompileResult, Diagnostic, DiagnosticLevel};

verus! {

/// A single repair attempt's captured data.
pub struct RepairTraceEntry {
    /// 1-based attempt number.
    pub attempt: u32,
    /// Prompt sent to the model.
    pub prompt: String,
    /// Raw text returned by the model.
    pub response: String,
    /// Why the response was rejected; `None` on success.
    pub validation_error: Option<String>,
}

/// Timing breakdown of a compile, in milliseconds.
pub struct CompileTiming {
    pub initial_llm_ms: u64,
    pub repair_llm_ms: u64,
    pub total_ms: u64,
}

impl Default for CompileTiming {
    fn default() -> (r: Self)
        ensures
            r.initial_llm_ms == 0 && r.repair_llm_ms == 0 && r.total_ms == 0,
    {
        CompileTiming { initial_llm_ms: 0, repair_llm_ms: 0, total_ms: 0 }
    }
}

/// Full trace of one compile: every model exchange and error.
pub struct CompileTrace {
    pub initial_prompt: String,
    pub initial_response: String,
    pub initial_error: Option<String>,
    /// Repair attempts (empty on first-pass success).
    pub repair_attempts: Vec<RepairTraceEntry>,
    pub final_error: Option<String>,
    pub timing: CompileTiming,
}

/// The result of a traced compile: the program with its diagnostics, or
/// the error, together with the trace of every model exchange.
pub struct TracedCompile {
    pub result: Result<CompileResult, AcosError>,
    pub trace: CompileTrace,
}

/// The number of repairs a compile asks for before giving up.
pub const MAX_REPAIR_ATTEMPTS: u32 = 3;

/// What to do after a model reply.
pub enum RepairNext {
    /// Ask the model for repair number `attempt`, showing it `last_error`.
    Repair { attempt: u32, last_error: CompilerError },
    /// The reply held a valid program.
    Succeeded,
    /// The compile failed for good.
    Failed { error: AcosError },
}

/// A model-assisted compile in progress.
pub struct RepairSession {
    pub max_attempts: u32,
    /// The model call awaited: 0 for the initial call, `k` for repair `k`.
    pub attempt: u32,
    pub trace: CompileTrace,
    pub diagnostics: Vec<Diagnostic>,
}

pub open spec fn entry_view(e: RepairTraceEntry) -> (u32, Seq<char>, Seq<char>, Option<Seq<char>>) {
    (e.attempt, e.prompt@, e.response@, opt_view(e.validation_error))
}

pub open spec fn entries(s: RepairSession) -> Seq<(u32, Seq<char>, Seq<char>, Option<Seq<char>>)> {
    s.trace.repair_attempts@.map_values(|e: RepairTraceEntry| entry_view(e))
}

pub open spec fn diag_view(d: Diagnostic) -> (DiagnosticLevel, Seq<char>) {
    (d.level, d.message@)
}

pub open spec fn diags(s: RepairSession) -> Seq<(DiagnosticLevel, Seq<char>)> {
    s.diagnostics@.map_values(|d: Diagnostic| diag_view(d))
}

/// Repair entries are numbered from 1 in the order they were made.
pub open spec fn numbered(s: RepairSession) -> bool {
    forall|i: int|
        0 <= i < s.trace.repair_attempts@.len() ==> #[trigger] s.trace.repair_attempts@[i].attempt
            == i + 1
}

/// The session awaits model call `attempt`, after one entry per earlier repair.
pub open spec fn pending(s: RepairSession) -> bool {
    &&& s.attempt <= s.max_attempts
    &&& s.trace.repair_attempts@.len() == (if s.attempt == 0 {
        0
    } else {
        s.attempt - 1
    })
    &&& numbered(s)
}

pub open spec fn success_message(attempt: u32, program_id: Seq<char>, nodes: nat, model: Seq<char>) -> Seq<char> {
    if attempt == 0 {
        "compile.succeeded: model planner generated program "@ + program_id + " ("@ + dec_text(nodes)
            + " nodes) via "@ + model
    } else {
        "compile.repair.succeeded on attempt "@ + dec_text(attempt as nat) + ": program "@ + program_id
            + " ("@ + dec_text(nodes) + " nodes)"@
    }
}

pub open spec fn rejected_message(attempt: u32, error: Seq<char>) -> Seq<char> {
    if attempt == 0 {
        "compile.parse_failed: "@ + error
    } else {
        "compile.repair.validation_failed (attempt "@ + dec_text(attempt as nat) + "): "@ + error
    }
}

pub open spec fn started_message(attempt: u32, max: u32) -> Seq<char> {
    "compile.repair.started: attempt "@ + dec_text(attempt as nat) + "/"@ + dec_text(max as nat)
}

/// The text of the error that ends a compile whose repairs ran out.
pub open spec fn exhausted_text(max: u32, last: CompilerError) -> Seq<char> {
    compiler_error_text(CompilerError::RepairExhausted { attempts: max, last_error: Box::new(last) })
}

pub open spec fn outcome_error(outcome: Result<(String, usize), CompilerError>) -> Option<Seq<char>> {
    match outcome {
        Ok(_) => None,
        Err(e) => Some(compiler_error_text(e)),
    }
}

fn diag(level: DiagnosticLevel, message: String) -> (d: Diagnostic)
    ensures
        diag_view(d) == (level, message@),
{
    Diagnostic { level, message }
}

fn push_u64(out: &mut String, n: u64)
    ensures
        final(out)@ == old(out)@ + dec_text(n as nat),
{
    let t = u64_text(n);
    push_text(out, t.as_str());
}

impl RepairSession {
    /// A session about to make the initial model call with `prompt`.
    pub fn new(prompt: String, max_attempts: u32) -> (s: Self)
        ensures
            s.max_attempts == max_attempts,
            s.attempt == 0,
            s.trace.initial_prompt == prompt,
            s.trace.initial_response@.len() == 0,
            s.trace.initial_error is None,
            s.trace.repair_attempts@.len() == 0,
            s.trace.final_error is None,
            s.trace.timing.initial_llm_ms == 0,
            s.trace.timing.repair_llm_ms == 0,
            s.trace.timing.total_ms == 0,
            s.diagnostics@.len() == 0,
            pending(s),
    {
        RepairSession {
            max_attempts,
            attempt: 0,
            trace: CompileTrace {
                initial_prompt: prompt,
                initial_response: String::new(),
                initial_error: None,
                repair_attempts: Vec::new(),
                final_error: None,
                timing: CompileTiming::default(),
            },
            diagnostics: Vec::new(),
        }
    }

    /// Records that the awaited model call failed; returns the error that
    /// ends the compile. `prompt` is the prompt of that call.
    pub fn on_llm_error(&mut self, error: AcosError, prompt: String, ms: u64, total_ms: u64) -> (r:
        AcosError)
        requires
            pending(*old(self)),
            old(self).trace.timing.repair_llm_ms + ms <= u64::MAX,
        ensures
            r == error,
            ({
                let s0 = *old(self);
                let s1 = *final(self);
                let k = s0.attempt;
                let text = acos_error_text(error);
                &&& s1.max_attempts == s0.max_attempts
                &&& s1.attempt == s0.attempt
                &&& s1.trace.initial_prompt == s0.trace.initial_prompt
                &&& s1.trace.initial_response == s0.trace.initial_response
                &&& s1.trace.initial_error == s0.trace.initial_error
                &&& s1.trace.timing.initial_llm_ms == s0.trace.timing.initial_llm_ms
                &&& s1.trace.timing.total_ms == total_ms
                &&& opt_view(s1.trace.final_error) == Some(text)
                &&& k == 0 ==> {
                    &&& s1.trace.timing.repair_llm_ms == s0.trace.timing.repair_llm_ms
                    &&& entries(s1) == entries(s0)
                    &&& diags(s1) == diags(s0)
                }
                &&& k > 0 ==> {
                    &&& s1.trace.timing.repair_llm_ms == s0.trace.timing.repair_llm_ms + ms
                    &&& entries(s1) == entries(s0).push((k, prompt@, seq![], Some(text)))
                    &&& diags(s1) == diags(s0).push(
                        (
                            DiagnosticLevel::Error,
                            "compile.repair.llm_error (attempt "@ + dec_text(k as nat) + "): "@
                                + text,
                        ),
                    )
                }
                &&& numbered(s1)
                &&& s1.trace.repair_attempts@.len() <= s1.max_attempts
            }),
    {
        let text = error.to_text();
        let k = self.attempt;
        if k > 0 {
            self.trace.timing.repair_llm_ms = self.trace.timing.repair_llm_ms + ms;
            let ghost before = self.trace.repair_attempts@;
            self.trace.repair_attempts.push(
                RepairTraceEntry {
                    attempt: k,
                    prompt,
                    response: String::new(),
                    validation_error: Some(string_of(text.as_str())),
                },
            );
            let mut m = string_of("compile.repair.llm_error (attempt ");
            push_u64(&mut m, k as u64);
            push_text(&mut m, "): ");
            push_text(&mut m, text.as_str());
            let ghost dbefore = self.diagnostics@;
            self.diagnostics.push(diag(DiagnosticLevel::Error, m));
            proof {
                assert(self.diagnostics@.map_values(|d: Diagnostic| diag_view(d)) =~= dbefore.map_values(
                    |d: Diagnostic| diag_view(d),
                ).push((DiagnosticLevel::Error, m@)));
                assert(self.trace.repair_attempts@.map_values(|e: RepairTraceEntry| entry_view(e))
                    =~= before.map_values(|e: RepairTraceEntry| entry_view(e)).push(
                    (k, prompt@, seq![], Some(text@)),
                ));
            }
        }
        self.trace.timing.total_ms = total_ms;
        self.trace.final_error = Some(text);
        error
    }

    /// Records a model reply and the outcome of checking it, and decides
    /// what follows: another repair while attempts remain, else the end of
    /// the compile. `prompt` is the prompt of the call; `outcome` is the
    /// checked program's id text and node count, or why it was rejected.
    pub fn on_reply(
        &mut self,
        prompt: String,
        raw: String,
        outcome: Result<(String, usize), CompilerError>,
        ms: u64,
        total_ms: u64,
        model: &str,
    ) -> (next: RepairNext)
        requires
            pending(*old(self)),
            old(self).trace.timing.repair_llm_ms + ms <= u64::MAX,
        ensures
            ({
                let s0 = *old(self);
                let s1 = *final(self);
                let k = s0.attempt;
                let max = s0.max_attempts;
                let started = if k == 0 {
                    diags(s0).push((DiagnosticLevel::Note, "compile.started: initial LLM call succeeded"@))
                } else {
                    diags(s0)
                };
                &&& s1.max_attempts == max
                &&& s1.trace.initial_prompt == s0.trace.initial_prompt
                &&& k == 0 ==> {
                    &&& s1.trace.initial_response == raw
                    &&& s1.trace.timing.initial_llm_ms == ms
                    &&& s1.trace.timing.repair_llm_ms == s0.trace.timing.repair_llm_ms
                    &&& entries(s1) == entries(s0)
                    &&& outcome is Ok ==> s1.trace.initial_error == s0.trace.initial_error
                    &&& outcome is Err ==> opt_view(s1.trace.initial_error) == outcome_error(
                        outcome,
                    )
                }
                &&& k > 0 ==> {
                    &&& s1.trace.initial_response == s0.trace.initial_response
                    &&& s1.trace.timing.initial_llm_ms == s0.trace.timing.initial_llm_ms
                    &&& s1.trace.timing.repair_llm_ms == s0.trace.timing.repair_llm_ms + ms
                    &&& entries(s1) == entries(s0).push((k, prompt@, raw@, outcome_error(outcome)))
                    &&& s1.trace.initial_error == s0.trace.initial_error
                }
                &&& match outcome {
                    Ok((id, n)) => {
                        &&& next is Succeeded
                        &&& s1.attempt == k
                        &&& diags(s1) == started.push(
                            (DiagnosticLevel::Note, success_message(k, id@, n as nat, model@)),
                        )
                        &&& s1.trace.timing.total_ms == total_ms
                        &&& s1.trace.final_error == s0.trace.final_error
                    },
                    Err(e) => {
                        let rejected = started.push(
                            (DiagnosticLevel::Warning, rejected_message(k, compiler_error_text(e))),
                        );
                        if k < max {
                            &&& next == RepairNext::Repair { attempt: (k + 1) as u32, last_error: e }
                            &&& s1.attempt == k + 1
                            &&& diags(s1) == rejected.push(
                                (DiagnosticLevel::Note, started_message((k + 1) as u32, max)),
                            )
                            &&& s1.trace.timing.total_ms == s0.trace.timing.total_ms
                            &&& s1.trace.final_error == s0.trace.final_error
                        } else {
                            &&& next matches RepairNext::Failed {
                                error: AcosError::CompilerFailure { message },
                            } && message@ == exhausted_text(max, e)
                            &&& s1.attempt == k
                            &&& diags(s1) == rejected.push(
                                (DiagnosticLevel::Error, "compile.failed: "@ + exhausted_text(max, e)),
                            )
                            &&& s1.trace.timing.total_ms == total_ms
                            &&& opt_view(s1.trace.final_error) == Some(exhausted_text(max, e))
                        }
                    },
                }
                &&& numbered(s1)
                &&& s1.trace.repair_attempts@.len() <= max
                &&& next is Repair ==> pending(s1) && next->Repair_attempt == s1.attempt
            }),
    {
        let k = self.attempt;
        let ghost e0 = self.trace.repair_attempts@;
        let ghost d0 = self.diagnostics@;
        let mut response = String::new();
        if k == 0 {
            self.trace.timing.initial_llm_ms = ms;
            self.trace.initial_response = raw;
            self.diagnostics.push(
                diag(DiagnosticLevel::Note, string_of("compile.started: initial LLM call succeeded")),
            );
        } else {
            self.trace.timing.repair_llm_ms = self.trace.timing.repair_llm_ms + ms;
            response = raw;
        }
        let ghost d1 = self.diagnostics@;
        assert(d1.map_values(|d: Diagnostic| diag_view(d)) =~= (if k == 0 {
            d0.map_values(|d: Diagnostic| diag_view(d)).push(
                (DiagnosticLevel::Note, "compile.started: initial LLM call succeeded"@),
            )
        } else {
            d0.map_values(|d: Diagnostic| diag_view(d))
        }));
        match outcome {
            Ok((id, n)) => {
                if k > 0 {
                    self.trace.repair_attempts.push(
                        RepairTraceEntry { attempt: k, prompt, response, validation_error: None },
                    );
                    assert(self.trace.repair_attempts@.map_values(|e: RepairTraceEntry| entry_view(e))
                        =~= e0.map_values(|e: RepairTraceEntry| entry_view(e)).push(
                        (k, prompt@, raw@, None),
                    ));
                }
                let mut m = String::new();
                if k == 0 {
                    push_text(&mut m, "compile.succeeded: model planner generated program ");
                    push_text(&mut m, id.as_str());
                    push_text(&mut m, " (");
                    push_u64(&mut m, n as u64);
                    push_text(&mut m, " nodes) via ");
                    push_text(&mut m, model);
                } else {
                    push_text(&mut m, "compile.repair.succeeded on attempt ");
                    push_u64(&mut m, k as u64);
                    push_text(&mut m, ": program ");
                    push_text(&mut m, id.as_str());
                    push_text(&mut m, " (");
                    push_u64(&mut m, n as u64);
                    push_text(&mut m, " nodes)");
                }
                assert(m@ =~= success_message(k, id@, n as nat, model@));
                self.diagnostics.push(diag(DiagnosticLevel::Note, m));
                assert(self.diagnostics@.map_values(|d: Diagnostic| diag_view(d)) =~= d1.map_values(
                    |d: Diagnostic| diag_view(d),
                ).push((DiagnosticLevel::Note, success_message(k, id@, n as nat, model@))));
                self.trace.timing.total_ms = total_ms;
                RepairNext::Succeeded
            },
            Err(e) => {
                let et = e.to_text();
                if k == 0 {
                    self.trace.initial_error = Some(string_of(et.as_str()));
                } else {
                    self.trace.repair_attempts.push(
                        RepairTraceEntry {
                            attempt: k,
                            prompt,
                            response,
                            validation_error: Some(string_of(et.as_str())),
                        },
                    );
                    assert(self.trace.repair_attempts@.map_values(|e: RepairTraceEntry| entry_view(e))
                        =~= e0.map_values(|e: RepairTraceEntry| entry_view(e)).push(
                        (k, prompt@, raw@, Some(et@)),
                    ));
                }
                let mut m = String::new();
                if k == 0 {
                    push_text(&mut m, "compile.parse_failed: ");
                } else {
                    push_text(&mut m, "compile.repair.validation_failed (attempt ");
                    push_u64(&mut m, k as u64);
                    push_text(&mut m, "): ");
                }
                push_text(&mut m, et.as_str());
                assert(m@ =~= rejected_message(k, et@));
                self.diagnostics.push(diag(DiagnosticLevel::Warning, m));
                let ghost d2 = self.diagnostics@;
                assert(d2.map_values(|d: Diagnostic| diag_view(d)) =~= d1.map_values(
                    |d: Diagnostic| diag_view(d),
                ).push((DiagnosticLevel::Warning, rejected_message(k, et@))));
                if k < self.max_attempts {
                    self.attempt = k + 1;
                    let mut m2 = string_of("compile.repair.started: attempt ");
                    push_u64(&mut m2, (k + 1) as u64);
                    push_text(&mut m2, "/");
                    push_u64(&mut m2, self.max_attempts as u64);
                    assert(m2@ =~= started_message((k + 1) as u32, self.max_attempts));
                    self.diagnostics.push(diag(DiagnosticLevel::Note, m2));
                    assert(self.diagnostics@.map_values(|d: Diagnostic| diag_view(d))
                        =~= d2.map_values(|d: Diagnostic| diag_view(d)).push(
                        (DiagnosticLevel::Note, started_message((k + 1) as u32, self.max_attempts)),
                    ));
                    RepairNext::Repair { attempt: k + 1, last_error: e }
                } else {
                    let fe = CompilerError::RepairExhausted {
                        attempts: self.max_attempts,
                        last_error: Box::new(e),
                    };
                    let ft = fe.to_text();
                    let mut m3 = string_of("compile.failed: ");
                    push_text(&mut m3, ft.as_str());
                    self.diagnostics.push(diag(DiagnosticLevel::Error, m3));
                    assert(self.diagnostics@.map_values(|d: Diagnostic| diag_view(d))
                        =~= d2.map_values(|d: Diagnostic| diag_view(d)).push(
                        (DiagnosticLevel::Error, "compile.failed: "@ + ft@),
                    ));
                    self.trace.timing.total_ms = total_ms;
                    self.trace.final_error = Some(string_of(ft.as_str()));
                    RepairNext::Failed { error: AcosError::CompilerFailure { message: ft } }
                }
            },
        }
    }
}

} // verus!
