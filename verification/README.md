# acos

A cognitive runtime in library form: goals are compiled into CIR programs
(graphs of primitive invocations, sequences, conditionals, loops and retries),
the programs are validated, executed step by step, and their results verified.
The logic is written in Verus and proved against its contracts.

## Layout

- `src/` — the verified library.
  - `types`, `cir`, `error`, `traits`: the data model of tasks, programs and errors.
  - `plan`, `lower`, `lowered`: validation of plan IR, its deterministic
    lowering to CIR, and the proof that a valid plan's program passes every
    CIR validation stage, so a valid plan always compiles.
  - `cir`, `reach`, `contract`, `compiler`: structural, reachability and
    data-contract validation of CIR programs; JSON extraction from model replies.
  - `rule`, `workflow`: the rule-first compiler and the fixed-workflow helpers.
  - `expr`, `refs`, `text`, `json`: condition expressions, `${...}` references,
    text utilities and a JSON value type.
  - `runtime`: the executor's decisions (loop steps, the retry policy, reference
    resolution, recovery proposals and the bounded recovery driver).
  - `verify`: the structural and evidence verification layers (the semantic
    layer compares numbers as floating point and stands in app/).
  - `state`: an in-memory event and artifact store.
  - `plugin`, `csv`, `bench`, `probe`, `repair`, `baseline`, `llm`, `schema`:
    primitive descriptors, the CSV primitives' row cleaning and schema checks,
    benchmark judging and reporting, probe analysis, the bounded repair loop,
    the tool-loop baseline and LLM message shapes.
- `tests/` — tests run against the compiled library.
- `app/` — the command-line program: file, process and network I/O, the
  asynchronous executor loop, LLM clients, the benchmark and fixed-workflow
  drivers, serde copies of the library's types, and the floating-point
  checks.
