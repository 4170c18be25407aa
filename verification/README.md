# leo_zap

A property-based fuzzer and privacy-invariant checker for compiled Aleo
programs (`.aleo` instruction files), with its logic verified by Verus.

## Layout

- `src/` — the verified library:
  - `text.rs` — string helpers and their mathematical models;
  - `parser.rs` — the `.aleo` parser (`parse` is specified by a spec
    function over the program text);
  - `spec.rs` — invariant specifications: toggles, overrides, validation;
  - `value.rs`, `instruction.rs`, `symbolic.rs` — values, instructions and
    the symbolic execution of one instruction;
  - `generator.rs` — random inputs (through `rand`) and edge cases;
  - `invariants.rs` — the invariant checks run after each case;
  - `leo_runner.rs` — reading the output of `leo run` / `snarkvm run` and
    comparing it with the symbolic result;
  - `fuzzer.rs` — cases, the step-by-step fuzzing run, and the report;
  - `report.rs` — the layout of the terminal output, as styled segments;
  - `web.rs` — requests of the web dashboard.
- `tests/` — tests of the library.
- `app/` — the `leo-zap` command line and web dashboard: file and process
  I/O, painting the styled segments, pass rates, serde copies of the
  library's types.

## Runs

`FuzzConfig::runs` (`--runs` on the command line) is the number of random
input sets per function: a run over 3 functions with 100 runs has 300 cases.
All cases of a run must be countable in a `u32`; the command line refuses a
run with more (`FuzzRunner::runs_fit`).

## Reproducibility

Inputs are drawn from `rand`'s `StdRng` seeded with `FuzzConfig::seed`, so a
run with the same seed, contract and configuration draws the same inputs
(see the tests `test_deterministic_output` and `same_seed_same_report`). The
contracts state which seed the generator is made from (`InputGenerator::new`,
`FuzzRunner::start`); the draws themselves are opaque to the verifier.
