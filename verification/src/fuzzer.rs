//! The fuzz runner: for each selected function, cases of random inputs run
//! through the function body symbolically and checked against the
//! invariants; suspicious cases can be handed to `leo run` by the caller,
//! whose result is folded into the report.
use vstd::prelude::*;
use crate::text;
use crate::text::{chars_of, line_ranges, starts_with_at, substring, trim_at};
use crate::parser;
use crate::parser::{Contract, FunctionDef, Parser};
use crate::instruction;
use crate::instruction::{Instruction, InstructionView, parse_instruction, join, join_strings};
use crate::value;
use crate::value::{SymValue, ValueView};
use crate::symbolic;
use crate::symbolic::{SymbolicState, execute_instruction, texts};
use crate::invariants;
use crate::invariants::check_function_invariants;
use crate::spec::InvariantSpec;
use crate::leo_runner;
use crate::leo_runner::{LeoRunResult, MismatchKind, VerificationMismatch, compare_results};
use crate::generator::InputGenerator;

verus! {

// ============================================================================
// Function bodies
// ============================================================================

/// The header line that starts the body of function `name`.
pub open spec fn function_header(name: Seq<char>) -> Seq<char> {
    "function "@ + name + ":"@
}

/// The instructions of the lines `ls`, inside the body when `in_fn`.
/// Blank lines and `//` comments are skipped; a line that starts with
/// `header` starts the body; inside it, the next block header ends it.
pub open spec fn body_of(ls: Seq<Seq<char>>, header: Seq<char>, in_fn: bool) -> Seq<InstructionView>
    decreases ls.len(),
{
    if ls.len() == 0 {
        seq![]
    } else {
        let t = text::trim(ls[0]);
        let rest = ls.drop_first();
        if t.len() == 0 || text::starts_with(t, "//"@) {
            body_of(rest, header, in_fn)
        } else if text::starts_with(t, header) {
            body_of(rest, header, true)
        } else if !in_fn {
            body_of(rest, header, false)
        } else if parser::is_header(t) {
            seq![]
        } else {
            match instruction::instruction_of(t) {
                Some(i) => seq![i] + body_of(rest, header, true),
                None => body_of(rest, header, true),
            }
        }
    }
}

/// The instructions of the body of function `name` in `content`.
pub open spec fn body_instructions(content: Seq<char>, name: Seq<char>) -> Seq<InstructionView> {
    body_of(text::lines(content), function_header(name), false)
}

/// The views of a list of instructions.
pub open spec fn instructions_view(v: Seq<Instruction>) -> Seq<InstructionView> {
    v.map_values(|i: Instruction| i@)
}

/// Whether a trimmed line starts a block (`record`, `mapping`, `function`,
/// `finalize`, `constructor`, `interface`).
pub fn is_block_header(line: &str) -> (r: bool)
    ensures
        r == parser::is_header(line@),
{
    Parser::is_block_header(line)
}

/// The instructions of the body of function `func_name` in `content`.
pub fn extract_body(content: &str, func_name: &str) -> (r: Vec<Instruction>)
    ensures
        instructions_view(r@) == body_instructions(content@, func_name@),
{
    let v = chars_of(content);
    let ranges = line_ranges(&v);
    let ghost ls = text::lines(v@);
    let header = String::from_str("function ").concat(func_name).concat(":");
    let hv = chars_of(header.as_str());
    let mut instructions: Vec<Instruction> = Vec::new();
    let mut in_function = false;
    let mut i: usize = 0;
    assert(ls.skip(0) =~= ls);
    assert(instructions_view(instructions@) =~= Seq::<InstructionView>::empty());
    while i < ranges.len()
        invariant
            i <= ranges@.len(),
            ranges@.len() == ls.len(),
            ls == text::lines(v@),
            v@ == content@,
            hv@ == function_header(func_name@),
            forall|k: int|
                0 <= k < ranges@.len() ==> (#[trigger] ranges@[k]).0 <= ranges@[k].1 <= v@.len()
                    && v@.subrange(ranges@[k].0 as int, ranges@[k].1 as int) == ls[k],
            body_instructions(content@, func_name@) == instructions_view(instructions@) + body_of(
                ls.skip(i as int),
                hv@,
                in_function,
            ),
        decreases ranges@.len() - i,
    {
        let (a, b) = ranges[i];
        assert(ranges@[i as int] == (a, b));
        assert(ls.skip(i as int)[0] == ls[i as int]);
        assert(ls.skip(i as int).drop_first() =~= ls.skip(i + 1));
        let (ta, tb) = trim_at(&v, a, b);
        if ta == tb || starts_with_at(&v, ta, tb, &chars_of("//")) {
        } else if starts_with_at(&v, ta, tb, &hv) {
            in_function = true;
        } else if !in_function {
        } else {
            let trimmed = substring(content, ta, tb);
            if is_block_header(trimmed.as_str()) {
                assert(instructions_view(instructions@) + Seq::<InstructionView>::empty() =~= instructions_view(instructions@));
                return instructions;
            }
            match parse_instruction(trimmed.as_str()) {
                Some(inst) => {
                    let ghost before = instructions_view(instructions@);
                    instructions.push(inst);
                    assert(instructions_view(instructions@) =~= before.push(inst@));
                    assert(before.push(inst@) + body_of(ls.skip(i + 1), hv@, true) =~= before + (seq![inst@] + body_of(ls.skip(i + 1), hv@, true)));
                },
                None => {},
            }
        }
        i = i + 1;
    }
    assert(ls.skip(ranges@.len() as int) =~= Seq::<Seq<char>>::empty());
    assert(instructions_view(instructions@) + Seq::<InstructionView>::empty() =~= instructions_view(instructions@));
    instructions
}

// ============================================================================
// Configuration, results and reports
// ============================================================================

/// Configuration of a fuzzing run.
#[derive(Debug, Clone)]
pub struct FuzzConfig {
    /// Number of random input sets per function.
    pub runs: u32,
    /// Seed of the random inputs.
    pub seed: u64,
    /// Fuzz only the function with this name.
    pub function_filter: Option<String>,
    /// Mix edge cases into the inputs.
    pub include_edge_cases: bool,
    /// An invariant specification to check against.
    pub spec: Option<InvariantSpec>,
    /// Leo project for verification with `leo run` (none: symbolic only).
    pub project_dir: Option<String>,
    /// Verify every case with `leo run`, not only suspicious ones.
    pub verify_all_with_leo: bool,
    /// Leo source project, compiled before the run.
    pub source_dir: Option<String>,
}

impl Default for FuzzConfig {
    /// 1000 runs, seed 0, all functions, edge cases included, no
    /// specification, no verification with leo.
    fn default() -> (r: Self)
        ensures
            r.runs == 1000,
            r.seed == 0,
            r.function_filter is None,
            r.include_edge_cases,
            r.spec is None,
            r.project_dir is None,
            !r.verify_all_with_leo,
            r.source_dir is None,
    {
        FuzzConfig {
            runs: 1000,
            seed: 0,
            function_filter: None,
            include_edge_cases: true,
            spec: None,
            project_dir: None,
            verify_all_with_leo: false,
            source_dir: None,
        }
    }
}

/// The outcome of one case.
#[derive(Debug, Clone)]
pub enum FuzzOutcome {
    /// No issue found.
    Pass,
    /// A violation (underflow, balance mismatch, ...).
    Violation { invariant_name: String, detail: String },
    /// An error at instruction level.
    Error { message: String },
}

pub enum OutcomeView {
    Pass,
    Violation { invariant_name: Seq<char>, detail: Seq<char> },
    Error { message: Seq<char> },
}

impl View for FuzzOutcome {
    type V = OutcomeView;

    open spec fn view(&self) -> OutcomeView {
        match self {
            FuzzOutcome::Pass => OutcomeView::Pass,
            FuzzOutcome::Violation { invariant_name, detail } => OutcomeView::Violation {
                invariant_name: invariant_name@,
                detail: detail@,
            },
            FuzzOutcome::Error { message } => OutcomeView::Error { message: message@ },
        }
    }
}

impl FuzzOutcome {
    pub fn is_pass(&self) -> (r: bool)
        ensures
            r == (self@ is Pass),
    {
        match self {
            FuzzOutcome::Pass => true,
            _ => false,
        }
    }

    pub fn is_violation(&self) -> (r: bool)
        ensures
            r == (self@ is Violation),
    {
        match self {
            FuzzOutcome::Violation { .. } => true,
            _ => false,
        }
    }
}

/// One case that did not pass.
#[derive(Debug, Clone)]
pub struct FuzzResult {
    /// The function fuzzed.
    pub function: String,
    /// The inputs, as `(register, value)` pairs.
    pub inputs: Vec<(String, SymValue)>,
    /// The inputs as Leo writes them.
    pub input_strings: Vec<String>,
    /// What happened.
    pub outcome: FuzzOutcome,
}

pub struct ResultView {
    pub function: Seq<char>,
    pub inputs: Seq<(Seq<char>, ValueView)>,
    pub input_strings: Seq<Seq<char>>,
    pub outcome: OutcomeView,
}

impl View for FuzzResult {
    type V = ResultView;

    open spec fn view(&self) -> ResultView {
        ResultView {
            function: self.function@,
            inputs: value::fields_view(self.inputs@),
            input_strings: texts(self.input_strings@),
            outcome: self.outcome@,
        }
    }
}

/// The views of a list of results.
pub open spec fn results_view(v: Seq<FuzzResult>) -> Seq<ResultView> {
    v.map_values(|r: FuzzResult| r@)
}

/// The report of a fuzzing run.
#[derive(Debug, Clone)]
pub struct FuzzReport {
    pub config: FuzzConfig,
    pub total_runs: u32,
    pub passed: u32,
    pub violations: u32,
    pub errors: u32,
    /// Per function: name, cases, passed, violations.
    pub per_function: Vec<(String, u32, u32, u32)>,
    /// Every case that did not pass.
    pub violation_results: Vec<FuzzResult>,
    /// Runs of `leo run` that gave a result.
    pub zk_verifications: u32,
    /// Of those, the runs that generated a proof.
    pub zk_proofs_generated: u32,
    /// Cases where symbolic execution and `leo run` disagreed.
    pub zk_mismatches: u32,
    /// The disagreements.
    pub zk_mismatch_details: Vec<VerificationMismatch>,
}

// ============================================================================
// One case
// ============================================================================

/// The registers and violations after running `insts` in turn.
pub open spec fn run_body(
    insts: Seq<InstructionView>,
    regs: Seq<(Seq<char>, ValueView)>,
    func: Seq<char>,
) -> (Seq<(Seq<char>, ValueView)>, Seq<Seq<char>>)
    decreases insts.len(),
{
    if insts.len() == 0 {
        (regs, seq![])
    } else {
        let before = run_body(insts.drop_last(), regs, func);
        let after = symbolic::step(insts.last(), before.0, func);
        (after.0, before.1 + after.1)
    }
}

/// The violations of a case of `f` with `inputs`: those of running its
/// body from the inputs, then those of the invariant checks on the registers.
pub open spec fn case_violations(
    f: parser::FunctionView,
    content: Seq<char>,
    spec: Option<InvariantSpec>,
    inputs: Seq<(Seq<char>, ValueView)>,
) -> Seq<Seq<char>> {
    let run = run_body(body_instructions(content, f.name), symbolic::assign_all(seq![], inputs), f.name);
    run.1 + invariants::invariant_violations(f, run.0, spec)
}

/// A case run symbolically, before any verification with leo.
#[derive(Debug)]
pub struct FuzzCase {
    /// The inputs, as `(register, value)` pairs.
    pub inputs: Vec<(String, SymValue)>,
    /// The inputs as Leo writes them.
    pub input_strings: Vec<String>,
    /// The violations found.
    pub violations: Vec<String>,
}

/// The leo texts of the inputs.
pub open spec fn input_texts(inputs: Seq<(Seq<char>, ValueView)>) -> Seq<Seq<char>> {
    inputs.map_values(|e: (Seq<char>, ValueView)| value::leo_text(e.1))
}

/// The texts of the inputs as Leo writes them.
fn leo_strings(inputs: &Vec<(String, SymValue)>) -> (r: Vec<String>)
    ensures
        texts(r@) == input_texts(value::fields_view(inputs@)),
{
    proof {
        value::lemma_fields_view(inputs@);
    }
    let mut out: Vec<String> = Vec::new();
    let mut i: usize = 0;
    while i < inputs.len()
        invariant
            i <= inputs@.len(),
            value::fields_view(inputs@).len() == inputs@.len(),
            forall|k: int| 0 <= k < inputs@.len() ==> #[trigger] value::fields_view(inputs@)[k] == (inputs@[k].0@, inputs@[k].1@),
            texts(out@) == input_texts(value::fields_view(inputs@)).take(i as int),
        decreases inputs@.len() - i,
    {
        let t = inputs[i].1.to_leo_string();
        let ghost before = texts(out@);
        out.push(t);
        assert(texts(out@) =~= before.push(t@));
        assert(texts(out@) =~= input_texts(value::fields_view(inputs@)).take(i + 1));
        i = i + 1;
    }
    assert(input_texts(value::fields_view(inputs@)).take(inputs@.len() as int) =~= input_texts(value::fields_view(inputs@)));
    out
}

/// A copy of a list of named values.
fn copy_entries(v: &Vec<(String, SymValue)>) -> (r: Vec<(String, SymValue)>)
    ensures
        value::fields_view(r@) == value::fields_view(v@),
{
    let mut out: Vec<(String, SymValue)> = Vec::new();
    let mut i: usize = 0;
    assert(v@.take(0) =~= Seq::<(String, SymValue)>::empty());
    while i < v.len()
        invariant
            i <= v@.len(),
            value::fields_view(out@) == value::fields_view(v@.take(i as int)),
        decreases v@.len() - i,
    {
        let e = (v[i].0.clone(), v[i].1.duplicate());
        proof {
            value::lemma_fields_view_push(out@, e);
            assert(v@.take(i + 1).drop_last() =~= v@.take(i as int));
        }
        out.push(e);
        i = i + 1;
    }
    assert(v@.take(v@.len() as int) =~= v@);
    out
}

/// A copy of a list of strings.
fn copy_strings(v: &Vec<String>) -> (r: Vec<String>)
    ensures
        texts(r@) == texts(v@),
{
    let mut out: Vec<String> = Vec::new();
    let mut i: usize = 0;
    while i < v.len()
        invariant
            i <= v@.len(),
            texts(out@) == texts(v@).take(i as int),
        decreases v@.len() - i,
    {
        let c = v[i].clone();
        let ghost before = texts(out@);
        out.push(c);
        assert(texts(out@) =~= before.push(v@[i as int]@));
        assert(texts(out@) =~= texts(v@).take(i + 1));
        i = i + 1;
    }
    assert(texts(v@).take(v@.len() as int) =~= texts(v@));
    out
}

/// What a case adds to the tallies of a run.
pub struct CaseOutcome {
    /// Counted as passed (otherwise as a violation).
    pub passed: bool,
    /// Appended to the violation results.
    pub results: Vec<FuzzResult>,
    /// A result of `leo run` was folded in.
    pub verified: bool,
    /// That run generated a proof.
    pub proof_generated: bool,
    /// How that run disagreed with symbolic execution.
    pub mismatches: Vec<VerificationMismatch>,
}

/// The result recorded for a case whose symbolic execution found `violations`.
pub open spec fn symbolic_result(
    function: Seq<char>,
    inputs: Seq<(Seq<char>, ValueView)>,
    strings: Seq<Seq<char>>,
    violations: Seq<Seq<char>>,
) -> ResultView {
    ResultView {
        function,
        inputs,
        input_strings: strings,
        outcome: OutcomeView::Violation { invariant_name: "symbolic"@, detail: join(violations, "; "@) },
    }
}

/// The result recorded for a mismatch with `leo run`.
pub open spec fn mismatch_result(
    function: Seq<char>,
    inputs: Seq<(Seq<char>, ValueView)>,
    strings: Seq<Seq<char>>,
    m: (MismatchKind, Seq<char>),
) -> ResultView {
    ResultView {
        function,
        inputs,
        input_strings: strings,
        outcome: OutcomeView::Violation {
            invariant_name: "zk_mismatch:"@ + leo_runner::kind_name(m.0),
            detail: m.1,
        },
    }
}

/// The mismatches of a case with the result of `leo run`, if there is one.
pub open spec fn case_mismatches(violations: Seq<Seq<char>>, leo: Option<LeoRunResult>) -> Seq<(MismatchKind, Seq<char>)> {
    match leo {
        Some(l) => leo_runner::comparison(
            violations.len() == 0,
            violations,
            l.exit_code,
            l.stderr@,
            l.proof_generated,
        ),
        None => seq![],
    }
}

/// What a case comes to. Without mismatches, it passes when symbolic
/// execution found nothing, and otherwise records one `symbolic` result
/// with the violations joined by `; `. With mismatches, it counts as a
/// violation and records one result per mismatch.
pub open spec fn case_results(
    function: Seq<char>,
    inputs: Seq<(Seq<char>, ValueView)>,
    strings: Seq<Seq<char>>,
    violations: Seq<Seq<char>>,
    leo: Option<LeoRunResult>,
) -> (bool, Seq<ResultView>) {
    let ms = case_mismatches(violations, leo);
    if ms.len() > 0 {
        (false, ms.map_values(|m: (MismatchKind, Seq<char>)| mismatch_result(function, inputs, strings, m)))
    } else if violations.len() == 0 {
        (true, seq![])
    } else {
        (false, seq![symbolic_result(function, inputs, strings, violations)])
    }
}

/// The view of an optional reference to a leo result.
pub open spec fn leo_of(leo: Option<&LeoRunResult>) -> Option<LeoRunResult> {
    match leo {
        Some(l) => Some(*l),
        None => None,
    }
}

/// What a case of `function` comes to, given the result of `leo run` on
/// its inputs when there is one.
pub fn case_outcome(function: &String, case: &FuzzCase, leo: Option<&LeoRunResult>) -> (r: CaseOutcome)
    ensures
        (r.passed, results_view(r.results@)) == case_results(
            function@,
            value::fields_view(case.inputs@),
            texts(case.input_strings@),
            texts(case.violations@),
            leo_of(leo),
        ),
        r.verified == leo is Some,
        r.proof_generated == (match leo {
            Some(l) => l.proof_generated,
            None => false,
        }),
        r.mismatches@.map_values(|m: VerificationMismatch| m@) == case_mismatches(
            texts(case.violations@),
            leo_of(leo),
        ),
{
    let symbolic_pass = case.violations.len() == 0;
    let ghost iv = value::fields_view(case.inputs@);
    let ghost sv = texts(case.input_strings@);
    let ghost vv = texts(case.violations@);
    let mut results: Vec<FuzzResult> = Vec::new();
    let (verified, proof_generated, mismatches) = match leo {
        Some(l) => (true, l.proof_generated, compare_results(symbolic_pass, case.violations.as_slice(), l)),
        None => (false, false, Vec::new()),
    };
    let ghost mv = mismatches@.map_values(|m: VerificationMismatch| m@);
    assert(mv =~= case_mismatches(vv, leo_of(leo)));
    if mismatches.len() > 0 {
        let mut k: usize = 0;
        assert(results_view(results@) =~= mv.take(0).map_values(|m: (MismatchKind, Seq<char>)| mismatch_result(function@, iv, sv, m)));
        while k < mismatches.len()
            invariant
                k <= mismatches@.len(),
                mv == mismatches@.map_values(|m: VerificationMismatch| m@),
                iv == value::fields_view(case.inputs@),
                sv == texts(case.input_strings@),
                results_view(results@) == mv.take(k as int).map_values(
                    |m: (MismatchKind, Seq<char>)| mismatch_result(function@, iv, sv, m),
                ),
            decreases mismatches@.len() - k,
        {
            let m = &mismatches[k];
            let name = String::from_str("zk_mismatch:").concat(m.kind.name().as_str());
            let res = FuzzResult {
                function: function.clone(),
                inputs: copy_entries(&case.inputs),
                input_strings: copy_strings(&case.input_strings),
                outcome: FuzzOutcome::Violation { invariant_name: name, detail: m.detail.clone() },
            };
            let ghost before = results_view(results@);
            results.push(res);
            assert(results_view(results@) =~= before.push(res@));
            assert(mv.take(k + 1) =~= mv.take(k as int).push(mv[k as int]));
            assert(results_view(results@) =~= mv.take(k + 1).map_values(
                |m: (MismatchKind, Seq<char>)| mismatch_result(function@, iv, sv, m),
            ));
            k = k + 1;
        }
        assert(mv.take(mismatches@.len() as int) =~= mv);
        return CaseOutcome { passed: false, results, verified, proof_generated, mismatches };
    }
    if !symbolic_pass {
        let detail = join_strings(case.violations.as_slice(), "; ");
        let res = FuzzResult {
            function: function.clone(),
            inputs: copy_entries(&case.inputs),
            input_strings: copy_strings(&case.input_strings),
            outcome: FuzzOutcome::Violation { invariant_name: String::from_str("symbolic"), detail },
        };
        results.push(res);
        assert(results_view(results@) =~= seq![symbolic_result(function@, iv, sv, vv)]);
    } else {
        assert(results_view(results@) =~= Seq::<ResultView>::empty());
    }
    CaseOutcome { passed: symbolic_pass, results, verified, proof_generated, mismatches }
}

/// Runs the body of `func` from `inputs` and checks the invariants: the
/// symbolic part of a case.
pub fn evaluate_case(
    func: &FunctionDef,
    contract: &Contract,
    content: &str,
    spec: Option<&InvariantSpec>,
    inputs: Vec<(String, SymValue)>,
) -> (r: FuzzCase)
    ensures
        r.inputs == inputs,
        texts(r.input_strings@) == input_texts(value::fields_view(inputs@)),
        texts(r.violations@) == case_violations(
            func@,
            content@,
            invariants::spec_of(spec),
            value::fields_view(inputs@),
        ),
{
    let input_strings = leo_strings(&inputs);
    let body = FuzzRunner::extract_instructions_from_content(content, func.name.as_str());
    let ghost bv = instructions_view(body@);
    let mut state = SymbolicState::with_inputs(copy_entries(&inputs));
    let ghost regs0 = state.regs();
    let mut violations: Vec<String> = Vec::new();
    let mut k: usize = 0;
    assert(bv.take(0) =~= Seq::<InstructionView>::empty());
    assert(texts(violations@) =~= Seq::<Seq<char>>::empty());
    while k < body.len()
        invariant
            k <= body@.len(),
            bv == instructions_view(body@),
            state.wf(),
            state.regs() == run_body(bv.take(k as int), regs0, func@.name).0,
            texts(violations@) == run_body(bv.take(k as int), regs0, func@.name).1,
        decreases body@.len() - k,
    {
        assert(bv.take(k + 1).drop_last() =~= bv.take(k as int));
        assert(bv.take(k + 1).last() == body@[k as int]@);
        let found = execute_instruction(&body[k], &mut state, func.name.as_str());
        let ghost before = texts(violations@);
        let mut found = found;
        let ghost fv = texts(found@);
        violations.append(&mut found);
        assert(texts(violations@) =~= before + fv);
        k = k + 1;
    }
    assert(bv.take(body@.len() as int) =~= bv);
    let ghost before = texts(violations@);
    match check_function_invariants(func, &state, contract, spec) {
        Some(v) => {
            let mut v = v;
            let ghost vv = texts(v@);
            violations.append(&mut v);
            assert(texts(violations@) =~= before + vv);
        },
        None => {
            assert(before + Seq::<Seq<char>>::empty() =~= before);
        },
    }
    FuzzCase { inputs, input_strings, violations }
}

// ============================================================================
// The runner
// ============================================================================

/// The positions of the functions that a run covers: those with the
/// filter's name, or all of them.
pub open spec fn selected(fs: Seq<parser::FunctionView>, filter: Option<String>) -> Seq<int>
    decreases fs.len(),
{
    if fs.len() == 0 {
        seq![]
    } else {
        let prev = selected(fs.drop_last(), filter);
        let keep = match filter {
            Some(f) => fs.last().name == f@,
            None => true,
        };
        if keep {
            prev.push(fs.len() - 1)
        } else {
            prev
        }
    }
}

/// The cases of `k` functions, each fuzzed `runs` times.
pub open spec fn cases_of(runs: u32, k: int) -> int {
    k * runs
}

/// Fewer functions take no more cases, and one more function adds `runs`.
proof fn lemma_cases_of(runs: u32, k: int, n: int)
    requires
        0 <= k <= n,
    ensures
        0 <= cases_of(runs, k) <= cases_of(runs, n),
        cases_of(runs, k + 1) == cases_of(runs, k) + runs,
{
    assert(0 <= k * runs <= n * runs) by (nonlinear_arith)
        requires
            0 <= k <= n,
            0 <= runs,
    ;
    assert((k + 1) * runs == k * runs + runs) by (nonlinear_arith);
}

/// The fuzzing orchestrator.
pub struct FuzzRunner {
    pub config: FuzzConfig,
    pub contract: Contract,
    /// The `.aleo` text, from which the function bodies are read.
    pub raw_content: String,
}

/// Some parameter of `f` has a type that mentions `record`.
pub open spec fn involves_record(f: parser::FunctionView) -> bool {
    mention_record(f.inputs) || mention_record(f.outputs)
}

/// Some parameter in `ps` has a type that mentions `record`.
pub open spec fn mention_record(ps: Seq<parser::ParamView>) -> bool {
    exists|i: int| 0 <= i < ps.len() && text::contains(#[trigger] ps[i].ty, "record"@)
}

/// Whether some input (or, with `outputs`, some output) of `func` has a
/// type that mentions `record`.
fn mentions_record(func: &FunctionDef, outputs: bool) -> (r: bool)
    ensures
        r == mention_record(if outputs { func@.outputs } else { func@.inputs }),
{
    let ps = if outputs {
        &func.outputs
    } else {
        &func.inputs
    };
    let ghost pv = if outputs {
        func@.outputs
    } else {
        func@.inputs
    };
    assert(pv =~= ps@.map_values(|p: parser::Param| p@));
    let mut i: usize = 0;
    while i < ps.len()
        invariant
            i <= ps@.len(),
            pv == ps@.map_values(|p: parser::Param| p@),
            pv == (if outputs {
                func@.outputs
            } else {
                func@.inputs
            }),
            forall|j: int| 0 <= j < i ==> !text::contains(#[trigger] pv[j].ty, "record"@),
        decreases ps@.len() - i,
    {
        let v = chars_of(ps[i].ty.as_str());
        let n = v.len();
        assert(v@.subrange(0, n as int) =~= v@);
        assert(pv[i as int] == ps@[i as int]@);
        if crate::text::find_at(&v, 0, n, &chars_of("record")).is_some() {
            assert(text::contains(pv[i as int].ty, "record"@));
            assert(mention_record(pv));
            return true;
        }
        i = i + 1;
    }
    false
}

impl FuzzRunner {
    /// A runner for `contract`, whose text is `raw_content`.
    pub fn new(config: FuzzConfig, contract: Contract, raw_content: String) -> (r: Self)
        ensures
            r.config == config,
            r.contract == contract,
            r.raw_content == raw_content,
    {
        FuzzRunner { config, contract, raw_content }
    }

    /// The functions covered, in contract order.
    pub open spec fn targets(self) -> Seq<int> {
        selected(self.contract@.functions, self.config.function_filter)
    }

    /// Whether a case of function `fi` goes to `leo run`: a project is
    /// configured, and all cases are verified, or this one found violations,
    /// or the function handles records.
    pub open spec fn verifies(self, fi: int, violations: Seq<Seq<char>>) -> bool {
        self.config.project_dir is Some && (self.config.verify_all_with_leo || violations.len() > 0
            || involves_record(self.contract@.functions[fi]))
    }

    /// The instructions of the body of function `func_name` in `content`.
    pub fn extract_instructions_from_content(content: &str, func_name: &str) -> (r: Vec<Instruction>)
        ensures
            instructions_view(r@) == body_instructions(content@, func_name@),
    {
        extract_body(content, func_name)
    }

    /// The positions of the functions covered, in contract order.
    pub fn target_functions(&self) -> (r: Vec<usize>)
        ensures
            r@.map_values(|i: usize| i as int) == self.targets(),
            forall|j: int| 0 <= j < r@.len() ==> r@[j] < self.contract@.functions.len(),
    {
        let ghost fv = self.contract@.functions;
        let mut out: Vec<usize> = Vec::new();
        let mut i: usize = 0;
        assert(fv.take(0) =~= Seq::<parser::FunctionView>::empty());
        assert(out@.map_values(|i: usize| i as int) =~= Seq::<int>::empty());
        while i < self.contract.functions.len()
            invariant
                i <= self.contract.functions@.len(),
                fv == self.contract@.functions,
                out@.map_values(|i: usize| i as int) == selected(fv.take(i as int), self.config.function_filter),
                forall|j: int| 0 <= j < out@.len() ==> out@[j] < i,
            decreases self.contract.functions@.len() - i,
        {
            assert(fv.take(i + 1).drop_last() =~= fv.take(i as int));
            assert(fv.take(i + 1).last() == self.contract.functions@[i as int]@);
            let keep = match &self.config.function_filter {
                Some(f) => crate::spec::same_text(self.contract.functions[i].name.as_str(), f.as_str()),
                None => true,
            };
            if keep {
                let ghost before = out@.map_values(|i: usize| i as int);
                out.push(i);
                assert(out@.map_values(|i: usize| i as int) =~= before.push(i as int));
            }
            i = i + 1;
        }
        assert(fv.take(self.contract.functions@.len() as int) =~= fv);
        out
    }

    /// Whether all the cases of a run (`runs` for each covered function)
    /// can be counted in a `u32`, as a run needs.
    pub fn runs_fit(&self) -> (r: bool)
        ensures
            r == (self.targets().len() * self.config.runs <= u32::MAX),
    {
        let n = self.target_functions().len();
        let runs = self.config.runs;
        assert((n as u128) * (runs as u128) <= 0xffff_ffff_ffff_ffff * 0xffff_ffffu128) by (nonlinear_arith)
            requires
                n <= 0xffff_ffff_ffff_ffff,
                runs <= 0xffff_ffff,
        ;
        (n as u128) * (runs as u128) <= 0xffff_ffff
    }

    /// Draws inputs for function `fi` and runs a case on them.
    pub fn run_case(&self, fi: usize, gen: &mut InputGenerator) -> (r: FuzzCase)
        requires
            fi < self.contract@.functions.len(),
            old(gen).settings().valid(),
        ensures
            final(gen).settings() == old(gen).settings(),
            final(gen).seed() == old(gen).seed(),
            value::fields_view(r.inputs@).len() == self.contract@.functions[fi as int].inputs.len(),
            forall|i: int|
                0 <= i < r.inputs@.len() ==> (#[trigger] r.inputs@[i]).0@ == self.contract@.functions[fi as int].inputs[i].register
                    && crate::generator::param_fits(
                    self.contract@.functions[fi as int].inputs[i].ty,
                    self.contract@.records,
                    r.inputs@[i].1@,
                ),
            texts(r.input_strings@) == input_texts(value::fields_view(r.inputs@)),
            texts(r.violations@) == case_violations(
                self.contract@.functions[fi as int],
                self.raw_content@,
                self.config.spec,
                value::fields_view(r.inputs@),
            ),
    {
        let func = &self.contract.functions[fi];
        let inputs = gen.generate_inputs(func, &self.contract.records);
        proof {
            value::lemma_fields_view(inputs@);
        }
        assert(self.contract.records@.map_values(|d: crate::parser::RecordDef| d@) =~= self.contract@.records);
        assert(func@ == self.contract@.functions[fi as int]);
        let spec_ref: Option<&InvariantSpec> = match &self.config.spec {
            Some(s) => Some(s),
            None => None,
        };
        let case = evaluate_case(func, &self.contract, self.raw_content.as_str(), spec_ref, inputs);
        proof {
            value::lemma_fields_view(case.inputs@);
        }
        case
    }

    /// Whether a case of function `fi` with these violations goes to `leo run`.
    pub fn should_verify_with_leo(&self, fi: usize, violations: &Vec<String>) -> (r: bool)
        requires
            fi < self.contract@.functions.len(),
        ensures
            r == self.verifies(fi as int, texts(violations@)),
    {
        let func = &self.contract.functions[fi];
        assert(func@ == self.contract@.functions[fi as int]);
        self.config.project_dir.is_some() && (self.config.verify_all_with_leo || violations.len() > 0
            || mentions_record(func, false) || mentions_record(func, true))
    }
}

// ============================================================================
// A fuzzing run, step by step
// ============================================================================

/// The cases of the per-function entries.
pub open spec fn sum_runs(pf: Seq<(String, u32, u32, u32)>) -> int
    decreases pf.len(),
{
    if pf.len() == 0 {
        0
    } else {
        sum_runs(pf.drop_last()) + pf.last().1
    }
}

/// The passed cases of the per-function entries.
pub open spec fn sum_passed(pf: Seq<(String, u32, u32, u32)>) -> int
    decreases pf.len(),
{
    if pf.len() == 0 {
        0
    } else {
        sum_passed(pf.drop_last()) + pf.last().2
    }
}

/// The violating cases of the per-function entries.
pub open spec fn sum_violations(pf: Seq<(String, u32, u32, u32)>) -> int
    decreases pf.len(),
{
    if pf.len() == 0 {
        0
    } else {
        sum_violations(pf.drop_last()) + pf.last().3
    }
}

/// Where a fuzzing run stands: the function being fuzzed, its tallies, a
/// case waiting for the result of `leo run`, and the report so far.
pub struct FuzzProgress {
    gen: InputGenerator,
    targets: Vec<usize>,
    position: usize,
    done: u32,
    func_passed: u32,
    func_violations: u32,
    pending: Option<FuzzCase>,
    total_runs: u32,
    passed: u32,
    violations: u32,
    per_function: Vec<(String, u32, u32, u32)>,
    violation_results: Vec<FuzzResult>,
    zk_verifications: u32,
    zk_proofs_generated: u32,
    zk_mismatches: u32,
    zk_mismatch_details: Vec<VerificationMismatch>,
}

/// What a step of a run asks for, or what it did.
pub enum FuzzStep {
    /// Run `leo run` on `function` with these inputs, and pass its result
    /// (if it gives one) to the next step.
    VerifyWithLeo { function: String, input_strings: Vec<String> },
    /// A case was recorded.
    Recorded(CaseRecord),
    /// Every case has been run; `FuzzRunner::finish` gives the report.
    Finished,
}

/// How a case went.
pub struct CaseRecord {
    /// The function fuzzed.
    pub function: String,
    /// Symbolic execution found no violation.
    pub symbolic_pass: bool,
    /// The violations, joined by `; ` (empty on a pass).
    pub detail: String,
    /// A result of `leo run` was folded in.
    pub verified: bool,
    /// That run generated a proof.
    pub proof_generated: bool,
    /// The first disagreement with `leo run`, if any.
    pub mismatch_detail: Option<String>,
    /// The case counted as passed.
    pub counted_pass: bool,
    /// The inputs of the case, as `(register, value)` pairs.
    pub inputs: Vec<(String, SymValue)>,
    /// The inputs as Leo writes them.
    pub input_strings: Vec<String>,
    /// The violations symbolic execution found.
    pub violations: Vec<String>,
}

/// What a recorded case comes to, given the result of `leo run` folded in
/// (if any): whether it counts as passed, and the results it adds.
pub open spec fn record_outcome(rec: CaseRecord, leo: Option<LeoRunResult>) -> (bool, Seq<ResultView>) {
    case_results(
        rec.function@,
        value::fields_view(rec.inputs@),
        texts(rec.input_strings@),
        texts(rec.violations@),
        leo,
    )
}

/// `c` is a case of function `fi` of the runner: its violations are those
/// that symbolic execution and the invariant checks find on its inputs,
/// and its input texts are those of its inputs.
pub open spec fn case_of(runner: FuzzRunner, fi: int, c: FuzzCase) -> bool {
    &&& texts(c.violations@) == case_violations(
        runner.contract@.functions[fi],
        runner.raw_content@,
        runner.config.spec,
        value::fields_view(c.inputs@),
    )
    &&& texts(c.input_strings@) == input_texts(value::fields_view(c.inputs@))
}

impl FuzzProgress {
    /// The progress belongs to `runner` and its tallies add up: each
    /// finished function has had its `runs` cases, split into passes and
    /// violations; the totals are the sums over the finished functions;
    /// verifications with leo are no more than the cases run, and proofs
    /// and mismatches no more than the verifications.
    pub closed spec fn wf(&self, runner: FuzzRunner) -> bool {
        let n = runner.targets().len() as int;
        let runs = runner.config.runs;
        let pf = self.per_function@;
        &&& self.targets@.map_values(|i: usize| i as int) == runner.targets()
        &&& forall|j: int| 0 <= j < self.targets@.len() ==> self.targets@[j] < runner.contract@.functions.len()
        &&& self.position <= n
        &&& pf.len() == self.position
        &&& forall|j: int|
            0 <= j < self.position ==> (#[trigger] pf[j]).0@ == runner.contract@.functions[runner.targets()[j]].name
                && pf[j].1 == runs && pf[j].2 + pf[j].3 == pf[j].1
        &&& cases_of(runs, n) <= u32::MAX
        &&& self.total_runs == cases_of(runs, self.position as int)
        &&& self.total_runs == sum_runs(pf)
        &&& self.passed == sum_passed(pf)
        &&& self.violations == sum_violations(pf)
        &&& self.passed + self.violations == self.total_runs
        &&& self.position < n ==> self.done <= runs
        &&& self.position == n ==> self.done == 0 && self.pending is None
        &&& self.func_passed + self.func_violations == self.done
        &&& self.pending is Some ==> self.done < runs
        &&& self.zk_proofs_generated <= self.zk_verifications
        &&& self.zk_mismatches <= self.zk_verifications
        &&& self.zk_verifications <= self.total_runs + self.done
        &&& self.gen.settings().valid()
        &&& match self.pending {
            Some(c) => runner.config.project_dir is Some && case_of(runner, runner.targets()[self.position as int], c),
            None => true,
        }
        &&& runner.config.project_dir is None ==> {
            &&& self.zk_verifications == 0
            &&& self.zk_proofs_generated == 0
            &&& self.zk_mismatches == 0
            &&& self.violation_results@.len() == self.violations + self.func_violations
        }
    }

    /// The position of the function being fuzzed among the covered ones.
    pub closed spec fn current(&self) -> int {
        self.position as int
    }

    /// The results recorded so far.
    pub closed spec fn results(&self) -> Seq<ResultView> {
        results_view(self.violation_results@)
    }

    /// A case waits for the result of `leo run`.
    pub closed spec fn waiting(&self) -> bool {
        self.pending is Some
    }

    /// Every case has been run.
    pub closed spec fn finished(&self) -> bool {
        self.position == self.targets@.len() && self.pending is None
    }

    /// Cases passed so far, in finished functions and the current one.
    pub closed spec fn passes(&self) -> int {
        self.passed + self.func_passed
    }

    /// Violating cases so far, in finished functions and the current one.
    pub closed spec fn failures(&self) -> int {
        self.violations + self.func_violations
    }

    /// Cases recorded so far, in finished functions and the current one.
    pub closed spec fn cases(&self) -> int {
        self.total_runs + self.done
    }

    /// The per-function entries of the finished functions.
    pub closed spec fn entries(&self) -> Seq<(String, u32, u32, u32)> {
        self.per_function@
    }

    /// The seed the inputs are drawn with.
    pub closed spec fn seed(&self) -> u64 {
        self.gen.seed()
    }

    /// Verifications with leo so far, and the proofs and mismatches among them.
    pub closed spec fn zk(&self) -> (u32, u32, u32) {
        (self.zk_verifications, self.zk_proofs_generated, self.zk_mismatches)
    }

    /// Cases passed so far, in finished functions and the current one.
    pub fn passed_so_far(&self) -> (r: u64)
        ensures
            r == self.passes(),
    {
        self.passed as u64 + self.func_passed as u64
    }

    /// Violating cases so far, in finished functions and the current one.
    pub fn violations_so_far(&self) -> (r: u64)
        ensures
            r == self.failures(),
    {
        self.violations as u64 + self.func_violations as u64
    }

    /// The per-function entries of the finished functions.
    pub fn finished_functions(&self) -> (r: &Vec<(String, u32, u32, u32)>)
        ensures
            r@ == self.entries(),
    {
        &self.per_function
    }

    /// Verifications with leo so far, and the proofs and mismatches among them.
    pub fn zk_counts(&self) -> (r: (u32, u32, u32))
        ensures
            r == self.zk(),
    {
        (self.zk_verifications, self.zk_proofs_generated, self.zk_mismatches)
    }
}

proof fn lemma_sums_push(pf: Seq<(String, u32, u32, u32)>, x: (String, u32, u32, u32))
    ensures
        sum_runs(pf.push(x)) == sum_runs(pf) + x.1,
        sum_passed(pf.push(x)) == sum_passed(pf) + x.2,
        sum_violations(pf.push(x)) == sum_violations(pf) + x.3,
{
    assert(pf.push(x).drop_last() =~= pf);
}

/// In every state of a run, each recorded case is counted once, as passed
/// or as a violation; verifications with leo are no more than the cases,
/// and proofs and mismatches no more than the verifications.
pub proof fn cases_counted_once(p: FuzzProgress, runner: FuzzRunner)
    requires
        p.wf(runner),
    ensures
        p.passes() + p.failures() == p.cases(),
        p.zk().0 <= p.cases(),
        p.zk().1 <= p.zk().0,
        p.zk().2 <= p.zk().0,
{
}

/// A case of function `fi` goes to `leo run` exactly when a project is
/// configured and either every case is verified, or the case found
/// violations, or some input or output type of the function mentions
/// `record`.
pub proof fn verification_choice(runner: FuzzRunner, fi: int, violations: Seq<Seq<char>>)
    requires
        0 <= fi < runner.contract@.functions.len(),
    ensures
        runner.verifies(fi, violations) <==> (runner.config.project_dir is Some && (runner.config.verify_all_with_leo
            || violations.len() > 0 || (exists|i: int|
            0 <= i < runner.contract@.functions[fi].inputs.len() && text::contains(
                #[trigger] runner.contract@.functions[fi].inputs[i].ty,
                "record"@,
            )) || (exists|i: int|
            0 <= i < runner.contract@.functions[fi].outputs.len() && text::contains(
                #[trigger] runner.contract@.functions[fi].outputs[i].ty,
                "record"@,
            )))),
{
}

impl FuzzRunner {
    /// A run at its start: no case run yet, inputs seeded with the
    /// configured seed.
    pub fn start(&self) -> (r: FuzzProgress)
        requires
            self.targets().len() * self.config.runs <= u32::MAX,
        ensures
            r.wf(*self),
            r.cases() == 0,
            r.current() == 0,
            r.entries() == Seq::<(String, u32, u32, u32)>::empty(),
            r.results() == Seq::<ResultView>::empty(),
            r.zk() == (0u32, 0u32, 0u32),
            !r.waiting(),
            r.seed() == self.config.seed,
    {
        let targets = self.target_functions();
        let p = FuzzProgress {
            gen: InputGenerator::new(self.config.seed),
            targets,
            position: 0,
            done: 0,
            func_passed: 0,
            func_violations: 0,
            pending: None,
            total_runs: 0,
            passed: 0,
            violations: 0,
            per_function: Vec::new(),
            violation_results: Vec::new(),
            zk_verifications: 0,
            zk_proofs_generated: 0,
            zk_mismatches: 0,
            zk_mismatch_details: Vec::new(),
        };
        assert(p.targets@.map_values(|i: usize| i as int) == self.targets());
        p
    }

    /// Folds a case of the current function into the tallies.
    fn apply_case(&self, p: &mut FuzzProgress, case: FuzzCase, leo: Option<&LeoRunResult>) -> (rec: CaseRecord)
        requires
            old(p).wf(*self),
            old(p).pending is None,
            old(p).position < old(p).targets@.len(),
            old(p).done < self.config.runs,
            case_of(*self, self.targets()[old(p).position as int], case),
            self.config.project_dir is None ==> leo is None,
        ensures
            final(p).wf(*self),
            final(p).position == old(p).position,
            final(p).done == old(p).done + 1,
            final(p).seed() == old(p).seed(),
            rec.function@ == self.contract@.functions[self.targets()[old(p).position as int]].name,
            rec.inputs == case.inputs,
            rec.input_strings == case.input_strings,
            rec.violations == case.violations,
            rec.counted_pass == record_outcome(rec, leo_of(leo)).0,
            final(p).results() == old(p).results() + record_outcome(rec, leo_of(leo)).1,
            final(p).pending is None,
            final(p).cases() == old(p).cases() + 1,
            final(p).passes() == old(p).passes() + (if rec.counted_pass { 1int } else { 0int }),
            final(p).failures() == old(p).failures() + (if rec.counted_pass { 0int } else { 1int }),
            rec.verified == leo is Some,
            final(p).zk().0 == old(p).zk().0 + (if rec.verified { 1int } else { 0int }),
            final(p).zk().1 == old(p).zk().1 + (if rec.proof_generated { 1int } else { 0int }),
            final(p).zk().2 == old(p).zk().2 + (if rec.mismatch_detail is Some { 1int } else { 0int }),
            rec.symbolic_pass == (case.violations@.len() == 0),
            rec.detail@ == join(texts(case.violations@), "; "@),
    {
        let fi = p.targets[p.position];
        assert(self.targets()[p.position as int] == fi as int);
        let name = &self.contract.functions[fi].name;
        let outcome = case_outcome(name, &case, leo);
        let ghost before = results_view(p.violation_results@);
        let ghost n = self.targets().len() as int;
        proof {
            assert(self.targets().len() == p.targets@.len());
            lemma_cases_of(self.config.runs, p.position as int, n);
            lemma_cases_of(self.config.runs, p.position as int + 1, n);
        }
        if outcome.passed {
            p.func_passed = p.func_passed + 1;
        } else {
            p.func_violations = p.func_violations + 1;
        }
        p.done = p.done + 1;
        if outcome.verified {
            p.zk_verifications = p.zk_verifications + 1;
            if outcome.proof_generated {
                p.zk_proofs_generated = p.zk_proofs_generated + 1;
            }
        }
        let mismatch_detail = if outcome.mismatches.len() > 0 {
            Some(outcome.mismatches[0].detail.clone())
        } else {
            None
        };
        if outcome.mismatches.len() > 0 {
            assert(leo is Some);
            p.zk_mismatches = p.zk_mismatches + 1;
        }
        let CaseOutcome { passed, results, verified, proof_generated, mismatches } = outcome;
        let mut results = results;
        let mut mismatches = mismatches;
        let ghost added = results_view(results@);
        p.violation_results.append(&mut results);
        assert(results_view(p.violation_results@) =~= before + added);
        p.zk_mismatch_details.append(&mut mismatches);
        let symbolic_pass = case.violations.len() == 0;
        let detail = join_strings(case.violations.as_slice(), "; ");
        let FuzzCase { inputs, input_strings, violations } = case;
        CaseRecord {
            function: name.clone(),
            symbolic_pass,
            detail,
            verified,
            proof_generated,
            mismatch_detail,
            counted_pass: passed,
            inputs,
            input_strings,
            violations,
        }
    }

    /// Closes the current function: records its entry and adds its tallies
    /// to the totals.
    fn close_function(&self, p: &mut FuzzProgress)
        requires
            old(p).wf(*self),
            old(p).pending is None,
            old(p).position < old(p).targets@.len(),
            old(p).done == self.config.runs,
        ensures
            final(p).wf(*self),
            final(p).position == old(p).position + 1,
            final(p).pending is None,
            final(p).seed() == old(p).seed(),
            final(p).cases() == old(p).cases(),
            final(p).passes() == old(p).passes(),
            final(p).failures() == old(p).failures(),
            final(p).zk() == old(p).zk(),
            final(p).results() == old(p).results(),
    {
        let ghost n = self.targets().len() as int;
        proof {
            assert(self.targets().len() == p.targets@.len());
            lemma_cases_of(self.config.runs, p.position as int, n);
            lemma_cases_of(self.config.runs, p.position as int + 1, n);
        }
        assert(p.position < p.targets.len());
        let fi = p.targets[p.position];
        assert(self.targets()[p.position as int] == fi as int);
        let entry = (self.contract.functions[fi].name.clone(), p.done, p.func_passed, p.func_violations);
        proof {
            lemma_sums_push(p.per_function@, entry);
        }
        p.per_function.push(entry);
        p.total_runs = p.total_runs + p.done;
        p.passed = p.passed + p.func_passed;
        p.violations = p.violations + p.func_violations;
        p.position = p.position + 1;
        p.done = 0;
        p.func_passed = 0;
        p.func_violations = 0;
        assert(forall|j: int| 0 <= j < old(p).position ==> p.per_function@[j] == old(p).per_function@[j]);
    }

    /// One step of a run. A case waiting for `leo run` is recorded with
    /// `leo` (the result of that run, if it gave one); otherwise the next
    /// case is run, and either recorded or handed out for verification with
    /// `leo run`. Functions whose cases are all done are closed on the way.
    pub fn step(&self, p: &mut FuzzProgress, leo: Option<LeoRunResult>) -> (r: FuzzStep)
        requires
            old(p).wf(*self),
        ensures
            final(p).wf(*self),
            r is Finished <==> final(p).finished(),
            r is VerifyWithLeo <==> final(p).waiting(),
            final(p).seed() == old(p).seed(),
            match r {
                FuzzStep::Recorded(rec) => {
                    &&& final(p).cases() == old(p).cases() + 1
                    &&& final(p).passes() == old(p).passes() + (if rec.counted_pass { 1int } else { 0int })
                    &&& final(p).failures() == old(p).failures() + (if rec.counted_pass { 0int } else { 1int })
                    &&& (rec.verified <==> old(p).waiting() && leo is Some)
                    &&& final(p).zk().0 == old(p).zk().0 + (if rec.verified { 1int } else { 0int })
                    &&& final(p).zk().1 == old(p).zk().1 + (if rec.proof_generated { 1int } else { 0int })
                    &&& final(p).zk().2 == old(p).zk().2 + (if rec.mismatch_detail is Some { 1int } else { 0int })
                    &&& final(p).current() < self.targets().len()
                    &&& rec.function@ == self.contract@.functions[self.targets()[final(p).current()]].name
                    &&& texts(rec.violations@) == case_violations(
                        self.contract@.functions[self.targets()[final(p).current()]],
                        self.raw_content@,
                        self.config.spec,
                        value::fields_view(rec.inputs@),
                    )
                    &&& texts(rec.input_strings@) == input_texts(value::fields_view(rec.inputs@))
                    &&& rec.counted_pass == record_outcome(rec, if old(p).waiting() { leo } else { None }).0
                    &&& (!old(p).waiting() ==> !self.verifies(self.targets()[final(p).current()], texts(rec.violations@)))
                    &&& final(p).results() == old(p).results() + record_outcome(
                        rec,
                        if old(p).waiting() { leo } else { None },
                    ).1
                },
                FuzzStep::VerifyWithLeo { function, .. } => {
                    &&& self.config.project_dir is Some
                    &&& final(p).current() < self.targets().len()
                    &&& function@ == self.contract@.functions[self.targets()[final(p).current()]].name
                    &&& final(p).cases() == old(p).cases()
                    &&& final(p).passes() == old(p).passes()
                    &&& final(p).failures() == old(p).failures()
                    &&& final(p).zk() == old(p).zk()
                    &&& final(p).results() == old(p).results()
                },
                FuzzStep::Finished => {
                    &&& final(p).cases() == old(p).cases()
                    &&& final(p).passes() == old(p).passes()
                    &&& final(p).failures() == old(p).failures()
                    &&& final(p).zk() == old(p).zk()
                    &&& final(p).results() == old(p).results()
                },
            },
    {
        let n = p.targets.len();
        let ghost cases0 = p.cases();
        let ghost passes0 = p.passes();
        let ghost failures0 = p.failures();
        let ghost zk0 = p.zk();
        let ghost results0 = p.results();
        proof {
            assert(self.targets().len() == p.targets@.len());
        }
        if p.pending.is_some() {
            let case = match p.pending.take() {
                Some(c) => c,
                None => {
                    return FuzzStep::Finished;
                },
            };
            let leo_ref = leo.as_ref();
            assert(leo_of(leo_ref) == leo);
            let rec = self.apply_case(p, case, leo_ref);
            return FuzzStep::Recorded(rec);
        }
        loop
            invariant
                p.wf(*self),
                p.pending is None,
                n == p.targets@.len(),
                n == self.targets().len(),
                p.cases() == cases0,
                p.passes() == passes0,
                p.failures() == failures0,
                p.zk() == zk0,
                cases0 == old(p).cases(),
                passes0 == old(p).passes(),
                failures0 == old(p).failures(),
                zk0 == old(p).zk(),
                !old(p).waiting(),
                p.results() == results0,
                results0 == old(p).results(),
                p.seed() == old(p).seed(),
            decreases n - p.position,
        {
            if p.position >= n {
                return FuzzStep::Finished;
            }
            if p.done >= self.config.runs {
                self.close_function(p);
            } else {
                let fi = p.targets[p.position];
                assert(self.targets()[p.position as int] == fi as int);
                let case = self.run_case(fi, &mut p.gen);
                assert(case_of(*self, fi as int, case));
                if self.should_verify_with_leo(fi, &case.violations) {
                    let function = self.contract.functions[fi].name.clone();
                    let input_strings = copy_strings(&case.input_strings);
                    p.pending = Some(case);
                    return FuzzStep::VerifyWithLeo { function, input_strings };
                }
                let rec = self.apply_case(p, case, None);
                assert(leo_of(None) == None::<LeoRunResult>);
                return FuzzStep::Recorded(rec);
            }
        }
    }

    /// The report of the run: the tallies of the progress, with this
    /// runner's configuration. On a finished run every case is accounted
    /// for: each covered function had `runs` cases, each counted once as
    /// passed or as a violation.
    pub fn finish(self, p: FuzzProgress) -> (r: FuzzReport)
        ensures
            r.config == self.config,
            r.errors == 0,
            p.wf(self) ==> r.passed + r.violations == r.total_runs,
            p.wf(self) ==> r.total_runs == sum_runs(r.per_function@),
            p.wf(self) ==> r.passed == sum_passed(r.per_function@),
            p.wf(self) ==> r.violations == sum_violations(r.per_function@),
            p.wf(self) ==> forall|j: int|
                0 <= j < r.per_function@.len() ==> (#[trigger] r.per_function@[j]).2 + r.per_function@[j].3
                    == r.per_function@[j].1,
            p.wf(self) ==> r.zk_proofs_generated <= r.zk_verifications && r.zk_mismatches <= r.zk_verifications,
            p.wf(self) && p.finished() ==> r.total_runs == self.targets().len() * self.config.runs,
            p.wf(self) && p.finished() ==> r.per_function@.len() == self.targets().len(),
            p.wf(self) ==> forall|j: int|
                0 <= j < r.per_function@.len() ==> (#[trigger] r.per_function@[j]).1 == self.config.runs,
            p.wf(self) && p.finished() ==> forall|j: int|
                0 <= j < r.per_function@.len() ==> (#[trigger] r.per_function@[j]).0@
                    == self.contract@.functions[self.targets()[j]].name,
            results_view(r.violation_results@) == p.results(),
            (r.zk_verifications, r.zk_proofs_generated, r.zk_mismatches) == p.zk(),
            p.wf(self) && self.config.project_dir is None ==> r.zk_verifications == 0 && r.zk_proofs_generated
                == 0 && r.zk_mismatches == 0,
            p.wf(self) && p.finished() && self.config.project_dir is None ==> r.violation_results@.len()
                == r.violations,
    {
        proof {
            if p.wf(self) {
                assert forall|j: int| 0 <= j < p.per_function@.len() implies (#[trigger] p.per_function@[j]).2
                    + p.per_function@[j].3 == p.per_function@[j].1 by {}
            }
        }
        FuzzReport {
            config: self.config,
            total_runs: p.total_runs,
            passed: p.passed,
            violations: p.violations,
            errors: 0,
            per_function: p.per_function,
            violation_results: p.violation_results,
            zk_verifications: p.zk_verifications,
            zk_proofs_generated: p.zk_proofs_generated,
            zk_mismatches: p.zk_mismatches,
            zk_mismatch_details: p.zk_mismatch_details,
        }
    }
}

// ============================================================================
// What reports show
// ============================================================================

/// How early a report lists a result: underflows, then overflows, then
/// other violations; results that are not violations are not listed.
pub open spec fn violation_rank(o: OutcomeView) -> int {
    match o {
        OutcomeView::Violation { detail, .. } => if text::contains(detail, "UNDERFLOW"@) {
            0
        } else if text::contains(detail, "OVERFLOW"@) {
            1
        } else {
            2
        },
        _ => 3,
    }
}

/// The positions of the results of rank `k`, in order.
pub open spec fn rank_positions(rs: Seq<ResultView>, k: int) -> Seq<int>
    decreases rs.len(),
{
    if rs.len() == 0 {
        seq![]
    } else {
        let p = rank_positions(rs.drop_last(), k);
        if violation_rank(rs.last().outcome) == k {
            p.push(rs.len() - 1)
        } else {
            p
        }
    }
}

/// The positions of the results a report lists, at most `limit`:
/// underflows first, then overflows, then the other violations.
pub open spec fn highlights(rs: Seq<ResultView>, limit: int) -> Seq<int> {
    let all = rank_positions(rs, 0) + rank_positions(rs, 1) + rank_positions(rs, 2);
    if all.len() <= limit {
        all
    } else {
        all.take(limit)
    }
}

/// The rank of a result's outcome.
fn rank_of(o: &FuzzOutcome) -> (r: u8)
    ensures
        r as int == violation_rank(o@),
{
    match o {
        FuzzOutcome::Violation { detail, .. } => {
            let v = chars_of(detail.as_str());
            let n = v.len();
            assert(v@.subrange(0, n as int) =~= v@);
            if crate::text::find_at(&v, 0, n, &chars_of("UNDERFLOW")).is_some() {
                0
            } else if crate::text::find_at(&v, 0, n, &chars_of("OVERFLOW")).is_some() {
                1
            } else {
                2
            }
        },
        _ => 3,
    }
}

/// Appends the positions of the results of rank `k`.
fn push_rank_positions(results: &Vec<FuzzResult>, k: u8, out: &mut Vec<usize>)
    ensures
        final(out)@.map_values(|i: usize| i as int) == old(out)@.map_values(|i: usize| i as int)
            + rank_positions(results_view(results@), k as int),
{
    let ghost rv = results_view(results@);
    let ghost start = out@.map_values(|i: usize| i as int);
    let mut i: usize = 0;
    assert(rv.take(0) =~= Seq::<ResultView>::empty());
    assert(start =~= start + rank_positions(rv.take(0), k as int));
    while i < results.len()
        invariant
            i <= results@.len(),
            rv == results_view(results@),
            out@.map_values(|i: usize| i as int) == start + rank_positions(rv.take(i as int), k as int),
        decreases results@.len() - i,
    {
        assert(rv.take(i + 1).drop_last() =~= rv.take(i as int));
        assert(rv.take(i + 1).last() == results@[i as int]@);
        if rank_of(&results[i].outcome) == k {
            let ghost before = out@.map_values(|i: usize| i as int);
            out.push(i);
            assert(out@.map_values(|i: usize| i as int) =~= before.push(i as int));
        }
        assert(out@.map_values(|i: usize| i as int) =~= start + rank_positions(rv.take(i + 1), k as int));
        i = i + 1;
    }
    assert(rv.take(results@.len() as int) =~= rv);
}

/// The positions of the results a report lists first, at most `limit`:
/// underflows, then overflows, then the other violations, each in order.
pub fn highlighted_violations(results: &Vec<FuzzResult>, limit: usize) -> (r: Vec<usize>)
    ensures
        r@.map_values(|i: usize| i as int) == highlights(results_view(results@), limit as int),
{
    let mut all: Vec<usize> = Vec::new();
    assert(all@.map_values(|i: usize| i as int) =~= Seq::<int>::empty());
    push_rank_positions(results, 0, &mut all);
    push_rank_positions(results, 1, &mut all);
    push_rank_positions(results, 2, &mut all);
    let ghost av = all@.map_values(|i: usize| i as int);
    let mut out: Vec<usize> = Vec::new();
    let mut i: usize = 0;
    while i < all.len() && i < limit
        invariant
            i <= all@.len(),
            i <= limit,
            av == all@.map_values(|i: usize| i as int),
            out@.map_values(|i: usize| i as int) == av.take(i as int),
        decreases all@.len() - i,
    {
        let ghost before = out@.map_values(|i: usize| i as int);
        out.push(all[i]);
        assert(out@.map_values(|i: usize| i as int) =~= before.push(av[i as int]));
        assert(av.take(i + 1) =~= av.take(i as int).push(av[i as int]));
        i = i + 1;
    }
    assert(all@.len() <= limit ==> av.take(i as int) =~= av);
    out
}

/// The labels of the checks a toggle enables, as the invariant report
/// lists them: `balance`, `owner`, `zero-amt`, `overflow`, `self-xfer`.
pub open spec fn active_labels(t: crate::spec::InvariantToggle) -> Seq<Seq<char>> {
    (if t.enabled("balance_conservation"@) {
        seq!["balance"@]
    } else {
        seq![]
    }) + (if t.enabled("owner_integrity"@) {
        seq!["owner"@]
    } else {
        seq![]
    }) + (if t.enabled("zero_amount"@) {
        seq!["zero-amt"@]
    } else {
        seq![]
    }) + (if t.enabled("overflow_check"@) {
        seq!["overflow"@]
    } else {
        seq![]
    }) + (if t.enabled("self_transfer"@) {
        seq!["self-xfer"@]
    } else {
        seq![]
    })
}

/// The labels of the checks `t` enables, in report order.
pub fn active_invariant_labels(t: &crate::spec::InvariantToggle) -> (r: Vec<String>)
    ensures
        texts(r@) == active_labels(*t),
{
    let mut out: Vec<String> = Vec::new();
    let ghost s0 = texts(out@);
    assert(s0 =~= Seq::<Seq<char>>::empty());
    if t.is_enabled("balance_conservation") {
        out.push(String::from_str("balance"));
    }
    let ghost s1 = texts(out@);
    if t.is_enabled("owner_integrity") {
        out.push(String::from_str("owner"));
    }
    let ghost s2 = texts(out@);
    if t.is_enabled("zero_amount") {
        out.push(String::from_str("zero-amt"));
    }
    let ghost s3 = texts(out@);
    if t.is_enabled("overflow_check") {
        out.push(String::from_str("overflow"));
    }
    let ghost s4 = texts(out@);
    if t.is_enabled("self_transfer") {
        out.push(String::from_str("self-xfer"));
    }
    assert(texts(out@) =~= active_labels(*t));
    out
}

} // verus!
