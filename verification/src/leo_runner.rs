//! What the library makes of a run of `leo run` (or `snarkvm run`): whether
//! a proof was generated, the records in the output, and how the run
//! compares with the symbolic execution of the same inputs. Running the
//! processes themselves is left to the caller.
use vstd::prelude::*;
use crate::text;
use crate::text::{chars_of, find_at, i128_text, line_ranges, starts_with_at, substring, trim_at, trim_end_matches_at};
use crate::instruction::{join, join_strings};
use crate::symbolic::texts;

verus! {

// ============================================================================
// Data
// ============================================================================

/// The result of a `leo run`.
#[derive(Debug, Clone)]
pub struct LeoRunResult {
    /// Exit code (0 for success, 101 for a panic).
    pub exit_code: i32,
    /// Standard output (with the generated records and futures).
    pub stdout: String,
    /// Standard error (with panic messages).
    pub stderr: String,
    /// Whether a ZK proof was generated.
    pub proof_generated: bool,
    /// The records read from the output.
    pub output_records: Vec<OutputRecord>,
    /// Time taken, in milliseconds.
    pub elapsed_ms: u128,
}

/// A record read from the output of a run.
#[derive(Debug, Clone)]
pub struct OutputRecord {
    /// Record type, such as `token`.
    pub record_type: String,
    /// Field names and values, in order (`_nonce` and `_version` included).
    pub fields: Vec<(String, String)>,
}

/// A disagreement between symbolic execution and a real run.
#[derive(Debug, Clone)]
pub struct VerificationMismatch {
    pub kind: MismatchKind,
    pub detail: String,
}

#[derive(Debug, Clone, Copy, PartialEq, Eq, Structural)]
pub enum MismatchKind {
    /// Symbolic execution passed but `leo run` crashed (a missed bug).
    SymbolicPassedButLeoCrashed,
    /// Symbolic execution found violations but `leo run` passed (a false positive).
    SymbolicFailedButLeoPassed,
    /// Record fields differ (a privacy invariant is broken).
    RecordFieldMismatch,
    /// No ZK proof could be generated.
    ProofGenerationFailed,
}

/// The result of a `snarkvm run`.
#[derive(Debug, Clone)]
pub struct SnarkVMResult {
    pub exit_code: i32,
    /// Whether the proof passed the independent verification.
    pub proof_valid: bool,
    /// The transaction id, if the output has one.
    pub transaction_id: Option<String>,
    pub records: Vec<OutputRecord>,
    pub elapsed_ms: u128,
    pub stderr: String,
}

/// The view of a field list.
pub open spec fn pairs_view(fs: Seq<(String, String)>) -> Seq<(Seq<char>, Seq<char>)> {
    fs.map_values(|f: (String, String)| (f.0@, f.1@))
}

impl View for OutputRecord {
    type V = (Seq<char>, Seq<(Seq<char>, Seq<char>)>);

    open spec fn view(&self) -> (Seq<char>, Seq<(Seq<char>, Seq<char>)>) {
        (self.record_type@, pairs_view(self.fields@))
    }
}

impl View for VerificationMismatch {
    type V = (MismatchKind, Seq<char>);

    open spec fn view(&self) -> (MismatchKind, Seq<char>) {
        (self.kind, self.detail@)
    }
}

// ============================================================================
// Reading the output
// ============================================================================

/// Where a scan of the output stands after some of its lines.
pub struct OutputScan {
    /// The `➡️ Output` line has been seen.
    pub in_output: bool,
    /// Inside a record (after `•` or `{`).
    pub in_record: bool,
    /// Fields of the record being read.
    pub fields: Seq<(Seq<char>, Seq<char>)>,
    /// Record type, guessed from the field names (`token` once an `owner`
    /// or `amount` field has been seen).
    pub current_type: Seq<char>,
    /// The records read so far.
    pub records: Seq<(Seq<char>, Seq<(Seq<char>, Seq<char>)>)>,
}

/// The field `name: value` on a trimmed line: both sides trimmed, and
/// trailing commas taken off the value.
pub open spec fn field_of_line(t: Seq<char>) -> Option<(Seq<char>, Seq<char>)> {
    match text::find_char(t, ':') {
        Some(c) => Some(
            (
                text::trim(t.take(c)),
                text::trim(text::trim_end_matches(text::trim(t.skip(c + 1)), ","@)),
            ),
        ),
        None => None,
    }
}

/// The scan after one more line.
pub open spec fn scan_line(st: OutputScan, line: Seq<char>) -> OutputScan {
    let t = text::trim(line);
    if text::contains(t, "Output"@) && text::contains(t, "➡"@) {
        OutputScan {
            in_output: true,
            in_record: st.in_record,
            fields: st.fields,
            current_type: st.current_type,
            records: st.records,
        }
    } else if !st.in_output {
        st
    } else if text::starts_with(t, "•"@) || (text::starts_with(t, "{"@) && !st.in_record) {
        OutputScan {
            in_output: st.in_output,
            in_record: true,
            fields: seq![],
            current_type: st.current_type,
            records: st.records,
        }
    } else if !st.in_record {
        st
    } else if text::starts_with(t, "}"@) {
        OutputScan {
            in_output: st.in_output,
            in_record: false,
            fields: seq![],
            current_type: st.current_type,
            records: if st.fields.len() > 0 {
                st.records.push((st.current_type, st.fields))
            } else {
                st.records
            },
        }
    } else {
        match field_of_line(t) {
            Some(nv) => if nv.0.len() > 0 && nv.1.len() > 0 {
                OutputScan {
                    in_output: st.in_output,
                    in_record: st.in_record,
                    fields: st.fields.push(nv),
                    current_type: if nv.0 == "owner"@ || nv.0 == "amount"@ {
                        "token"@
                    } else {
                        st.current_type
                    },
                    records: st.records,
                }
            } else {
                st
            },
            None => st,
        }
    }
}

/// The scan after the lines `ls`.
pub open spec fn scan_lines(ls: Seq<Seq<char>>) -> OutputScan
    decreases ls.len(),
{
    if ls.len() == 0 {
        OutputScan { in_output: false, in_record: false, fields: seq![], current_type: seq![], records: seq![] }
    } else {
        scan_line(scan_lines(ls.drop_last()), ls.last())
    }
}

/// The records in the output of a run: those after the `➡️ Output` line,
/// each opened by `•` or `{` and closed by `}`, with at least one field.
pub open spec fn output_records_of(stdout: Seq<char>) -> Seq<(Seq<char>, Seq<(Seq<char>, Seq<char>)>)> {
    scan_lines(text::lines(stdout)).records
}

/// Reads the records from the output of `leo run`, which looks like
/// ```text
///  ➡️  Output
///
///  • {
///   owner: aleo1....private,
///   amount: 100u64.private,
///   _nonce: 12345group.public,
///   _version: 1u8.public
/// }
/// ```
#[verifier::rlimit(40)]
pub fn parse_output_records(stdout: &str) -> (r: Vec<OutputRecord>)
    ensures
        r@.map_values(|o: OutputRecord| o@) == output_records_of(stdout@),
{
    let v = chars_of(stdout);
    let ranges = line_ranges(&v);
    let ghost ls = text::lines(v@);
    let mut records: Vec<OutputRecord> = Vec::new();
    let mut in_output = false;
    let mut in_record = false;
    let mut fields: Vec<(String, String)> = Vec::new();
    let mut current_type = String::new();
    let colon = [':'];
    let comma = [','];
    assert(colon@ =~= seq![':']);
    assert(comma@ =~= seq![',']);
    proof {
        reveal_strlit(",");
    }
    let mut i: usize = 0;
    assert(ls.take(0) =~= Seq::<Seq<char>>::empty());
    assert(records@.map_values(|o: OutputRecord| o@) =~= Seq::<(Seq<char>, Seq<(Seq<char>, Seq<char>)>)>::empty());
    assert(pairs_view(fields@) =~= Seq::<(Seq<char>, Seq<char>)>::empty());
    while i < ranges.len()
        invariant
            i <= ranges@.len(),
            ranges@.len() == ls.len(),
            ls == text::lines(v@),
            v@ == stdout@,
            colon@ == seq![':'],
            comma@ == seq![','],
            ","@ == seq![','],
            forall|k: int|
                0 <= k < ranges@.len() ==> (#[trigger] ranges@[k]).0 <= ranges@[k].1 <= v@.len()
                    && v@.subrange(ranges@[k].0 as int, ranges@[k].1 as int) == ls[k],
            scan_lines(ls.take(i as int)) == (OutputScan {
                in_output,
                in_record,
                fields: pairs_view(fields@),
                current_type: current_type@,
                records: records@.map_values(|o: OutputRecord| o@),
            }),
        decreases ranges@.len() - i,
    {
        let (a, b) = ranges[i];
        assert(ranges@[i as int] == (a, b));
        assert(ls.take(i + 1).drop_last() =~= ls.take(i as int));
        assert(ls.take(i + 1).last() == ls[i as int]);
        let (ta, tb) = trim_at(&v, a, b);
        let ghost t = v@.subrange(ta as int, tb as int);
        if find_at(&v, ta, tb, &chars_of("Output")).is_some() && find_at(&v, ta, tb, &chars_of("➡")).is_some() {
            in_output = true;
        } else if !in_output {
        } else if starts_with_at(&v, ta, tb, &chars_of("•")) || (starts_with_at(&v, ta, tb, &chars_of("{")) && !in_record) {
            in_record = true;
            fields = Vec::new();
            assert(pairs_view(fields@) =~= Seq::<(Seq<char>, Seq<char>)>::empty());
        } else if !in_record {
        } else if starts_with_at(&v, ta, tb, &chars_of("}")) {
            if fields.len() > 0 {
                let rec = OutputRecord { record_type: current_type.clone(), fields };
                let ghost before = records@.map_values(|o: OutputRecord| o@);
                records.push(rec);
                assert(records@.map_values(|o: OutputRecord| o@) =~= before.push(rec@));
            }
            in_record = false;
            fields = Vec::new();
            assert(pairs_view(fields@) =~= Seq::<(Seq<char>, Seq<char>)>::empty());
        } else {
            match find_at(&v, ta, tb, &colon) {
                Some(c) => {
                    proof {
                        text::lemma_find_from_bounds(t, seq![':'], 0);
                    }
                    let (na, nb) = trim_at(&v, ta, c);
                    let (xa, xb) = trim_at(&v, c + 1, tb);
                    let xe = trim_end_matches_at(&v, xa, xb, &comma);
                    let (va, vb) = trim_at(&v, xa, xe);
                    assert(t.take(c - ta) =~= v@.subrange(ta as int, c as int));
                    assert(t.skip(c - ta + 1) =~= v@.subrange(c + 1, tb as int));
                    if na < nb && va < vb {
                        let name = substring(stdout, na, nb);
                        let value = substring(stdout, va, vb);
                        let owner_or_amount = is_name(&v, na, nb, "owner") || is_name(&v, na, nb, "amount");
                        let ghost before = pairs_view(fields@);
                        fields.push((name, value));
                        assert(pairs_view(fields@) =~= before.push((v@.subrange(na as int, nb as int), v@.subrange(va as int, vb as int))));
                        if owner_or_amount {
                            current_type = String::from_str("token");
                        }
                    }
                },
                None => {},
            }
        }
        i = i + 1;
    }
    assert(ls.take(ranges@.len() as int) =~= ls);
    records
}

/// Whether `v[a..b]` is the text `t`.
fn is_name(v: &Vec<char>, a: usize, b: usize, t: &str) -> (r: bool)
    requires
        a <= b <= v@.len(),
    ensures
        r == (v@.subrange(a as int, b as int) == t@),
{
    crate::text::eq_at(v, a, b, &chars_of(t))
}

// ============================================================================
// Comparing a run with symbolic execution
// ============================================================================

/// The first `n` of `ls` (all of them when there are fewer).
pub open spec fn first_n(ls: Seq<Seq<char>>, n: int) -> Seq<Seq<char>> {
    if ls.len() <= n {
        ls
    } else {
        ls.take(n)
    }
}

/// The lines that mention `panic` or `Error`, in order.
pub open spec fn panic_lines(ls: Seq<Seq<char>>) -> Seq<Seq<char>>
    decreases ls.len(),
{
    if ls.len() == 0 {
        seq![]
    } else {
        let p = panic_lines(ls.drop_last());
        if text::contains(ls.last(), "panic"@) || text::contains(ls.last(), "Error"@) {
            p.push(ls.last())
        } else {
            p
        }
    }
}

/// The mismatches between symbolic execution (`pass`, `violations`) and a
/// run that ended with `exit_code`, wrote `stderr` and did or did not
/// generate a proof. In order: a crash after a symbolic pass; a clean run
/// after symbolic violations; a panic (unless already reported as a
/// crash); a clean run without a proof.
pub open spec fn comparison(
    pass: bool,
    violations: Seq<Seq<char>>,
    exit_code: i32,
    stderr: Seq<char>,
    proof_generated: bool,
) -> Seq<(MismatchKind, Seq<char>)> {
    let crashed = pass && violations.len() == 0 && exit_code != 0;
    let c1: Seq<(MismatchKind, Seq<char>)> = if crashed {
        seq![
            (
                MismatchKind::SymbolicPassedButLeoCrashed,
                "Symbolic execution passed, but leo run crashed (exit "@ + text::signed_decimal(
                    exit_code as int,
                ) + "): "@ + join(first_n(text::lines(stderr), 3), "; "@),
            ),
        ]
    } else {
        seq![]
    };
    let c2: Seq<(MismatchKind, Seq<char>)> = if violations.len() > 0 && exit_code == 0 {
        seq![
            (
                MismatchKind::SymbolicFailedButLeoPassed,
                "Symbolic execution reported violations, but leo run succeeded (false positive): "@
                    + join(violations, "; "@),
            ),
        ]
    } else {
        seq![]
    };
    let c3: Seq<(MismatchKind, Seq<char>)> = if !crashed && (text::contains(stderr, "panic"@)
        || text::contains(stderr, "internal compiler error"@)) {
        seq![
            (
                MismatchKind::ProofGenerationFailed,
                "leo run panicked during ZK proof generation: "@ + join(
                    first_n(panic_lines(text::lines(stderr)), 2),
                    "; "@,
                ),
            ),
        ]
    } else {
        seq![]
    };
    let c4: Seq<(MismatchKind, Seq<char>)> = if exit_code == 0 && !proof_generated {
        seq![(MismatchKind::ProofGenerationFailed, "leo run succeeded but no ZK proof was generated"@)]
    } else {
        seq![]
    };
    c1 + c2 + c3 + c4
}

/// The lines of `s`, as `str::lines` yields them.
pub fn lines_of(s: &str) -> (r: Vec<String>)
    ensures
        texts(r@) == text::lines(s@),
{
    let v = chars_of(s);
    let ranges = line_ranges(&v);
    let ghost ls = text::lines(v@);
    let mut out: Vec<String> = Vec::new();
    let mut i: usize = 0;
    while i < ranges.len()
        invariant
            i <= ranges@.len(),
            ranges@.len() == ls.len(),
            ls == text::lines(v@),
            v@ == s@,
            forall|k: int|
                0 <= k < ranges@.len() ==> (#[trigger] ranges@[k]).0 <= ranges@[k].1 <= v@.len()
                    && v@.subrange(ranges@[k].0 as int, ranges@[k].1 as int) == ls[k],
            texts(out@) == ls.take(i as int),
        decreases ranges@.len() - i,
    {
        let (a, b) = ranges[i];
        assert(ranges@[i as int] == (a, b));
        let l = substring(s, a, b);
        let ghost before = texts(out@);
        out.push(l);
        assert(texts(out@) =~= before.push(l@));
        assert(ls.take(i + 1) =~= ls.take(i as int).push(ls[i as int]));
        assert(texts(out@) =~= ls.take(i + 1));
        i = i + 1;
    }
    assert(ls.take(ranges@.len() as int) =~= ls);
    out
}

/// The first `n` strings of `v` (all when there are fewer).
fn first_strings(v: &Vec<String>, n: usize) -> (r: Vec<String>)
    ensures
        texts(r@) == first_n(texts(v@), n as int),
{
    let mut out: Vec<String> = Vec::new();
    let mut i: usize = 0;
    while i < v.len() && i < n
        invariant
            i <= v@.len(),
            i <= n,
            texts(out@) == texts(v@).take(i as int),
        decreases v@.len() - i,
    {
        let ghost before = texts(out@);
        let c = v[i].clone();
        assert(c@ == v@[i as int]@);
        out.push(c);
        assert(texts(out@) =~= before.push(v@[i as int]@));
        assert(texts(v@).take(i + 1) =~= texts(v@).take(i as int).push(v@[i as int]@));
        assert(texts(out@) =~= texts(v@).take(i + 1));
        i = i + 1;
    }
    assert(v@.len() <= n ==> texts(v@).take(i as int) =~= texts(v@));
    out
}

/// The strings that mention `panic` or `Error`, in order.
fn panic_strings(v: &Vec<String>) -> (r: Vec<String>)
    ensures
        texts(r@) == panic_lines(texts(v@)),
{
    let ghost tv = texts(v@);
    let mut out: Vec<String> = Vec::new();
    let mut i: usize = 0;
    assert(tv.take(0) =~= Seq::<Seq<char>>::empty());
    assert(texts(out@) =~= Seq::<Seq<char>>::empty());
    while i < v.len()
        invariant
            i <= v@.len(),
            tv == texts(v@),
            texts(out@) == panic_lines(tv.take(i as int)),
        decreases v@.len() - i,
    {
        assert(tv.take(i + 1).drop_last() =~= tv.take(i as int));
        assert(tv.take(i + 1).last() == v@[i as int]@);
        if mentions(v[i].as_str(), "panic") || mentions(v[i].as_str(), "Error") {
            let ghost before = texts(out@);
            out.push(v[i].clone());
            assert(texts(out@) =~= before.push(v@[i as int]@));
        }
        i = i + 1;
    }
    assert(tv.take(v@.len() as int) =~= tv);
    out
}

/// Whether `s` contains `p`.
fn mentions(s: &str, p: &str) -> (r: bool)
    ensures
        r == text::contains(s@, p@),
{
    let v = chars_of(s);
    let n = v.len();
    assert(v@.subrange(0, n as int) =~= v@);
    find_at(&v, 0, n, &chars_of(p)).is_some()
}

/// Compares the outcome of symbolic execution with that of `leo run` on
/// the same inputs and returns the mismatches found.
pub fn compare_results(symbolic_pass: bool, symbolic_violations: &[String], leo_result: &LeoRunResult) -> (r: Vec<VerificationMismatch>)
    ensures
        r@.map_values(|m: VerificationMismatch| m@) == comparison(
            symbolic_pass,
            texts(symbolic_violations@),
            leo_result.exit_code,
            leo_result.stderr@,
            leo_result.proof_generated,
        ),
{
    let mut out: Vec<VerificationMismatch> = Vec::new();
    let ghost c0 = out@.map_values(|m: VerificationMismatch| m@);
    assert(c0 =~= Seq::<(MismatchKind, Seq<char>)>::empty());
    let crashed = symbolic_pass && symbolic_violations.len() == 0 && leo_result.exit_code != 0;
    let stderr_lines = lines_of(leo_result.stderr.as_str());
    if crashed {
        let head = first_strings(&stderr_lines, 3);
        let detail = String::from_str("Symbolic execution passed, but leo run crashed (exit ").concat(
            i128_text(leo_result.exit_code as i128).as_str(),
        ).concat("): ").concat(join_strings(head.as_slice(), "; ").as_str());
        out.push(VerificationMismatch { kind: MismatchKind::SymbolicPassedButLeoCrashed, detail });
    }
    let ghost c1 = out@.map_values(|m: VerificationMismatch| m@);
    if symbolic_violations.len() > 0 && leo_result.exit_code == 0 {
        let detail = String::from_str(
            "Symbolic execution reported violations, but leo run succeeded (false positive): ",
        ).concat(join_strings(symbolic_violations, "; ").as_str());
        out.push(VerificationMismatch { kind: MismatchKind::SymbolicFailedButLeoPassed, detail });
    }
    let ghost c2 = out@.map_values(|m: VerificationMismatch| m@);
    if !crashed && (mentions(leo_result.stderr.as_str(), "panic") || mentions(
        leo_result.stderr.as_str(),
        "internal compiler error",
    )) {
        let panics = panic_strings(&stderr_lines);
        let head = first_strings(&panics, 2);
        let detail = String::from_str("leo run panicked during ZK proof generation: ").concat(
            join_strings(head.as_slice(), "; ").as_str(),
        );
        out.push(VerificationMismatch { kind: MismatchKind::ProofGenerationFailed, detail });
    }
    let ghost c3 = out@.map_values(|m: VerificationMismatch| m@);
    if leo_result.exit_code == 0 && !leo_result.proof_generated {
        out.push(
            VerificationMismatch {
                kind: MismatchKind::ProofGenerationFailed,
                detail: String::from_str("leo run succeeded but no ZK proof was generated"),
            },
        );
    }
    assert(out@.map_values(|m: VerificationMismatch| m@) =~= comparison(
        symbolic_pass,
        texts(symbolic_violations@),
        leo_result.exit_code,
        leo_result.stderr@,
        leo_result.proof_generated,
    ));
    out
}

// ============================================================================
// Reading the results of runs
// ============================================================================

/// `leo run` generated a proof: it exited with 0 and its output shows an
/// `Output` section, an `owner:` or a `_nonce:`.
pub open spec fn leo_proof_shown(exit_code: i32, stdout: Seq<char>) -> bool {
    exit_code == 0 && (text::contains(stdout, "Output"@) || text::contains(stdout, "owner:"@)
        || text::contains(stdout, "_nonce:"@))
}

/// `snarkvm run` verified the proof: it exited with 0 and its output shows
/// a check mark, `Proof verified` or an `Output` section.
pub open spec fn snarkvm_proof_shown(exit_code: i32, stdout: Seq<char>) -> bool {
    exit_code == 0 && (text::contains(stdout, "✅"@) || text::contains(stdout, "Proof verified"@)
        || text::contains(stdout, "Output"@))
}

/// The result of a `leo run` that exited with `exit_code` and wrote
/// `stdout` and `stderr`.
pub fn leo_run_result(exit_code: i32, stdout: String, stderr: String, elapsed_ms: u128) -> (r: LeoRunResult)
    ensures
        r.exit_code == exit_code,
        r.stdout@ == stdout@,
        r.stderr@ == stderr@,
        r.proof_generated == leo_proof_shown(exit_code, stdout@),
        r.output_records@.map_values(|o: OutputRecord| o@) == output_records_of(stdout@),
        r.elapsed_ms == elapsed_ms,
{
    let proof_generated = exit_code == 0 && (mentions(stdout.as_str(), "Output") || mentions(
        stdout.as_str(),
        "owner:",
    ) || mentions(stdout.as_str(), "_nonce:"));
    let output_records = parse_output_records(stdout.as_str());
    LeoRunResult { exit_code, stdout, stderr, proof_generated, output_records, elapsed_ms }
}

/// The result of a `snarkvm run` that exited with `exit_code` and wrote
/// `stdout` and `stderr`.
pub fn snarkvm_result(exit_code: i32, stdout: String, stderr: String, elapsed_ms: u128) -> (r: SnarkVMResult)
    ensures
        r.exit_code == exit_code,
        r.proof_valid == snarkvm_proof_shown(exit_code, stdout@),
        match r.transaction_id {
            Some(t) => transaction_id_of(text::lines(stdout@)) == Some(t@),
            None => transaction_id_of(text::lines(stdout@)) is None,
        },
        r.records@.map_values(|o: OutputRecord| o@) == output_records_of(stdout@),
        r.elapsed_ms == elapsed_ms,
        r.stderr@ == stderr@,
{
    let proof_valid = exit_code == 0 && (mentions(stdout.as_str(), "✅") || mentions(
        stdout.as_str(),
        "Proof verified",
    ) || mentions(stdout.as_str(), "Output"));
    let transaction_id = extract_transaction_id(stdout.as_str());
    let records = parse_output_records(stdout.as_str());
    SnarkVMResult { exit_code, proof_valid, transaction_id, records, elapsed_ms, stderr }
}

/// What `char::is_alphanumeric` says of `c` (Unicode `Alphabetic` or `Numeric`).
pub uninterp spec fn alnum(c: char) -> bool;

/// `char::is_alphanumeric`; its result is named `alnum`, a function of the
/// char alone.
#[verifier::external_body]
fn is_alphanumeric(c: char) -> (r: bool)
    ensures
        r == alnum(c),
{
    c.is_alphanumeric()
}

/// The number of bytes of `c` in UTF-8.
pub open spec fn utf8_len(c: char) -> nat {
    if (c as u32) < 0x80 {
        1
    } else if (c as u32) < 0x800 {
        2
    } else if (c as u32) < 0x10000 {
        3
    } else {
        4
    }
}

/// The number of bytes of `s` in UTF-8.
pub open spec fn utf8_size(s: Seq<char>) -> nat
    decreases s.len(),
{
    if s.len() == 0 {
        0
    } else {
        utf8_size(s.drop_last()) + utf8_len(s.last())
    }
}

/// The number of leading alphanumeric chars of `s`.
pub open spec fn alnum_run(s: Seq<char>) -> nat
    decreases s.len(),
{
    if s.len() == 0 || !alnum(s[0]) {
        0
    } else {
        1 + alnum_run(s.drop_first())
    }
}

/// The transaction id on a line: the alphanumeric run that starts at the
/// first `at1` of the trimmed line, when it takes at least 50 bytes.
pub open spec fn transaction_id_in(line: Seq<char>) -> Option<Seq<char>> {
    let t = text::trim(line);
    match text::find(t, "at1"@) {
        Some(p) => {
            let rest = t.skip(p);
            let id = rest.take(alnum_run(rest) as int);
            if utf8_size(id) >= 50 {
                Some(id)
            } else {
                None
            }
        },
        None => None,
    }
}

/// The first transaction id on the lines `ls`.
pub open spec fn transaction_id_of(ls: Seq<Seq<char>>) -> Option<Seq<char>>
    decreases ls.len(),
{
    if ls.len() == 0 {
        None
    } else {
        match transaction_id_in(ls[0]) {
            Some(id) => Some(id),
            None => transaction_id_of(ls.drop_first()),
        }
    }
}

/// The transaction id in the output of a run, if there is one.
pub fn extract_transaction_id(output: &str) -> (r: Option<String>)
    ensures
        match r {
            Some(t) => transaction_id_of(text::lines(output@)) == Some(t@),
            None => transaction_id_of(text::lines(output@)) is None,
        },
{
    let v = chars_of(output);
    let ranges = line_ranges(&v);
    let ghost ls = text::lines(v@);
    let at1 = chars_of("at1");
    let mut i: usize = 0;
    assert(ls.skip(0) =~= ls);
    while i < ranges.len()
        invariant
            i <= ranges@.len(),
            ranges@.len() == ls.len(),
            ls == text::lines(v@),
            v@ == output@,
            at1@ == "at1"@,
            forall|k: int|
                0 <= k < ranges@.len() ==> (#[trigger] ranges@[k]).0 <= ranges@[k].1 <= v@.len()
                    && v@.subrange(ranges@[k].0 as int, ranges@[k].1 as int) == ls[k],
            transaction_id_of(ls) == transaction_id_of(ls.skip(i as int)),
        decreases ranges@.len() - i,
    {
        let (a, b) = ranges[i];
        assert(ranges@[i as int] == (a, b));
        assert(ls.skip(i as int)[0] == ls[i as int]);
        assert(ls.skip(i as int).drop_first() =~= ls.skip(i + 1));
        let (ta, tb) = trim_at(&v, a, b);
        let ghost t = v@.subrange(ta as int, tb as int);
        match find_at(&v, ta, tb, &at1) {
            Some(p) => {
                proof {
                    text::lemma_find_from_bounds(t, "at1"@, 0);
                }
                let ghost rest = t.skip(p - ta);
                assert(rest =~= v@.subrange(p as int, tb as int));
                let mut e = p;
                let mut size: u128 = 0;
                assert(v@.subrange(p as int, p as int) =~= Seq::<char>::empty());
                while e < tb && is_alphanumeric(v[e])
                    invariant
                        ta <= p <= e <= tb <= v@.len(),
                        rest == v@.subrange(p as int, tb as int),
                        alnum_run(rest) == (e - p) + alnum_run(v@.subrange(e as int, tb as int)),
                        size == utf8_size(v@.subrange(p as int, e as int)),
                        size <= 4 * (e - p),
                    decreases tb - e,
                {
                    assert(v@.subrange(e as int, tb as int).drop_first() =~= v@.subrange(e + 1, tb as int));
                    assert(v@.subrange(p as int, e + 1).drop_last() =~= v@.subrange(p as int, e as int));
                    let c = v[e];
                    let n: u128 = if (c as u32) < 0x80 {
                        1
                    } else if (c as u32) < 0x800 {
                        2
                    } else if (c as u32) < 0x10000 {
                        3
                    } else {
                        4
                    };
                    size = size + n;
                    e = e + 1;
                }
                assert(alnum_run(v@.subrange(e as int, tb as int)) == 0);
                assert(rest.take(alnum_run(rest) as int) =~= v@.subrange(p as int, e as int));
                if size >= 50 {
                    return Some(substring(output, p, e));
                }
            },
            None => {},
        }
        i = i + 1;
    }
    assert(ls.skip(ranges@.len() as int) =~= Seq::<Seq<char>>::empty());
    None
}

/// How `Debug` writes a mismatch kind.
pub open spec fn kind_name(k: MismatchKind) -> Seq<char> {
    match k {
        MismatchKind::SymbolicPassedButLeoCrashed => "SymbolicPassedButLeoCrashed"@,
        MismatchKind::SymbolicFailedButLeoPassed => "SymbolicFailedButLeoPassed"@,
        MismatchKind::RecordFieldMismatch => "RecordFieldMismatch"@,
        MismatchKind::ProofGenerationFailed => "ProofGenerationFailed"@,
    }
}

impl MismatchKind {
    /// The name of the kind, as `Debug` writes it.
    pub fn name(&self) -> (r: String)
        ensures
            r@ == kind_name(*self),
    {
        match self {
            MismatchKind::SymbolicPassedButLeoCrashed => String::from_str("SymbolicPassedButLeoCrashed"),
            MismatchKind::SymbolicFailedButLeoPassed => String::from_str("SymbolicFailedButLeoPassed"),
            MismatchKind::RecordFieldMismatch => String::from_str("RecordFieldMismatch"),
            MismatchKind::ProofGenerationFailed => String::from_str("ProofGenerationFailed"),
        }
    }
}

// ============================================================================
// Properties
// ============================================================================

/// When symbolic execution passed and `leo run` crashed, the crash is
/// the one mismatch reported (its panic is not reported a second time).
pub proof fn crash_reported_once(exit_code: i32, stderr: Seq<char>, proof_generated: bool)
    requires
        exit_code != 0,
    ensures
        comparison(true, seq![], exit_code, stderr, proof_generated).len() == 1,
        comparison(true, seq![], exit_code, stderr, proof_generated)[0].0
            == MismatchKind::SymbolicPassedButLeoCrashed,
{
}

/// When symbolic execution and `leo run` agree that the case passes,
/// a proof was generated and nothing panicked, there is no mismatch.
pub proof fn agreement_has_no_mismatch(stderr: Seq<char>)
    requires
        !text::contains(stderr, "panic"@),
        !text::contains(stderr, "internal compiler error"@),
    ensures
        comparison(true, seq![], 0, stderr, true).len() == 0,
{
}

/// Violations found symbolically in a case that `leo run` passes with
/// a proof, without a panic, make one false-positive mismatch.
pub proof fn false_positive_reported(violations: Seq<Seq<char>>, stderr: Seq<char>)
    requires
        violations.len() > 0,
        !text::contains(stderr, "panic"@),
        !text::contains(stderr, "internal compiler error"@),
    ensures
        comparison(false, violations, 0, stderr, true).len() == 1,
        comparison(false, violations, 0, stderr, true)[0].0 == MismatchKind::SymbolicFailedButLeoPassed,
{
}

/// A scan over lines without the output marker reads nothing.
proof fn lemma_scan_without_marker(ls: Seq<Seq<char>>)
    requires
        forall|i: int|
            0 <= i < ls.len() ==> !(text::contains(text::trim(#[trigger] ls[i]), "Output"@)
                && text::contains(text::trim(ls[i]), "➡"@)),
    ensures
        !scan_lines(ls).in_output,
        scan_lines(ls).records.len() == 0,
    decreases ls.len(),
{
    if ls.len() > 0 {
        assert forall|i: int| 0 <= i < ls.drop_last().len() implies !(text::contains(
            text::trim(#[trigger] ls.drop_last()[i]),
            "Output"@,
        ) && text::contains(text::trim(ls.drop_last()[i]), "➡"@)) by {
            assert(ls.drop_last()[i] == ls[i]);
        }
        lemma_scan_without_marker(ls.drop_last());
        assert(ls.last() == ls[ls.len() - 1]);
    }
}

/// An output without an `Output` line marked `➡` holds no records.
pub proof fn no_output_section_no_records(stdout: Seq<char>)
    requires
        forall|i: int|
            0 <= i < text::lines(stdout).len() ==> !(text::contains(
                text::trim(#[trigger] text::lines(stdout)[i]),
                "Output"@,
            ) && text::contains(text::trim(text::lines(stdout)[i]), "➡"@)),
    ensures
        output_records_of(stdout).len() == 0,
{
    lemma_scan_without_marker(text::lines(stdout));
}

} // verus!
