//! The layout of the terminal output: a contract's structure and the fuzz
//! reports, as lists of styled segments that the command line paints.
use vstd::prelude::*;
use crate::fuzzer::{
    active_invariant_labels, active_labels, highlighted_violations, highlights, results_view, FuzzOutcome,
    FuzzReport, OutcomeView, ResultView,
};
use crate::instruction::{join, join_strings};
use crate::parser::{format_type_vis, type_vis_text, Contract, ContractView, FieldView, FunctionView, MappingView, ParamView, RecordView};
use crate::spec::{assertion_label, AssertionDef, InvariantSpec};
use crate::symbolic::texts;
use crate::text::{decimal, u128_text};

verus! {

/// How a segment is painted.
#[derive(Debug, Clone, Copy, PartialEq, Eq, Structural)]
pub enum Style {
    Plain,
    Bold,
    Dimmed,
    Red,
    RedBold,
    Green,
    Yellow,
    YellowBold,
    Cyan,
    Magenta,
    /// Bold bright yellow, for report titles.
    TitleYellow,
    /// Bold bright cyan, for the verification section.
    TitleCyan,
}

/// One styled segment, as text.
pub type SegView = (Seq<char>, Style);

/// The view of a list of segments.
pub open spec fn segs_view(v: Seq<(String, Style)>) -> Seq<SegView> {
    v.map_values(|s: (String, Style)| (s.0@, s.1))
}

/// A plain segment.
pub open spec fn plain(t: Seq<char>) -> SegView {
    (t, Style::Plain)
}

/// A number in decimal.
pub open spec fn num(n: int) -> Seq<char> {
    decimal(n as nat)
}

fn push_seg(out: &mut Vec<(String, Style)>, text: String, style: Style)
    ensures
        segs_view(final(out)@) == segs_view(old(out)@).push((text@, style)),
{
    let ghost before = segs_view(out@);
    out.push((text, style));
    assert(segs_view(out@) =~= before.push((text@, style)));
}

fn push_str(out: &mut Vec<(String, Style)>, text: &str, style: Style)
    ensures
        segs_view(final(out)@) == segs_view(old(out)@).push((text@, style)),
{
    push_seg(out, String::from_str(text), style);
}

fn number(n: u128) -> (r: String)
    ensures
        r@ == num(n as int),
{
    u128_text(n)
}

/// A section heading: a blank line, the title, a line break.
pub open spec fn heading(title: Seq<char>, style: Style) -> Seq<SegView> {
    seq![plain("\n"@), (title, style), plain("\n"@)]
}

fn push_heading(out: &mut Vec<(String, Style)>, title: &str, style: Style)
    ensures
        segs_view(final(out)@) == segs_view(old(out)@) + heading(title@, style),
{
    let ghost start = segs_view(out@);
    push_str(out, "\n", Style::Plain);
    push_str(out, title, style);
    push_str(out, "\n", Style::Plain);
    assert(segs_view(out@) =~= start + heading(title@, style));
}

// ============================================================================
// Contracts
// ============================================================================

/// A record's fields as `name: type.visibility`.
pub open spec fn field_texts(fs: Seq<FieldView>) -> Seq<Seq<char>> {
    fs.map_values(|f: FieldView| f.name + ": "@ + type_vis_text(f.ty, f.visibility))
}

/// Parameters as `type.visibility`.
pub open spec fn param_texts(ps: Seq<ParamView>) -> Seq<Seq<char>> {
    ps.map_values(|p: ParamView| type_vis_text(p.ty, p.visibility))
}

/// Parameters by type alone.
pub open spec fn param_types(ps: Seq<ParamView>) -> Seq<Seq<char>> {
    ps.map_values(|p: ParamView| p.ty)
}

/// The first `n` records, a line each.
pub open spec fn record_lines(rs: Seq<RecordView>, n: int) -> Seq<SegView>
    decreases n,
{
    if n <= 0 {
        seq![]
    } else {
        record_lines(rs, n - 1) + seq![
            plain("  "@),
            (rs[n - 1].name, Style::Green),
            plain(" ("@ + join(field_texts(rs[n - 1].fields), ", "@) + ")\n"@),
        ]
    }
}

/// The first `n` mappings, a line each.
pub open spec fn mapping_lines(ms: Seq<MappingView>, n: int) -> Seq<SegView>
    decreases n,
{
    if n <= 0 {
        seq![]
    } else {
        mapping_lines(ms, n - 1) + seq![
            plain("  "@),
            (ms[n - 1].name, Style::Green),
            plain(" (key: "@ + ms[n - 1].key_type + ", value: "@ + ms[n - 1].value_type + ")\n"@),
        ]
    }
}

/// What a function returns, as the contract listing writes it.
pub open spec fn outputs_text(f: FunctionView) -> Seq<char> {
    if f.outputs.len() == 0 {
        "()"@
    } else {
        join(param_texts(f.outputs), ", "@)
    }
}

/// The first `n` functions, a line each: `name(inputs) → outputs`.
pub open spec fn function_lines(fs: Seq<FunctionView>, n: int) -> Seq<SegView>
    decreases n,
{
    if n <= 0 {
        seq![]
    } else {
        function_lines(fs, n - 1) + seq![
            plain("  "@),
            (fs[n - 1].name, Style::Magenta),
            plain("("@ + join(param_texts(fs[n - 1].inputs), ", "@) + ") → "@ + outputs_text(fs[n - 1]) + "\n"@),
        ]
    }
}

/// The first `n` finalize blocks, a line each: `name(input types)`.
pub open spec fn finalize_lines(fs: Seq<FunctionView>, n: int) -> Seq<SegView>
    decreases n,
{
    if n <= 0 {
        seq![]
    } else {
        finalize_lines(fs, n - 1) + seq![
            plain("  "@),
            (fs[n - 1].name, Style::Magenta),
            plain("("@ + join(param_types(fs[n - 1].inputs), ", "@) + ")\n"@),
        ]
    }
}

/// The listing of a contract: its name, then its records, mappings,
/// functions and finalize blocks, each kind under a heading when present.
pub open spec fn contract_listing(c: ContractView) -> Seq<SegView> {
    seq![("📊 Contract:"@, Style::Bold), plain(" "@), (c.program, Style::Cyan), plain("\n"@)] + records_part(c)
        + mappings_part(c) + functions_part(c) + finalizes_part(c)
}

fn field_list(c: &Contract, k: usize) -> (r: String)
    requires
        k < c@.records.len(),
    ensures
        r@ == join(field_texts(c@.records[k as int].fields), ", "@),
{
    let fs = &c.records[k].fields;
    let ghost fv = c@.records[k as int].fields;
    assert(fv == fs@.map_values(|f: crate::parser::RecordField| f@));
    let mut items: Vec<String> = Vec::new();
    let mut i: usize = 0;
    while i < fs.len()
        invariant
            i <= fs@.len(),
            fv == c@.records[k as int].fields,
            fv == fs@.map_values(|f: crate::parser::RecordField| f@),
            texts(items@) == field_texts(c@.records[k as int].fields).take(i as int),
        decreases fs@.len() - i,
    {
        let f = &fs[i];
        assert(fv[i as int] == f@);
        let t = String::from_str(f.name.as_str()).concat(": ").concat(format_type_vis(f.ty.as_str(), f.visibility).as_str());
        let ghost before = texts(items@);
        items.push(t);
        assert(texts(items@) =~= before.push(t@));
        assert(field_texts(c@.records[k as int].fields).take(i + 1) =~= field_texts(c@.records[k as int].fields).take(
            i as int,
        ).push(t@));
        i = i + 1;
    }
    assert(field_texts(c@.records[k as int].fields).take(fs@.len() as int) =~= field_texts(c@.records[k as int].fields));
    join_strings(items.as_slice(), ", ")
}

fn params_list(ps: &Vec<crate::parser::Param>, with_visibility: bool) -> (r: String)
    ensures
        r@ == join(
            if with_visibility {
                param_texts(ps@.map_values(|p: crate::parser::Param| p@))
            } else {
                param_types(ps@.map_values(|p: crate::parser::Param| p@))
            },
            ", "@,
        ),
{
    let ghost pv = ps@.map_values(|p: crate::parser::Param| p@);
    let ghost want = if with_visibility {
        param_texts(pv)
    } else {
        param_types(pv)
    };
    let mut items: Vec<String> = Vec::new();
    let mut i: usize = 0;
    while i < ps.len()
        invariant
            i <= ps@.len(),
            pv == ps@.map_values(|p: crate::parser::Param| p@),
            want == (if with_visibility {
                param_texts(pv)
            } else {
                param_types(pv)
            }),
            texts(items@) == want.take(i as int),
        decreases ps@.len() - i,
    {
        let p = &ps[i];
        let t = if with_visibility {
            format_type_vis(p.ty.as_str(), p.visibility)
        } else {
            p.ty.clone()
        };
        let ghost before = texts(items@);
        items.push(t);
        assert(texts(items@) =~= before.push(t@));
        assert(want.take(i + 1) =~= want.take(i as int).push(t@));
        i = i + 1;
    }
    assert(want.take(ps@.len() as int) =~= want);
    join_strings(items.as_slice(), ", ")
}

/// The records part of the listing.
pub open spec fn records_part(c: ContractView) -> Seq<SegView> {
    if c.records.len() == 0 {
        seq![]
    } else {
        heading("Records:"@, Style::YellowBold) + record_lines(c.records, c.records.len() as int)
    }
}

/// The mappings part of the listing.
pub open spec fn mappings_part(c: ContractView) -> Seq<SegView> {
    if c.mappings.len() == 0 {
        seq![]
    } else {
        heading("Mappings:"@, Style::YellowBold) + mapping_lines(c.mappings, c.mappings.len() as int)
    }
}

/// The functions part of the listing.
pub open spec fn functions_part(c: ContractView) -> Seq<SegView> {
    if c.functions.len() == 0 {
        seq![]
    } else {
        heading("Functions:"@, Style::YellowBold) + function_lines(c.functions, c.functions.len() as int)
    }
}

/// The finalize part of the listing.
pub open spec fn finalizes_part(c: ContractView) -> Seq<SegView> {
    if c.finalizes.len() == 0 {
        seq![]
    } else {
        heading("Finalizes:"@, Style::YellowBold) + finalize_lines(c.finalizes, c.finalizes.len() as int)
    }
}

fn push_records(out: &mut Vec<(String, Style)>, c: &Contract)
    ensures
        segs_view(final(out)@) == segs_view(old(out)@) + records_part(c@),
{
    let ghost start = segs_view(out@);
    if c.records.len() > 0 {
        push_heading(out, "Records:", Style::YellowBold);
        let ghost base = segs_view(out@);
        let mut k: usize = 0;
        while k < c.records.len()
            invariant
                k <= c@.records.len(),
                c@.records.len() == c.records@.len(),
                segs_view(out@) == base + record_lines(c@.records, k as int),
            decreases c.records@.len() - k,
        {
            push_str(out, "  ", Style::Plain);
            push_seg(out, c.records[k].name.clone(), Style::Green);
            let fl = field_list(c, k);
            push_seg(out, String::from_str(" (").concat(fl.as_str()).concat(")\n"), Style::Plain);
            assert(c@.records[k as int].name == c.records@[k as int].name@);
            assert(segs_view(out@) =~= base + record_lines(c@.records, k + 1));
            k = k + 1;
        }
    }
    assert(segs_view(out@) =~= start + records_part(c@));
}

fn push_mappings(out: &mut Vec<(String, Style)>, c: &Contract)
    ensures
        segs_view(final(out)@) == segs_view(old(out)@) + mappings_part(c@),
{
    let ghost start = segs_view(out@);
    if c.mappings.len() > 0 {
        push_heading(out, "Mappings:", Style::YellowBold);
        let ghost base = segs_view(out@);
        let mut k: usize = 0;
        while k < c.mappings.len()
            invariant
                k <= c@.mappings.len(),
                c@.mappings.len() == c.mappings@.len(),
                segs_view(out@) == base + mapping_lines(c@.mappings, k as int),
            decreases c.mappings@.len() - k,
        {
            let m = &c.mappings[k];
            assert(c@.mappings[k as int] == m@);
            push_str(out, "  ", Style::Plain);
            push_seg(out, m.name.clone(), Style::Green);
            push_seg(
                out,
                String::from_str(" (key: ").concat(m.key_type.as_str()).concat(", value: ").concat(
                    m.value_type.as_str(),
                ).concat(")\n"),
                Style::Plain,
            );
            assert(segs_view(out@) =~= base + mapping_lines(c@.mappings, k + 1));
            k = k + 1;
        }
    }
    assert(segs_view(out@) =~= start + mappings_part(c@));
}

fn push_functions(out: &mut Vec<(String, Style)>, c: &Contract)
    ensures
        segs_view(final(out)@) == segs_view(old(out)@) + functions_part(c@),
{
    let ghost start = segs_view(out@);
    if c.functions.len() > 0 {
        push_heading(out, "Functions:", Style::YellowBold);
        let ghost base = segs_view(out@);
        let mut k: usize = 0;
        while k < c.functions.len()
            invariant
                k <= c@.functions.len(),
                c@.functions.len() == c.functions@.len(),
                segs_view(out@) == base + function_lines(c@.functions, k as int),
            decreases c.functions@.len() - k,
        {
            let f = &c.functions[k];
            assert(c@.functions[k as int] == f@);
            let ins = params_list(&f.inputs, true);
            let outs = if f.outputs.len() == 0 {
                String::from_str("()")
            } else {
                params_list(&f.outputs, true)
            };
            push_str(out, "  ", Style::Plain);
            push_seg(out, f.name.clone(), Style::Magenta);
            push_seg(
                out,
                String::from_str("(").concat(ins.as_str()).concat(") → ").concat(outs.as_str()).concat("\n"),
                Style::Plain,
            );
            assert(segs_view(out@) =~= base + function_lines(c@.functions, k + 1));
            k = k + 1;
        }
    }
    assert(segs_view(out@) =~= start + functions_part(c@));
}

fn push_finalizes(out: &mut Vec<(String, Style)>, c: &Contract)
    ensures
        segs_view(final(out)@) == segs_view(old(out)@) + finalizes_part(c@),
{
    let ghost start = segs_view(out@);
    if c.finalizes.len() > 0 {
        push_heading(out, "Finalizes:", Style::YellowBold);
        let ghost base = segs_view(out@);
        let mut k: usize = 0;
        while k < c.finalizes.len()
            invariant
                k <= c@.finalizes.len(),
                c@.finalizes.len() == c.finalizes@.len(),
                segs_view(out@) == base + finalize_lines(c@.finalizes, k as int),
            decreases c.finalizes@.len() - k,
        {
            let f = &c.finalizes[k];
            assert(c@.finalizes[k as int] == f@);
            let ins = params_list(&f.inputs, false);
            push_str(out, "  ", Style::Plain);
            push_seg(out, f.name.clone(), Style::Magenta);
            push_seg(out, String::from_str("(").concat(ins.as_str()).concat(")\n"), Style::Plain);
            assert(segs_view(out@) =~= base + finalize_lines(c@.finalizes, k + 1));
            k = k + 1;
        }
    }
    assert(segs_view(out@) =~= start + finalizes_part(c@));
}

/// The listing of `c`, as `contract_listing` gives it.
pub fn contract_segments(c: &Contract) -> (r: Vec<(String, Style)>)
    ensures
        segs_view(r@) == contract_listing(c@),
{
    let mut out: Vec<(String, Style)> = Vec::new();
    push_str(&mut out, "📊 Contract:", Style::Bold);
    push_str(&mut out, " ", Style::Plain);
    push_seg(&mut out, c.program.clone(), Style::Cyan);
    push_str(&mut out, "\n", Style::Plain);
    let ghost head = segs_view(out@);
    assert(head =~= seq![("📊 Contract:"@, Style::Bold), plain(" "@), (c@.program, Style::Cyan), plain("\n"@)]);
    push_records(&mut out, c);
    push_mappings(&mut out, c);
    push_functions(&mut out, c);
    push_finalizes(&mut out, c);
    assert(segs_view(out@) =~= head + records_part(c@) + mappings_part(c@) + functions_part(c@) + finalizes_part(c@));
    out
}

// ============================================================================
// Fuzz reports
// ============================================================================

/// The verification section, when some case was verified with leo.
pub open spec fn zk_section(v: u32, p: u32, m: u32) -> Seq<SegView> {
    if v > 0 {
        heading("Privacy Capability Used:"@, Style::TitleCyan) + seq![
            plain("  "@),
            (num(v as int), Style::Cyan),
            plain(" ZK proof verifications via leo run\n"@),
            plain("  "@),
            (num(p as int), Style::Green),
            plain(" ZK proofs generated successfully\n"@),
            plain("  "@),
            (num(m as int), Style::Red),
            plain(" Mismatches (symbolic vs ZK) — true bugs\n"@),
        ]
    } else {
        seq![]
    }
}

fn push_zk_section(out: &mut Vec<(String, Style)>, v: u32, p: u32, m: u32)
    ensures
        segs_view(final(out)@) == segs_view(old(out)@) + zk_section(v, p, m),
{
    let ghost start = segs_view(out@);
    if v > 0 {
        push_heading(out, "Privacy Capability Used:", Style::TitleCyan);
        push_str(out, "  ", Style::Plain);
        push_seg(out, number(v as u128), Style::Cyan);
        push_str(out, " ZK proof verifications via leo run\n", Style::Plain);
        push_str(out, "  ", Style::Plain);
        push_seg(out, number(p as u128), Style::Green);
        push_str(out, " ZK proofs generated successfully\n", Style::Plain);
        push_str(out, "  ", Style::Plain);
        push_seg(out, number(m as u128), Style::Red);
        push_str(out, " Mismatches (symbolic vs ZK) — true bugs\n", Style::Plain);
    }
    assert(segs_view(out@) =~= start + zk_section(v, p, m));
}

/// The line of a function in the fuzz report; `pct` is its pass rate.
pub open spec fn pass_line(e: (String, u32, u32, u32), pct: Seq<char>) -> Seq<SegView> {
    seq![
        plain("  "@),
        if e.3 == 0 {
            ("✅"@, Style::Green)
        } else {
            ("⚠️ "@, Style::Yellow)
        },
        plain(" "@),
        (e.0@, Style::Magenta),
        plain(": "@ + num(e.2 as int) + "/"@ + num(e.1 as int) + " passed ("@ + pct + "%)"@),
    ] + (if e.3 > 0 {
        seq![plain(" — "@ + num(e.3 as int) + " "@), ("violations"@, Style::Red)]
    } else {
        seq![]
    }) + seq![plain("\n"@)]
}

/// The lines of the first `n` functions.
pub open spec fn pass_lines(pf: Seq<(String, u32, u32, u32)>, pcts: Seq<Seq<char>>, n: int) -> Seq<SegView>
    decreases n,
{
    if n <= 0 {
        seq![]
    } else {
        pass_lines(pf, pcts, n - 1) + pass_line(pf[n - 1], pcts[n - 1])
    }
}

/// A violation as the fuzz report shows it, with its inputs.
pub open spec fn shown_violation(r: ResultView) -> Seq<SegView> {
    match r.outcome {
        OutcomeView::Violation { detail, .. } => seq![
            plain("  "@),
            ("▸"@, Style::Red),
            plain(" "@),
            (r.function, Style::Magenta),
            plain(": "@ + detail + "\n"@),
            plain("    inputs: "@),
            (join(r.input_strings, ", "@), Style::Dimmed),
            plain("\n"@),
        ],
        _ => seq![],
    }
}

/// The results at the first `n` of the positions `idx`.
pub open spec fn shown_lines(rs: Seq<ResultView>, idx: Seq<int>, n: int) -> Seq<SegView>
    decreases n,
{
    if n <= 0 {
        seq![]
    } else {
        shown_lines(rs, idx, n - 1) + (if 0 <= idx[n - 1] < rs.len() {
            shown_violation(rs[idx[n - 1]])
        } else {
            seq![]
        })
    }
}

/// How many violations were left out, if any.
pub open spec fn more_line(total: int, shown: int) -> Seq<SegView> {
    if shown < total {
        seq![plain("  ... and "@ + num(total - shown) + " more violations\n"@)]
    } else {
        seq![]
    }
}

/// The fuzz report: title, one line per function (with the pass rates
/// `pcts`), the first five violations (underflows, overflows, others), the
/// summary and the verification section.
pub open spec fn report_listing(r: FuzzReport, pcts: Seq<Seq<char>>) -> Seq<SegView> {
    seq![
        ("⚡ Fuzz Report"@, Style::TitleYellow),
        plain(" (seed: "@),
        (num(r.config.seed as int), Style::Cyan),
        plain(", runs: "@),
        (num(r.total_runs as int), Style::Cyan),
        plain(")\n\n"@),
    ] + pass_lines(r.per_function@, pcts, r.per_function@.len() as int) + violations_part(
        results_view(r.violation_results@),
    ) + summary_part(r) + zk_section(r.zk_verifications, r.zk_proofs_generated, r.zk_mismatches)
}

fn join_inputs(v: &Vec<String>) -> (r: String)
    ensures
        r@ == join(texts(v@), ", "@),
{
    join_strings(v.as_slice(), ", ")
}

/// The violations part of the fuzz report.
pub open spec fn violations_part(rs: Seq<ResultView>) -> Seq<SegView> {
    if rs.len() == 0 {
        seq![]
    } else {
        heading("Violations:"@, Style::RedBold) + shown_lines(rs, highlights(rs, 5), highlights(rs, 5).len() as int)
            + more_line(rs.len() as int, highlights(rs, 5).len() as int)
    }
}

/// The summary part of the fuzz report.
pub open spec fn summary_part(r: FuzzReport) -> Seq<SegView> {
    heading("Summary:"@, Style::Bold) + seq![
        plain("  Total runs: "@ + num(r.total_runs as int) + "\n"@),
        plain("  "@),
        (num(r.passed as int), Style::Green),
        plain(" Passed\n"@),
        plain("  "@),
        (num(r.violations as int), Style::Red),
        plain(" Violations\n"@),
    ] + (if r.errors > 0 {
        seq![plain("  "@), (num(r.errors as int), Style::Red), plain(" Errors\n"@)]
    } else {
        seq![]
    })
}

fn push_pass_lines(out: &mut Vec<(String, Style)>, pf: &Vec<(String, u32, u32, u32)>, pcts: &Vec<String>)
    requires
        pcts@.len() == pf@.len(),
    ensures
        segs_view(final(out)@) == segs_view(old(out)@) + pass_lines(pf@, texts(pcts@), pf@.len() as int),
{
    let ghost pv = texts(pcts@);
    let ghost head = segs_view(out@);
    let mut k: usize = 0;
    while k < pf.len()
        invariant
            k <= pf@.len(),
            pcts@.len() == pf@.len(),
            pv == texts(pcts@),
            segs_view(out@) == head + pass_lines(pf@, pv, k as int),
        decreases pf@.len() - k,
    {
        let e = &pf[k];
        let ghost before = segs_view(out@);
        push_str(out, "  ", Style::Plain);
        if e.3 == 0 {
            push_str(out, "✅", Style::Green);
        } else {
            push_str(out, "⚠️ ", Style::Yellow);
        }
        push_str(out, " ", Style::Plain);
        push_seg(out, e.0.clone(), Style::Magenta);
        push_seg(
            out,
            String::from_str(": ").concat(number(e.2 as u128).as_str()).concat("/").concat(
                number(e.1 as u128).as_str(),
            ).concat(" passed (").concat(pcts[k].as_str()).concat("%)"),
            Style::Plain,
        );
        if e.3 > 0 {
            push_seg(out, String::from_str(" — ").concat(number(e.3 as u128).as_str()).concat(" "), Style::Plain);
            push_str(out, "violations", Style::Red);
        }
        push_str(out, "\n", Style::Plain);
        assert(segs_view(out@) =~= before + pass_line(pf@[k as int], pv[k as int]));
        assert(segs_view(out@) =~= head + pass_lines(pf@, pv, k + 1));
        k = k + 1;
    }
}

fn push_shown(out: &mut Vec<(String, Style)>, results: &Vec<crate::fuzzer::FuzzResult>, res_i: usize)
    requires
        res_i < results@.len(),
    ensures
        segs_view(final(out)@) == segs_view(old(out)@) + shown_violation(results_view(results@)[res_i as int]),
{
    let ghost before = segs_view(out@);
    let res = &results[res_i];
    assert(results_view(results@)[res_i as int] == res@);
    match &res.outcome {
        FuzzOutcome::Violation { detail, .. } => {
            push_str(out, "  ", Style::Plain);
            push_str(out, "▸", Style::Red);
            push_str(out, " ", Style::Plain);
            push_seg(out, res.function.clone(), Style::Magenta);
            push_seg(out, String::from_str(": ").concat(detail.as_str()).concat("\n"), Style::Plain);
            push_str(out, "    inputs: ", Style::Plain);
            push_seg(out, join_inputs(&res.input_strings), Style::Dimmed);
            push_str(out, "\n", Style::Plain);
        },
        _ => {},
    }
    assert(segs_view(out@) =~= before + shown_violation(res@));
}

fn push_violations(out: &mut Vec<(String, Style)>, results: &Vec<crate::fuzzer::FuzzResult>)
    ensures
        segs_view(final(out)@) == segs_view(old(out)@) + violations_part(results_view(results@)),
{
    let ghost rs = results_view(results@);
    let ghost start = segs_view(out@);
    if results.len() > 0 {
        push_heading(out, "Violations:", Style::RedBold);
        let shown = highlighted_violations(results, 5);
        let ghost hl = highlights(rs, 5);
        assert(shown@.map_values(|i: usize| i as int) == hl);
        assert(hl.len() == shown@.len());
        let ghost base = segs_view(out@);
        let mut j: usize = 0;
        while j < shown.len()
            invariant
                j <= shown@.len(),
                shown@.map_values(|i: usize| i as int) == hl,
                rs == results_view(results@),
                rs.len() == results@.len(),
                segs_view(out@) == base + shown_lines(rs, hl, j as int),
            decreases shown@.len() - j,
        {
            let i = shown[j];
            assert(hl[j as int] == i as int);
            let ghost before = segs_view(out@);
            if i < results.len() {
                push_shown(out, results, i);
            } else {
                assert(segs_view(out@) =~= before + Seq::<SegView>::empty());
            }
            assert(segs_view(out@) =~= base + shown_lines(rs, hl, j + 1));
            j = j + 1;
        }
        let ghost before_more = segs_view(out@);
        if shown.len() < results.len() {
            push_seg(
                out,
                String::from_str("  ... and ").concat(number((results.len() - shown.len()) as u128).as_str()).concat(
                    " more violations\n",
                ),
                Style::Plain,
            );
        }
        assert(segs_view(out@) =~= before_more + more_line(rs.len() as int, hl.len() as int));
    }
    assert(segs_view(out@) =~= start + violations_part(rs));
}

fn push_summary(out: &mut Vec<(String, Style)>, r: &FuzzReport)
    ensures
        segs_view(final(out)@) == segs_view(old(out)@) + summary_part(*r),
{
    let ghost start = segs_view(out@);
    push_heading(out, "Summary:", Style::Bold);
    push_seg(out, String::from_str("  Total runs: ").concat(number(r.total_runs as u128).as_str()).concat("\n"), Style::Plain);
    push_str(out, "  ", Style::Plain);
    push_seg(out, number(r.passed as u128), Style::Green);
    push_str(out, " Passed\n", Style::Plain);
    push_str(out, "  ", Style::Plain);
    push_seg(out, number(r.violations as u128), Style::Red);
    push_str(out, " Violations\n", Style::Plain);
    if r.errors > 0 {
        push_str(out, "  ", Style::Plain);
        push_seg(out, number(r.errors as u128), Style::Red);
        push_str(out, " Errors\n", Style::Plain);
    }
    assert(segs_view(out@) =~= start + summary_part(*r));
}

/// The fuzz report of `r`, with the pass rate of each function in `pcts`.
pub fn report_segments(r: &FuzzReport, pcts: &Vec<String>) -> (out: Vec<(String, Style)>)
    requires
        pcts@.len() == r.per_function@.len(),
    ensures
        segs_view(out@) == report_listing(*r, texts(pcts@)),
{
    let mut out: Vec<(String, Style)> = Vec::new();
    push_str(&mut out, "⚡ Fuzz Report", Style::TitleYellow);
    push_str(&mut out, " (seed: ", Style::Plain);
    push_seg(&mut out, number(r.config.seed as u128), Style::Cyan);
    push_str(&mut out, ", runs: ", Style::Plain);
    push_seg(&mut out, number(r.total_runs as u128), Style::Cyan);
    push_str(&mut out, ")\n\n", Style::Plain);
    push_pass_lines(&mut out, &r.per_function, pcts);
    push_violations(&mut out, &r.violation_results);
    push_summary(&mut out, r);
    push_zk_section(&mut out, r.zk_verifications, r.zk_proofs_generated, r.zk_mismatches);
    out
}


// ============================================================================
// Invariant check reports
// ============================================================================

/// The line of a function in the invariant check report: pass or fail,
/// the pass rate `pct`, and the checks in effect for it under `sp`.
pub open spec fn check_line(e: (String, u32, u32, u32), pct: Seq<char>, sp: InvariantSpec) -> Seq<SegView> {
    seq![
        plain("  "@),
        if e.3 == 0 {
            ("PASS"@, Style::Green)
        } else {
            ("FAIL"@, Style::Red)
        },
        plain(" "@),
        (e.0@, Style::Magenta),
        plain(": "@ + num(e.2 as int) + "/"@ + num(e.1 as int) + " ("@ + pct + "%)  invariants: ["@),
        (join(active_labels(sp.invariants.resolved(e.0@)), ", "@), Style::Dimmed),
        plain("]\n"@),
    ]
}

/// The lines of the first `n` functions.
pub open spec fn check_lines(pf: Seq<(String, u32, u32, u32)>, pcts: Seq<Seq<char>>, sp: InvariantSpec, n: int) -> Seq<
    SegView,
>
    decreases n,
{
    if n <= 0 {
        seq![]
    } else {
        check_lines(pf, pcts, sp, n - 1) + check_line(pf[n - 1], pcts[n - 1], sp)
    }
}

/// The line of a custom assertion.
pub open spec fn assertion_line(a: AssertionDef) -> Seq<SegView> {
    seq![
        plain("  "@),
        ("▸"@, Style::Dimmed),
        plain(" ["@),
        (assertion_label(a.assertion_type), Style::Dimmed),
        plain("] "@),
        (a.function@, Style::Magenta),
        plain(" — "@ + a.description@ + "\n"@),
    ]
}

/// The lines of the first `n` assertions.
pub open spec fn assertion_lines(asserts: Seq<AssertionDef>, n: int) -> Seq<SegView>
    decreases n,
{
    if n <= 0 {
        seq![]
    } else {
        assertion_lines(asserts, n - 1) + assertion_line(asserts[n - 1])
    }
}

/// The assertions part: a count and a line per assertion.
pub open spec fn assertions_part(asserts: Seq<AssertionDef>) -> Seq<SegView> {
    if asserts.len() == 0 {
        seq![]
    } else {
        seq![
            plain("\n"@),
            ("Custom Assertions:"@, Style::Bold),
            plain(" ("@),
            (num(asserts.len() as int), Style::Cyan),
            plain(" defined)\n"@),
        ] + assertion_lines(asserts, asserts.len() as int)
    }
}

/// A violation as the invariant check report lists it.
pub open spec fn listed_violation(r: ResultView) -> Seq<SegView> {
    match r.outcome {
        OutcomeView::Violation { invariant_name, detail } => seq![
            plain("  "@),
            ("▸"@, Style::Red),
            plain(" ["@),
            (invariant_name, Style::Yellow),
            plain("] "@),
            (r.function, Style::Magenta),
            plain(": "@ + detail + "\n"@),
        ],
        _ => seq![],
    }
}

/// The first `n` results, as listed.
pub open spec fn listed_lines(rs: Seq<ResultView>, n: int) -> Seq<SegView>
    decreases n,
{
    if n <= 0 {
        seq![]
    } else {
        listed_lines(rs, n - 1) + listed_violation(rs[n - 1])
    }
}

/// The violations part: the first ten results, and how many more there are.
pub open spec fn listed_part(rs: Seq<ResultView>) -> Seq<SegView> {
    if rs.len() == 0 {
        seq![]
    } else {
        heading("Violations:"@, Style::RedBold) + listed_lines(rs, if rs.len() < 10 { rs.len() as int } else { 10 })
            + (if rs.len() > 10 {
            seq![plain("  ... and "@ + num(rs.len() - 10) + " more violations\n"@)]
        } else {
            seq![]
        })
    }
}

/// The invariant check report of `r` under `sp`, with the pass rates `pcts`.
pub open spec fn check_listing(r: FuzzReport, pcts: Seq<Seq<char>>, sp: InvariantSpec) -> Seq<SegView> {
    seq![
        ("Invariant Check Report"@, Style::TitleYellow),
        plain(" "@),
        ("(spec: "@ + sp.contract.name@ + ")"@, Style::Cyan),
        plain("\n\n"@),
        ("Ran"@, Style::Bold),
        plain(" "@),
        (num(r.total_runs as int), Style::Cyan),
        plain(" runs (seed: "@),
        (num(r.config.seed as int), Style::Cyan),
        plain(")\n\n"@),
    ] + check_lines(r.per_function@, pcts, sp, r.per_function@.len() as int) + assertions_part(sp.assertions@)
        + listed_part(results_view(r.violation_results@)) + seq![
        plain("\n"@),
        ("Result:"@, Style::Bold),
        plain(" "@),
        (num(r.passed as int), Style::Green),
        plain(" passed, "@),
        (num(r.violations as int), Style::Red),
        plain(" violations\n"@),
    ] + zk_section(r.zk_verifications, r.zk_proofs_generated, r.zk_mismatches)
}

fn push_check_lines(out: &mut Vec<(String, Style)>, pf: &Vec<(String, u32, u32, u32)>, pcts: &Vec<String>, sp: &InvariantSpec)
    requires
        pcts@.len() == pf@.len(),
    ensures
        segs_view(final(out)@) == segs_view(old(out)@) + check_lines(pf@, texts(pcts@), *sp, pf@.len() as int),
{
    let ghost pv = texts(pcts@);
    let ghost head = segs_view(out@);
    let mut k: usize = 0;
    while k < pf.len()
        invariant
            k <= pf@.len(),
            pcts@.len() == pf@.len(),
            pv == texts(pcts@),
            segs_view(out@) == head + check_lines(pf@, pv, *sp, k as int),
        decreases pf@.len() - k,
    {
        let e = &pf[k];
        let ghost before = segs_view(out@);
        let toggle = sp.invariants.resolve(e.0.as_str());
        let labels = active_invariant_labels(&toggle);
        push_str(out, "  ", Style::Plain);
        if e.3 == 0 {
            push_str(out, "PASS", Style::Green);
        } else {
            push_str(out, "FAIL", Style::Red);
        }
        push_str(out, " ", Style::Plain);
        push_seg(out, e.0.clone(), Style::Magenta);
        push_seg(
            out,
            String::from_str(": ").concat(number(e.2 as u128).as_str()).concat("/").concat(
                number(e.1 as u128).as_str(),
            ).concat(" (").concat(pcts[k].as_str()).concat("%)  invariants: ["),
            Style::Plain,
        );
        push_seg(out, join_strings(labels.as_slice(), ", "), Style::Dimmed);
        push_str(out, "]\n", Style::Plain);
        assert(segs_view(out@) =~= before + check_line(pf@[k as int], pv[k as int], *sp));
        assert(segs_view(out@) =~= head + check_lines(pf@, pv, *sp, k + 1));
        k = k + 1;
    }
}

fn push_assertions(out: &mut Vec<(String, Style)>, asserts: &Vec<AssertionDef>)
    ensures
        segs_view(final(out)@) == segs_view(old(out)@) + assertions_part(asserts@),
{
    let ghost start = segs_view(out@);
    if asserts.len() > 0 {
        push_str(out, "\n", Style::Plain);
        push_str(out, "Custom Assertions:", Style::Bold);
        push_str(out, " (", Style::Plain);
        push_seg(out, number(asserts.len() as u128), Style::Cyan);
        push_str(out, " defined)\n", Style::Plain);
        let ghost base = segs_view(out@);
        let mut k: usize = 0;
        while k < asserts.len()
            invariant
                k <= asserts@.len(),
                segs_view(out@) == base + assertion_lines(asserts@, k as int),
            decreases asserts@.len() - k,
        {
            let a = &asserts[k];
            let ghost before = segs_view(out@);
            push_str(out, "  ", Style::Plain);
            push_str(out, "▸", Style::Dimmed);
            push_str(out, " [", Style::Plain);
            push_seg(out, a.assertion_type.label(), Style::Dimmed);
            push_str(out, "] ", Style::Plain);
            push_seg(out, a.function.clone(), Style::Magenta);
            push_seg(out, String::from_str(" — ").concat(a.description.as_str()).concat("\n"), Style::Plain);
            assert(segs_view(out@) =~= before + assertion_line(asserts@[k as int]));
            assert(segs_view(out@) =~= base + assertion_lines(asserts@, k + 1));
            k = k + 1;
        }
    }
    assert(segs_view(out@) =~= start + assertions_part(asserts@));
}

fn push_listed(out: &mut Vec<(String, Style)>, results: &Vec<crate::fuzzer::FuzzResult>)
    ensures
        segs_view(final(out)@) == segs_view(old(out)@) + listed_part(results_view(results@)),
{
    let ghost rs = results_view(results@);
    let ghost start = segs_view(out@);
    if results.len() > 0 {
        push_heading(out, "Violations:", Style::RedBold);
        let ghost base = segs_view(out@);
        let limit: usize = if results.len() < 10 {
            results.len()
        } else {
            10
        };
        let mut k: usize = 0;
        while k < limit
            invariant
                k <= limit <= results@.len(),
                rs == results_view(results@),
                segs_view(out@) == base + listed_lines(rs, k as int),
            decreases limit - k,
        {
            let res = &results[k];
            assert(rs[k as int] == res@);
            let ghost before = segs_view(out@);
            match &res.outcome {
                FuzzOutcome::Violation { invariant_name, detail } => {
                    push_str(out, "  ", Style::Plain);
                    push_str(out, "▸", Style::Red);
                    push_str(out, " [", Style::Plain);
                    push_seg(out, invariant_name.clone(), Style::Yellow);
                    push_str(out, "] ", Style::Plain);
                    push_seg(out, res.function.clone(), Style::Magenta);
                    push_seg(out, String::from_str(": ").concat(detail.as_str()).concat("\n"), Style::Plain);
                },
                _ => {},
            }
            assert(segs_view(out@) =~= before + listed_violation(rs[k as int]));
            assert(segs_view(out@) =~= base + listed_lines(rs, k + 1));
            k = k + 1;
        }
        let ghost before_more = segs_view(out@);
        if results.len() > 10 {
            push_seg(
                out,
                String::from_str("  ... and ").concat(number((results.len() - 10) as u128).as_str()).concat(
                    " more violations\n",
                ),
                Style::Plain,
            );
        }
        assert(segs_view(out@) =~= start + listed_part(rs));
    }
    assert(segs_view(out@) =~= start + listed_part(rs));
}

/// The invariant check report of `r` under `sp`, with the pass rate of
/// each function in `pcts`.
pub fn check_report_segments(r: &FuzzReport, pcts: &Vec<String>, sp: &InvariantSpec) -> (out: Vec<(String, Style)>)
    requires
        pcts@.len() == r.per_function@.len(),
    ensures
        segs_view(out@) == check_listing(*r, texts(pcts@), *sp),
{
    let mut out: Vec<(String, Style)> = Vec::new();
    push_str(&mut out, "Invariant Check Report", Style::TitleYellow);
    push_str(&mut out, " ", Style::Plain);
    push_seg(&mut out, String::from_str("(spec: ").concat(sp.contract.name.as_str()).concat(")"), Style::Cyan);
    push_str(&mut out, "\n\n", Style::Plain);
    push_str(&mut out, "Ran", Style::Bold);
    push_str(&mut out, " ", Style::Plain);
    push_seg(&mut out, number(r.total_runs as u128), Style::Cyan);
    push_str(&mut out, " runs (seed: ", Style::Plain);
    push_seg(&mut out, number(r.config.seed as u128), Style::Cyan);
    push_str(&mut out, ")\n\n", Style::Plain);
    push_check_lines(&mut out, &r.per_function, pcts, sp);
    push_assertions(&mut out, &sp.assertions);
    push_listed(&mut out, &r.violation_results);
    let ghost before_result = segs_view(out@);
    push_str(&mut out, "\n", Style::Plain);
    push_str(&mut out, "Result:", Style::Bold);
    push_str(&mut out, " ", Style::Plain);
    push_seg(&mut out, number(r.passed as u128), Style::Green);
    push_str(&mut out, " passed, ", Style::Plain);
    push_seg(&mut out, number(r.violations as u128), Style::Red);
    push_str(&mut out, " violations\n", Style::Plain);
    push_zk_section(&mut out, r.zk_verifications, r.zk_proofs_generated, r.zk_mismatches);
    out
}

} // verus!
