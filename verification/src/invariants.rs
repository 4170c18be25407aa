//! Safety and privacy invariants checked on the registers after a function
//! body has run: balance conservation, owner integrity, zero amounts,
//! record consumption, use of private parameters, and the custom
//! assertions of a specification.
//!
//! Each check returns `None` when it finds nothing, and otherwise the
//! messages it found, in the order of the parameters (or registers) they
//! concern.
use vstd::prelude::*;
use crate::text;
use crate::text::{chars_of, ends_with_at, i128_text, starts_with_at, u128_text};
use crate::value;
use crate::value::{SymValue, ValueView, find_entry, values_equal};
use crate::symbolic;
use crate::symbolic::{SymbolicState, texts};
use crate::parser::{Contract, FunctionDef, Param, ParamView, FunctionView, Visibility};
use crate::spec::{AssertionDef, AssertionType, InvariantSpec};

verus! {

// ============================================================================
// Specification
// ============================================================================

/// `None` for no messages, the messages otherwise.
pub open spec fn report_of(m: Seq<Seq<char>>) -> Option<Seq<Seq<char>>> {
    if m.len() == 0 {
        None
    } else {
        Some(m)
    }
}

/// The texts of an optional list of messages.
pub open spec fn opt_texts(r: Option<Vec<String>>) -> Option<Seq<Seq<char>>> {
    match r {
        Some(v) => Some(texts(v@)),
        None => None,
    }
}

/// A function whose name starts with `transfer_`.
pub open spec fn is_transfer(name: Seq<char>) -> bool {
    text::starts_with(name, "transfer_"@)
}

/// The type of a record parameter ends with `.record`.
pub open spec fn is_record_type(ty: Seq<char>) -> bool {
    text::ends_with(ty, ".record"@)
}

/// Some input of `f` is a record.
pub open spec fn has_record_param(f: FunctionView) -> bool {
    exists|i: int| 0 <= i < f.inputs.len() && is_record_type(#[trigger] f.inputs[i].ty)
}

/// The wrapping sum of the amounts carried by the registers of `ps`; with
/// `records_only`, parameters of other than record type are left out.
pub open spec fn amount_total(ps: Seq<ParamView>, regs: Seq<(Seq<char>, ValueView)>, records_only: bool) -> u64
    decreases ps.len(),
{
    if ps.len() == 0 {
        0
    } else {
        let s = amount_total(ps.drop_last(), regs, records_only);
        let p = ps.last();
        if records_only && !is_record_type(p.ty) {
            s
        } else {
            match value::lookup(regs, p.register) {
                Some(v) => match value::amount_of(v) {
                    Some(a) => symbolic::wrap_add(s, a),
                    None => s,
                },
                None => s,
            }
        }
    }
}

/// The register of some parameter in `ps` holds a future.
pub open spec fn any_future(ps: Seq<ParamView>, regs: Seq<(Seq<char>, ValueView)>) -> bool
    decreases ps.len(),
{
    ps.len() > 0 && (any_future(ps.drop_last(), regs) || value::lookup(regs, ps.last().register) matches Some(
        ValueView::Future(_),
    ))
}

/// Balance conservation: the amounts of the input records add up to those
/// of the output records. The check applies when both totals were tracked
/// (are not zero) and no output is a future, which moves an amount to a
/// public balance.
pub open spec fn balance_violations(f: FunctionView, regs: Seq<(Seq<char>, ValueView)>) -> Seq<Seq<char>> {
    let input = amount_total(f.inputs, regs, true);
    let output = amount_total(f.outputs, regs, true);
    if input == 0 && !has_record_param(f) {
        seq![]
    } else if any_future(f.outputs, regs) {
        seq![]
    } else if input > 0 && output > 0 && input != output {
        seq![
            "BALANCE_MISMATCH in "@ + f.name + ": input total ~"@ + text::decimal(input as nat)
                + ", output total ~"@ + text::decimal(output as nat),
        ]
    } else {
        seq![]
    }
}

/// `any_future` holds exactly when some output register holds a future.
proof fn lemma_any_future(ps: Seq<ParamView>, regs: Seq<(Seq<char>, ValueView)>)
    ensures
        any_future(ps, regs) <==> exists|i: int|
            0 <= i < ps.len() && (value::lookup(regs, #[trigger] ps[i].register) matches Some(ValueView::Future(_))),
    decreases ps.len(),
{
    if ps.len() > 0 {
        lemma_any_future(ps.drop_last(), regs);
        if any_future(ps.drop_last(), regs) {
            let i = choose|i: int|
                0 <= i < ps.drop_last().len() && (value::lookup(regs, #[trigger] ps.drop_last()[i].register) matches Some(
                    ValueView::Future(_),
                ));
            assert(ps[i] == ps.drop_last()[i]);
        }
        if exists|i: int|
            0 <= i < ps.len() && (value::lookup(regs, #[trigger] ps[i].register) matches Some(ValueView::Future(_))) {
            let i = choose|i: int|
                0 <= i < ps.len() && (value::lookup(regs, #[trigger] ps[i].register) matches Some(ValueView::Future(_)));
            if i < ps.len() - 1 {
                assert(ps.drop_last()[i] == ps[i]);
            }
        }
    }
}

/// A function some of whose outputs is a future moves an amount to a
/// public balance: balance conservation reports nothing for it.
pub proof fn future_output_skips_balance(f: FunctionView, regs: Seq<(Seq<char>, ValueView)>, i: int)
    requires
        0 <= i < f.outputs.len(),
        value::lookup(regs, f.outputs[i].register) matches Some(ValueView::Future(_)),
    ensures
        balance_violations(f, regs).len() == 0,
{
    lemma_any_future(f.outputs, regs);
}

/// Without a future among the outputs, balance conservation reports one
/// `BALANCE_MISMATCH` exactly when both record totals were tracked and
/// differ.
pub proof fn balance_mismatch_reported(f: FunctionView, regs: Seq<(Seq<char>, ValueView)>)
    requires
        forall|i: int|
            0 <= i < f.outputs.len() ==> !(value::lookup(regs, #[trigger] f.outputs[i].register) matches Some(
                ValueView::Future(_),
            )),
        amount_total(f.inputs, regs, true) > 0,
        amount_total(f.outputs, regs, true) > 0,
    ensures
        balance_violations(f, regs).len() == (if amount_total(f.inputs, regs, true) != amount_total(
            f.outputs,
            regs,
            true,
        ) {
            1int
        } else {
            0int
        }),
        balance_violations(f, regs).len() == 1 ==> text::starts_with(balance_violations(f, regs)[0], "BALANCE_MISMATCH"@),
{
    lemma_any_future(f.outputs, regs);
    if balance_violations(f, regs).len() == 1 {
        reveal_strlit("BALANCE_MISMATCH in ");
        reveal_strlit("BALANCE_MISMATCH");
        assert(balance_violations(f, regs)[0].subrange(0, 16) =~= "BALANCE_MISMATCH"@);
    }
}

/// `no_field_none` adds, for an output record whose field is a `u64` or
/// `u32` zero, one message, and it starts with `FIELD_ZERO`; for one whose
/// field is present, known and not such a zero, it adds nothing.
pub proof fn no_field_none_flags_zero(
    name: Seq<char>,
    outs: Seq<ParamView>,
    regs: Seq<(Seq<char>, ValueView)>,
    field: Seq<char>,
    i: int,
    rt: Seq<char>,
    fields: Seq<(Seq<char>, ValueView)>,
    v: ValueView,
)
    requires
        0 <= i < outs.len(),
        value::lookup(regs, outs[i].register) == Some(ValueView::Record { record_type: rt, fields }),
        value::lookup(fields, field) == Some(v),
    ensures
        (v == ValueView::U64(0) || v == ValueView::U32(0)) ==> {
            let before = no_field_none_violations(name, outs.take(i), regs, field);
            let after = no_field_none_violations(name, outs.take(i + 1), regs, field);
            &&& after.len() == before.len() + 1
            &&& after.take(before.len() as int) == before
            &&& text::starts_with(after.last(), "FIELD_ZERO"@)
        },
        (v != ValueView::Unknown && v != ValueView::U64(0) && v != ValueView::U32(0)) ==> no_field_none_violations(
            name,
            outs.take(i + 1),
            regs,
            field,
        ) == no_field_none_violations(name, outs.take(i), regs, field),
{
    assert(outs.take(i + 1).drop_last() =~= outs.take(i));
    assert(outs.take(i + 1).last() == outs[i]);
    let before = no_field_none_violations(name, outs.take(i), regs, field);
    let after = no_field_none_violations(name, outs.take(i + 1), regs, field);
    if v == ValueView::U64(0) || v == ValueView::U32(0) {
        reveal_strlit("FIELD_ZERO in ");
        reveal_strlit("FIELD_ZERO");
        assert(after.take(before.len() as int) =~= before);
        assert(after.last().subrange(0, 10) =~= "FIELD_ZERO"@);
    }
}

/// Owner integrity: every output record has an owner that is not unknown.
pub open spec fn owner_violations(name: Seq<char>, outs: Seq<ParamView>, regs: Seq<(Seq<char>, ValueView)>) -> Seq<Seq<char>>
    decreases outs.len(),
{
    if outs.len() == 0 {
        seq![]
    } else {
        let prev = owner_violations(name, outs.drop_last(), regs);
        let r = outs.last().register;
        match value::lookup(regs, r) {
            Some(ValueView::Record { fields, .. }) => match value::lookup(fields, "owner"@) {
                None => prev.push(
                    "MISSING_OWNER in "@ + name + ": output "@ + r + " record has no owner field"@,
                ),
                Some(ValueView::Unknown) => prev.push(
                    "INVALID_OWNER in "@ + name + ": output "@ + r + " record owner is unknown"@,
                ),
                _ => prev,
            },
            _ => prev,
        }
    }
}

/// A zero of one of the unsigned types `u8`, `u16`, `u32`, `u64`.
pub open spec fn is_zero_scalar(v: ValueView) -> bool {
    ||| v == ValueView::U64(0)
    ||| v == ValueView::U32(0)
    ||| v == ValueView::U16(0)
    ||| v == ValueView::U8(0)
}

/// Zero amounts: registers holding an unsigned zero, and records whose
/// `amount` is `0u64`, in register order.
pub open spec fn zero_violations(regs: Seq<(Seq<char>, ValueView)>) -> Seq<Seq<char>>
    decreases regs.len(),
{
    if regs.len() == 0 {
        seq![]
    } else {
        let prev = zero_violations(regs.drop_last());
        let r = regs.last().0;
        let v = regs.last().1;
        if is_zero_scalar(v) {
            prev.push("ZERO_AMOUNT: register "@ + r + " holds zero ("@ + value::leo_text(v) + ")"@)
        } else {
            match v {
                ValueView::Record { fields, .. } => if value::lookup(fields, "amount"@) == Some(
                    ValueView::U64(0),
                ) {
                    prev.push("ZERO_AMOUNT: output record in "@ + r + " has amount = 0"@)
                } else {
                    prev
                },
                _ => prev,
            }
        }
    }
}

/// `field_set`: every output record has the field.
pub open spec fn field_set_violations(
    name: Seq<char>,
    outs: Seq<ParamView>,
    regs: Seq<(Seq<char>, ValueView)>,
    field: Seq<char>,
) -> Seq<Seq<char>>
    decreases outs.len(),
{
    if outs.len() == 0 {
        seq![]
    } else {
        let prev = field_set_violations(name, outs.drop_last(), regs, field);
        let r = outs.last().register;
        match value::lookup(regs, r) {
            Some(ValueView::Record { record_type, fields }) => if value::lookup(fields, field) is None {
                prev.push(
                    "FIELD_NOT_SET in "@ + name + ": output "@ + r + " ("@ + record_type
                        + ") is missing field '"@ + field + "'"@,
                )
            } else {
                prev
            },
            _ => prev,
        }
    }
}

/// `amount_conserved`: the input records carry as much as the output
/// records (not checked when an output is a future or the inputs carry nothing).
pub open spec fn amount_conserved_violations(f: FunctionView, regs: Seq<(Seq<char>, ValueView)>) -> Seq<Seq<char>> {
    let input = amount_total(f.inputs, regs, true);
    let output = amount_total(f.outputs, regs, true);
    if any_future(f.outputs, regs) || input == 0 {
        seq![]
    } else if input != output {
        seq![
            "AMOUNT_NOT_CONSERVED in "@ + f.name + ": input total = "@ + text::decimal(input as nat)
                + ", output total = "@ + text::decimal(output as nat),
        ]
    } else {
        seq![]
    }
}

/// `no_field_none`: in every output record the field is present, not
/// unknown, and not a `u64` or `u32` zero.
pub open spec fn no_field_none_violations(
    name: Seq<char>,
    outs: Seq<ParamView>,
    regs: Seq<(Seq<char>, ValueView)>,
    field: Seq<char>,
) -> Seq<Seq<char>>
    decreases outs.len(),
{
    if outs.len() == 0 {
        seq![]
    } else {
        let prev = no_field_none_violations(name, outs.drop_last(), regs, field);
        let r = outs.last().register;
        match value::lookup(regs, r) {
            Some(ValueView::Record { fields, .. }) => match value::lookup(fields, field) {
                None => prev.push(
                    "FIELD_NONE in "@ + name + ": output "@ + r + " has no field '"@ + field + "'"@,
                ),
                Some(v) => if v == ValueView::Unknown {
                    prev.push(
                        "FIELD_NONE in "@ + name + ": output "@ + r + " field '"@ + field
                            + "' is Unknown"@,
                    )
                } else if v == ValueView::U64(0) || v == ValueView::U32(0) {
                    prev.push(
                        "FIELD_ZERO in "@ + name + ": output "@ + r + " field '"@ + field
                            + "' is zero"@,
                    )
                } else {
                    prev
                },
            },
            _ => prev,
        }
    }
}

/// The range messages for one amount.
pub open spec fn range_messages(
    name: Seq<char>,
    r: Seq<char>,
    field: Seq<char>,
    amt: u64,
    min: Option<i64>,
    max: Option<i64>,
) -> Seq<Seq<char>> {
    let head = "RANGE_VIOLATION in "@ + name + ": output "@ + r + " field '"@ + field + "' = "@
        + text::decimal(amt as nat);
    let low: Seq<Seq<char>> = match min {
        Some(m) => if (amt as int) < (m as int) {
            seq![head + " (min = "@ + text::signed_decimal(m as int) + ")"@]
        } else {
            seq![]
        },
        None => seq![],
    };
    let high: Seq<Seq<char>> = match max {
        Some(m) => if (amt as int) > (m as int) {
            seq![head + " (max = "@ + text::signed_decimal(m as int) + ")"@]
        } else {
            seq![]
        },
        None => seq![],
    };
    low + high
}

/// `range_check`: the amount of the field of every output record lies
/// within the bounds `[min, max]`.
pub open spec fn range_violations(
    name: Seq<char>,
    outs: Seq<ParamView>,
    regs: Seq<(Seq<char>, ValueView)>,
    field: Seq<char>,
    min: Option<i64>,
    max: Option<i64>,
) -> Seq<Seq<char>>
    decreases outs.len(),
{
    if outs.len() == 0 {
        seq![]
    } else {
        let prev = range_violations(name, outs.drop_last(), regs, field, min, max);
        let r = outs.last().register;
        match value::lookup(regs, r) {
            Some(ValueView::Record { fields, .. }) => match value::lookup(fields, field) {
                Some(fv) => match value::amount_of(fv) {
                    Some(amt) => prev + range_messages(name, r, field, amt, min, max),
                    None => prev,
                },
                None => prev,
            },
            _ => prev,
        }
    }
}

/// Two optional field values are equal (as the value type's `==` decides).
pub open spec fn same_entry(a: Option<ValueView>, b: Option<ValueView>) -> bool {
    match (a, b) {
        (Some(x), Some(y)) => value::same_value(x, y),
        (None, None) => true,
        _ => false,
    }
}

/// Record consumption for one input record with fields `fi`, against each
/// output record in turn.
pub open spec fn pair_violations(
    name: Seq<char>,
    input: Seq<char>,
    fi: Seq<(Seq<char>, ValueView)>,
    outs: Seq<ParamView>,
    regs: Seq<(Seq<char>, ValueView)>,
) -> Seq<Seq<char>>
    decreases outs.len(),
{
    if outs.len() == 0 {
        seq![]
    } else {
        let prev = pair_violations(name, input, fi, outs.drop_last(), regs);
        let o = outs.last();
        if !is_record_type(o.ty) {
            prev
        } else {
            match value::lookup(regs, o.register) {
                Some(ValueView::Record { fields: fo, .. }) => if same_entry(
                    value::lookup(fi, "owner"@),
                    value::lookup(fo, "owner"@),
                ) && same_entry(value::lookup(fi, "amount"@), value::lookup(fo, "amount"@))
                    && value::lookup(fi, "owner"@) is Some {
                    prev.push(
                        "RECORD_NOT_CONSUMED in "@ + name + ": input "@ + input + " and output "@
                            + o.register + " have identical owner+amount — possible double-spend"@,
                    )
                } else {
                    prev
                },
                _ => prev,
            }
        }
    }
}

/// Record consumption: no output record has the owner and amount of an
/// input record (which would mean the input was passed through).
pub open spec fn consumption_violations(
    name: Seq<char>,
    ins: Seq<ParamView>,
    outs: Seq<ParamView>,
    regs: Seq<(Seq<char>, ValueView)>,
) -> Seq<Seq<char>>
    decreases ins.len(),
{
    if ins.len() == 0 {
        seq![]
    } else {
        let prev = consumption_violations(name, ins.drop_last(), outs, regs);
        let p = ins.last();
        if !is_record_type(p.ty) {
            prev
        } else {
            match value::lookup(regs, p.register) {
                Some(ValueView::Record { fields, .. }) => prev + pair_violations(
                    name,
                    p.register,
                    fields,
                    outs,
                    regs,
                ),
                _ => prev,
            }
        }
    }
}

/// Private parameter usage: every `.private` input has a register value.
pub open spec fn private_violations(name: Seq<char>, ins: Seq<ParamView>, regs: Seq<(Seq<char>, ValueView)>) -> Seq<Seq<char>>
    decreases ins.len(),
{
    if ins.len() == 0 {
        seq![]
    } else {
        let prev = private_violations(name, ins.drop_last(), regs);
        let p = ins.last();
        if p.visibility == Visibility::Private && value::lookup(regs, p.register) is None {
            prev.push(
                "UNUSED_PRIVATE_PARAM in "@ + name + ": private param "@ + p.register + " ("@ + p.ty
                    + ") was never accessed"@,
            )
        } else {
            prev
        }
    }
}

/// The messages of one custom assertion (one that needs a field and has
/// none checks nothing).
pub open spec fn custom_violations(a: AssertionDef, f: FunctionView, regs: Seq<(Seq<char>, ValueView)>) -> Seq<Seq<char>> {
    match a.assertion_type {
        AssertionType::FieldSet => match a.field {
            Some(fl) => field_set_violations(f.name, f.outputs, regs, fl@),
            None => seq![],
        },
        AssertionType::AmountConserved => amount_conserved_violations(f, regs),
        AssertionType::NoFieldNone => match a.field {
            Some(fl) => no_field_none_violations(f.name, f.outputs, regs, fl@),
            None => seq![],
        },
        AssertionType::RangeCheck => match a.field {
            Some(fl) => range_violations(f.name, f.outputs, regs, fl@, a.min, a.max),
            None => seq![],
        },
    }
}

/// The messages of the assertions on `f`, in order.
pub open spec fn assertions_violations(asserts: Seq<AssertionDef>, f: FunctionView, regs: Seq<(Seq<char>, ValueView)>) -> Seq<Seq<char>>
    decreases asserts.len(),
{
    if asserts.len() == 0 {
        seq![]
    } else {
        let prev = assertions_violations(asserts.drop_last(), f, regs);
        let a = asserts.last();
        if a.function@ == f.name {
            prev + custom_violations(a, f, regs)
        } else {
            prev
        }
    }
}

/// Every check on `f`: with a specification, those its toggles enable for
/// `f` and its assertions on `f`; without one, balance conservation (for
/// transfers), owner integrity and zero amounts.
pub open spec fn invariant_violations(
    f: FunctionView,
    regs: Seq<(Seq<char>, ValueView)>,
    spec: Option<InvariantSpec>,
) -> Seq<Seq<char>> {
    match spec {
        Some(sp) => {
            let t = sp.invariants.resolved(f.name);
            (if t.enabled("balance_conservation"@) && is_transfer(f.name) {
                balance_violations(f, regs)
            } else {
                seq![]
            }) + (if t.enabled("owner_integrity"@) {
                owner_violations(f.name, f.outputs, regs)
            } else {
                seq![]
            }) + (if t.enabled("zero_amount"@) {
                zero_violations(regs)
            } else {
                seq![]
            }) + (if t.enabled("record_consumption"@) {
                consumption_violations(f.name, f.inputs, f.outputs, regs)
            } else {
                seq![]
            }) + (if t.enabled("private_param_usage"@) {
                private_violations(f.name, f.inputs, regs)
            } else {
                seq![]
            }) + assertions_violations(sp.assertions@, f, regs)
        },
        None => (if is_transfer(f.name) {
            balance_violations(f, regs)
        } else {
            seq![]
        }) + owner_violations(f.name, f.outputs, regs) + zero_violations(regs),
    }
}

// ============================================================================
// Helpers
// ============================================================================

/// Appends `m` to `out`.
fn push_msg(out: &mut Vec<String>, m: String)
    ensures
        texts(final(out)@) == texts(old(out)@).push(m@),
{
    out.push(m);
    assert(texts(out@) =~= texts(old(out)@).push(m@));
}

/// Appends `more` to `out`.
fn extend(out: &mut Vec<String>, more: Vec<String>)
    ensures
        texts(final(out)@) == texts(old(out)@) + texts(more@),
{
    let mut more = more;
    let ghost m = more@;
    out.append(&mut more);
    assert(texts(out@) =~= texts(old(out)@) + texts(m));
}

/// `None` for an empty list, the list otherwise.
fn as_report(v: Vec<String>) -> (r: Option<Vec<String>>)
    ensures
        opt_texts(r) == report_of(texts(v@)),
{
    if v.len() == 0 {
        None
    } else {
        Some(v)
    }
}

/// Whether `ty` ends with `.record`.
fn is_record_ty(ty: &str) -> (r: bool)
    ensures
        r == is_record_type(ty@),
{
    let v = chars_of(ty);
    let n = v.len();
    assert(v@.subrange(0, n as int) =~= v@);
    ends_with_at(&v, 0, n, &chars_of(".record"))
}

/// The wrapping sum of the amounts that the registers of `params` carry.
fn amount_total_of(params: &Vec<Param>, state: &SymbolicState, records_only: bool) -> (r: u64)
    ensures
        r == amount_total(params@.map_values(|p: Param| p@), state.regs(), records_only),
{
    let ghost ps = params@.map_values(|p: Param| p@);
    let mut total: u64 = 0;
    let mut i: usize = 0;
    while i < params.len()
        invariant
            i <= params@.len(),
            ps == params@.map_values(|p: Param| p@),
            total == amount_total(ps.take(i as int), state.regs(), records_only),
        decreases params@.len() - i,
    {
        let p = &params[i];
        assert(ps.take(i + 1).drop_last() =~= ps.take(i as int));
        assert(ps.take(i + 1).last() == p@);
        if !records_only || is_record_ty(p.ty.as_str()) {
            match state.get(p.register.as_str()) {
                Some(v) => match v.extract_amount() {
                    Some(a) => {
                        total = total.wrapping_add(a);
                    },
                    None => {},
                },
                None => {},
            }
        }
        i = i + 1;
    }
    assert(ps.take(params@.len() as int) =~= ps);
    total
}

/// Whether the register of some parameter holds a future.
fn any_future_of(params: &Vec<Param>, state: &SymbolicState) -> (r: bool)
    ensures
        r == any_future(params@.map_values(|p: Param| p@), state.regs()),
{
    let ghost ps = params@.map_values(|p: Param| p@);
    let mut found = false;
    let mut i: usize = 0;
    while i < params.len()
        invariant
            i <= params@.len(),
            ps == params@.map_values(|p: Param| p@),
            found == any_future(ps.take(i as int), state.regs()),
        decreases params@.len() - i,
    {
        let p = &params[i];
        assert(ps.take(i + 1).drop_last() =~= ps.take(i as int));
        assert(ps.take(i + 1).last() == p@);
        match state.get(p.register.as_str()) {
            Some(SymValue::Future(_)) => {
                found = true;
            },
            _ => {},
        }
        i = i + 1;
    }
    assert(ps.take(params@.len() as int) =~= ps);
    found
}

/// Whether the function name marks a transfer (`transfer_...`).
pub fn is_transfer_function(name: &str) -> (r: bool)
    ensures
        r == is_transfer(name@),
{
    let v = chars_of(name);
    let n = v.len();
    assert(v@.subrange(0, n as int) =~= v@);
    starts_with_at(&v, 0, n, &chars_of("transfer_"))
}

/// Whether some input of `func` is a record.
pub fn has_record_input(func: &FunctionDef) -> (r: bool)
    ensures
        r == has_record_param(func@),
{
    let mut i: usize = 0;
    while i < func.inputs.len()
        invariant
            i <= func.inputs@.len(),
            forall|j: int| 0 <= j < i ==> !is_record_type(#[trigger] func@.inputs[j].ty),
        decreases func.inputs@.len() - i,
    {
        if is_record_ty(func.inputs[i].ty.as_str()) {
            assert(is_record_type(func@.inputs[i as int].ty));
            return true;
        }
        i = i + 1;
    }
    false
}

// ============================================================================
// Built-in checks
// ============================================================================

fn balance_list(func: &FunctionDef, state: &SymbolicState) -> (r: Vec<String>)
    ensures
        texts(r@) == balance_violations(func@, state.regs()),
{
    let input = amount_total_of(&func.inputs, state, true);
    let output = amount_total_of(&func.outputs, state, true);
    let mut out: Vec<String> = Vec::new();
    if input == 0 && !has_record_input(func) {
        assert(texts(out@) =~= Seq::<Seq<char>>::empty());
        return out;
    }
    if any_future_of(&func.outputs, state) {
        assert(texts(out@) =~= Seq::<Seq<char>>::empty());
        return out;
    }
    if input > 0 && output > 0 && input != output {
        let m = String::from_str("BALANCE_MISMATCH in ").concat(func.name.as_str()).concat(
            ": input total ~",
        ).concat(u128_text(input as u128).as_str()).concat(", output total ~").concat(
            u128_text(output as u128).as_str(),
        );
        push_msg(&mut out, m);
    }
    assert(texts(out@) =~= balance_violations(func@, state.regs()));
    out
}

/// Balance conservation for a transfer: the amounts of the input records
/// must add up to those of the output records, when both were tracked and
/// no output is a future (sums wrap around at `u64::MAX`).
pub fn check_balance_conservation(func: &FunctionDef, state: &SymbolicState) -> (r: Option<Vec<String>>)
    ensures
        opt_texts(r) == report_of(balance_violations(func@, state.regs())),
{
    as_report(balance_list(func, state))
}

fn owner_list(func: &FunctionDef, state: &SymbolicState) -> (r: Vec<String>)
    ensures
        texts(r@) == owner_violations(func@.name, func@.outputs, state.regs()),
{
    let ghost ov = func@.outputs;
    let mut out: Vec<String> = Vec::new();
    let mut i: usize = 0;
    assert(texts(out@) =~= Seq::<Seq<char>>::empty());
    while i < func.outputs.len()
        invariant
            i <= func.outputs@.len(),
            ov == func@.outputs,
            texts(out@) == owner_violations(func@.name, ov.take(i as int), state.regs()),
        decreases func.outputs@.len() - i,
    {
        let o = &func.outputs[i];
        assert(ov.take(i + 1).drop_last() =~= ov.take(i as int));
        assert(ov.take(i + 1).last() == o@);
        match state.get(o.register.as_str()) {
            Some(SymValue::Record { fields, .. }) => {
                match find_entry(fields, "owner") {
                    None => {
                        let m = String::from_str("MISSING_OWNER in ").concat(func.name.as_str()).concat(
                            ": output ",
                        ).concat(o.register.as_str()).concat(" record has no owner field");
                        push_msg(&mut out, m);
                    },
                    Some(k) => {
                        match &fields[k].1 {
                            SymValue::Unknown => {
                                let m = String::from_str("INVALID_OWNER in ").concat(
                                    func.name.as_str(),
                                ).concat(": output ").concat(o.register.as_str()).concat(
                                    " record owner is unknown",
                                );
                                push_msg(&mut out, m);
                            },
                            _ => {},
                        }
                    },
                }
            },
            _ => {},
        }
        i = i + 1;
    }
    assert(ov.take(func.outputs@.len() as int) =~= ov);
    out
}

/// Owner integrity: each output record has an `owner`, and it is not unknown.
pub fn check_owner_integrity(func: &FunctionDef, state: &SymbolicState) -> (r: Option<Vec<String>>)
    ensures
        opt_texts(r) == report_of(owner_violations(func@.name, func@.outputs, state.regs())),
{
    as_report(owner_list(func, state))
}

fn zero_list(state: &SymbolicState) -> (r: Vec<String>)
    ensures
        texts(r@) == zero_violations(state.regs()),
{
    let regs = state.registers();
    let ghost rv = value::fields_view(regs@);
    proof {
        value::lemma_fields_view(regs@);
    }
    let mut out: Vec<String> = Vec::new();
    let mut i: usize = 0;
    assert(texts(out@) =~= Seq::<Seq<char>>::empty());
    while i < regs.len()
        invariant
            i <= regs@.len(),
            rv == value::fields_view(regs@),
            rv == state.regs(),
            rv.len() == regs@.len(),
            forall|j: int| 0 <= j < regs@.len() ==> #[trigger] rv[j] == (regs@[j].0@, regs@[j].1@),
            texts(out@) == zero_violations(rv.take(i as int)),
        decreases regs@.len() - i,
    {
        let reg = &regs[i].0;
        let val = &regs[i].1;
        assert(rv.take(i + 1).drop_last() =~= rv.take(i as int));
        assert(rv.take(i + 1).last() == rv[i as int]);
        let zero = match val {
            SymValue::U64(x) => *x == 0,
            SymValue::U32(x) => *x == 0,
            SymValue::U16(x) => *x == 0,
            SymValue::U8(x) => *x == 0,
            _ => false,
        };
        if zero {
            let m = String::from_str("ZERO_AMOUNT: register ").concat(reg.as_str()).concat(
                " holds zero (",
            ).concat(val.to_leo_string().as_str()).concat(")");
            push_msg(&mut out, m);
        } else {
            match val {
                SymValue::Record { fields, .. } => {
                    match find_entry(fields, "amount") {
                        Some(k) => {
                            match &fields[k].1 {
                                SymValue::U64(a) => {
                                    if *a == 0 {
                                        let m = String::from_str("ZERO_AMOUNT: output record in ").concat(
                                            reg.as_str(),
                                        ).concat(" has amount = 0");
                                        push_msg(&mut out, m);
                                    }
                                },
                                _ => {},
                            }
                        },
                        None => {},
                    }
                },
                _ => {},
            }
        }
        i = i + 1;
    }
    assert(rv.take(regs@.len() as int) =~= rv);
    out
}

/// Zero amounts: every register holding an unsigned zero, and every record
/// whose `amount` is `0u64`, in register order.
pub fn check_zero_amount(state: &SymbolicState) -> (r: Option<Vec<String>>)
    ensures
        opt_texts(r) == report_of(zero_violations(state.regs())),
{
    as_report(zero_list(state))
}

// ============================================================================
// Custom assertions
// ============================================================================

fn field_set_list(func: &FunctionDef, state: &SymbolicState, field: &String) -> (r: Vec<String>)
    ensures
        texts(r@) == field_set_violations(func@.name, func@.outputs, state.regs(), field@),
{
    let ghost ov = func@.outputs;
    let mut out: Vec<String> = Vec::new();
    let mut i: usize = 0;
    assert(texts(out@) =~= Seq::<Seq<char>>::empty());
    while i < func.outputs.len()
        invariant
            i <= func.outputs@.len(),
            ov == func@.outputs,
            texts(out@) == field_set_violations(func@.name, ov.take(i as int), state.regs(), field@),
        decreases func.outputs@.len() - i,
    {
        let o = &func.outputs[i];
        assert(ov.take(i + 1).drop_last() =~= ov.take(i as int));
        assert(ov.take(i + 1).last() == o@);
        match state.get(o.register.as_str()) {
            Some(SymValue::Record { fields, record_type }) => {
                if find_entry(fields, field.as_str()).is_none() {
                    let m = String::from_str("FIELD_NOT_SET in ").concat(func.name.as_str()).concat(
                        ": output ",
                    ).concat(o.register.as_str()).concat(" (").concat(record_type.as_str()).concat(
                        ") is missing field '",
                    ).concat(field.as_str()).concat("'");
                    push_msg(&mut out, m);
                }
            },
            _ => {},
        }
        i = i + 1;
    }
    assert(ov.take(func.outputs@.len() as int) =~= ov);
    out
}

/// `field_set`: each output record has the assertion's field (nothing is
/// checked when the assertion names no field).
pub fn check_field_set(assertion: &AssertionDef, func: &FunctionDef, state: &SymbolicState) -> (r: Option<Vec<String>>)
    ensures
        opt_texts(r) == report_of(
            match assertion.field {
                Some(f) => field_set_violations(func@.name, func@.outputs, state.regs(), f@),
                None => seq![],
            },
        ),
{
    match &assertion.field {
        Some(f) => as_report(field_set_list(func, state, f)),
        None => None,
    }
}

fn amount_conserved_list(func: &FunctionDef, state: &SymbolicState) -> (r: Vec<String>)
    ensures
        texts(r@) == amount_conserved_violations(func@, state.regs()),
{
    let input = amount_total_of(&func.inputs, state, true);
    let output = amount_total_of(&func.outputs, state, true);
    let future = any_future_of(&func.outputs, state);
    let mut out: Vec<String> = Vec::new();
    if !future && input != 0 && input != output {
        let m = String::from_str("AMOUNT_NOT_CONSERVED in ").concat(func.name.as_str()).concat(
            ": input total = ",
        ).concat(u128_text(input as u128).as_str()).concat(", output total = ").concat(
            u128_text(output as u128).as_str(),
        );
        push_msg(&mut out, m);
    }
    assert(texts(out@) =~= amount_conserved_violations(func@, state.regs()));
    out
}

/// `amount_conserved`: the input records carry as much as the output
/// records; not checked when an output is a future or the inputs carry nothing.
pub fn check_amount_conserved_custom(func: &FunctionDef, state: &SymbolicState) -> (r: Option<Vec<String>>)
    ensures
        opt_texts(r) == report_of(amount_conserved_violations(func@, state.regs())),
{
    as_report(amount_conserved_list(func, state))
}

fn no_field_none_list(func: &FunctionDef, state: &SymbolicState, field: &String) -> (r: Vec<String>)
    ensures
        texts(r@) == no_field_none_violations(func@.name, func@.outputs, state.regs(), field@),
{
    let ghost ov = func@.outputs;
    let mut out: Vec<String> = Vec::new();
    let mut i: usize = 0;
    assert(texts(out@) =~= Seq::<Seq<char>>::empty());
    while i < func.outputs.len()
        invariant
            i <= func.outputs@.len(),
            ov == func@.outputs,
            texts(out@) == no_field_none_violations(func@.name, ov.take(i as int), state.regs(), field@),
        decreases func.outputs@.len() - i,
    {
        let o = &func.outputs[i];
        assert(ov.take(i + 1).drop_last() =~= ov.take(i as int));
        assert(ov.take(i + 1).last() == o@);
        match state.get(o.register.as_str()) {
            Some(SymValue::Record { fields, .. }) => {
                match find_entry(fields, field.as_str()) {
                    None => {
                        let m = String::from_str("FIELD_NONE in ").concat(func.name.as_str()).concat(
                            ": output ",
                        ).concat(o.register.as_str()).concat(" has no field '").concat(
                            field.as_str(),
                        ).concat("'");
                        push_msg(&mut out, m);
                    },
                    Some(k) => {
                        let (unknown, zero) = match &fields[k].1 {
                            SymValue::Unknown => (true, false),
                            SymValue::U64(x) => (false, *x == 0),
                            SymValue::U32(x) => (false, *x == 0),
                            _ => (false, false),
                        };
                        if unknown {
                            let m = String::from_str("FIELD_NONE in ").concat(func.name.as_str()).concat(
                                ": output ",
                            ).concat(o.register.as_str()).concat(" field '").concat(
                                field.as_str(),
                            ).concat("' is Unknown");
                            push_msg(&mut out, m);
                        } else if zero {
                            let m = String::from_str("FIELD_ZERO in ").concat(func.name.as_str()).concat(
                                ": output ",
                            ).concat(o.register.as_str()).concat(" field '").concat(
                                field.as_str(),
                            ).concat("' is zero");
                            push_msg(&mut out, m);
                        }
                    },
                }
            },
            _ => {},
        }
        i = i + 1;
    }
    assert(ov.take(func.outputs@.len() as int) =~= ov);
    out
}

/// `no_field_none`: in each output record the assertion's field is present,
/// not unknown, and not a `u64` or `u32` zero.
pub fn check_no_field_none(assertion: &AssertionDef, func: &FunctionDef, state: &SymbolicState) -> (r: Option<Vec<String>>)
    ensures
        opt_texts(r) == report_of(
            match assertion.field {
                Some(f) => no_field_none_violations(func@.name, func@.outputs, state.regs(), f@),
                None => seq![],
            },
        ),
{
    match &assertion.field {
        Some(f) => as_report(no_field_none_list(func, state, f)),
        None => None,
    }
}

/// The messages for one amount outside the bounds.
fn range_messages_of(
    name: &str,
    reg: &str,
    field: &str,
    amt: u64,
    min: Option<i64>,
    max: Option<i64>,
    out: &mut Vec<String>,
)
    ensures
        texts(final(out)@) == texts(old(out)@) + range_messages(name@, reg@, field@, amt, min, max),
{
    let value: i128 = amt as i128;
    let ghost start = texts(out@);
    match min {
        Some(m) => {
            if value < m as i128 {
                let msg = String::from_str("RANGE_VIOLATION in ").concat(name).concat(": output ").concat(
                    reg,
                ).concat(" field '").concat(field).concat("' = ").concat(
                    u128_text(amt as u128).as_str(),
                ).concat(" (min = ").concat(i128_text(m as i128).as_str()).concat(")");
                push_msg(out, msg);
            }
        },
        None => {},
    }
    let ghost mid = texts(out@);
    match max {
        Some(m) => {
            if value > m as i128 {
                let msg = String::from_str("RANGE_VIOLATION in ").concat(name).concat(": output ").concat(
                    reg,
                ).concat(" field '").concat(field).concat("' = ").concat(
                    u128_text(amt as u128).as_str(),
                ).concat(" (max = ").concat(i128_text(m as i128).as_str()).concat(")");
                push_msg(out, msg);
            }
        },
        None => {},
    }
    assert(texts(out@) =~= start + range_messages(name@, reg@, field@, amt, min, max));
}

fn range_list(func: &FunctionDef, state: &SymbolicState, field: &String, min: Option<i64>, max: Option<i64>) -> (r: Vec<String>)
    ensures
        texts(r@) == range_violations(func@.name, func@.outputs, state.regs(), field@, min, max),
{
    let ghost ov = func@.outputs;
    let mut out: Vec<String> = Vec::new();
    let mut i: usize = 0;
    assert(texts(out@) =~= Seq::<Seq<char>>::empty());
    while i < func.outputs.len()
        invariant
            i <= func.outputs@.len(),
            ov == func@.outputs,
            texts(out@) == range_violations(func@.name, ov.take(i as int), state.regs(), field@, min, max),
        decreases func.outputs@.len() - i,
    {
        let o = &func.outputs[i];
        assert(ov.take(i + 1).drop_last() =~= ov.take(i as int));
        assert(ov.take(i + 1).last() == o@);
        match state.get(o.register.as_str()) {
            Some(SymValue::Record { fields, .. }) => {
                match find_entry(fields, field.as_str()) {
                    Some(k) => {
                        match fields[k].1.extract_amount() {
                            Some(amt) => {
                                range_messages_of(
                                    func.name.as_str(),
                                    o.register.as_str(),
                                    field.as_str(),
                                    amt,
                                    min,
                                    max,
                                    &mut out,
                                );
                            },
                            None => {},
                        }
                    },
                    None => {},
                }
            },
            _ => {},
        }
        i = i + 1;
    }
    assert(ov.take(func.outputs@.len() as int) =~= ov);
    out
}

/// `range_check`: the amount in the assertion's field of each output
/// record lies within the assertion's bounds `[min, max]`.
pub fn check_range(assertion: &AssertionDef, func: &FunctionDef, state: &SymbolicState) -> (r: Option<Vec<String>>)
    ensures
        opt_texts(r) == report_of(
            match assertion.field {
                Some(f) => range_violations(func@.name, func@.outputs, state.regs(), f@, assertion.min, assertion.max),
                None => seq![],
            },
        ),
{
    match &assertion.field {
        Some(f) => as_report(range_list(func, state, f, assertion.min, assertion.max)),
        None => None,
    }
}

fn custom_list(assertion: &AssertionDef, func: &FunctionDef, state: &SymbolicState) -> (r: Vec<String>)
    ensures
        texts(r@) == custom_violations(*assertion, func@, state.regs()),
{
    match assertion.assertion_type {
        AssertionType::FieldSet => match &assertion.field {
            Some(f) => field_set_list(func, state, f),
            None => {
                let out: Vec<String> = Vec::new();
                assert(texts(out@) =~= Seq::<Seq<char>>::empty());
                out
            },
        },
        AssertionType::AmountConserved => amount_conserved_list(func, state),
        AssertionType::NoFieldNone => match &assertion.field {
            Some(f) => no_field_none_list(func, state, f),
            None => {
                let out: Vec<String> = Vec::new();
                assert(texts(out@) =~= Seq::<Seq<char>>::empty());
                out
            },
        },
        AssertionType::RangeCheck => match &assertion.field {
            Some(f) => range_list(func, state, f, assertion.min, assertion.max),
            None => {
                let out: Vec<String> = Vec::new();
                assert(texts(out@) =~= Seq::<Seq<char>>::empty());
                out
            },
        },
    }
}

/// Runs one custom assertion, whatever its function.
pub fn check_custom_assertion(assertion: &AssertionDef, func: &FunctionDef, state: &SymbolicState) -> (r: Option<Vec<String>>)
    ensures
        opt_texts(r) == report_of(custom_violations(*assertion, func@, state.regs())),
{
    as_report(custom_list(assertion, func, state))
}

// ============================================================================
// Record consumption and private parameters
// ============================================================================

/// Whether the two records have equal values under `name` (or both lack it).
fn same_field(a: &Vec<(String, SymValue)>, b: &Vec<(String, SymValue)>, name: &str) -> (r: bool)
    ensures
        r == same_entry(
            value::lookup(value::fields_view(a@), name@),
            value::lookup(value::fields_view(b@), name@),
        ),
{
    match (find_entry(a, name), find_entry(b, name)) {
        (Some(i), Some(j)) => values_equal(&a[i].1, &b[j].1),
        (None, None) => true,
        _ => false,
    }
}

fn pair_list(
    name: &String,
    input: &String,
    fi: &Vec<(String, SymValue)>,
    outs: &Vec<Param>,
    state: &SymbolicState,
    out: &mut Vec<String>,
)
    ensures
        texts(final(out)@) == texts(old(out)@) + pair_violations(
            name@,
            input@,
            value::fields_view(fi@),
            outs@.map_values(|p: Param| p@),
            state.regs(),
        ),
{
    let ghost ov = outs@.map_values(|p: Param| p@);
    let ghost start = texts(out@);
    let ghost fiv = value::fields_view(fi@);
    let mut i: usize = 0;
    assert(start =~= start + Seq::<Seq<char>>::empty());
    while i < outs.len()
        invariant
            i <= outs@.len(),
            ov == outs@.map_values(|p: Param| p@),
            fiv == value::fields_view(fi@),
            texts(out@) == start + pair_violations(name@, input@, fiv, ov.take(i as int), state.regs()),
        decreases outs@.len() - i,
    {
        let o = &outs[i];
        assert(ov.take(i + 1).drop_last() =~= ov.take(i as int));
        assert(ov.take(i + 1).last() == o@);
        let ghost before = texts(out@);
        if is_record_ty(o.ty.as_str()) {
            match state.get(o.register.as_str()) {
                Some(SymValue::Record { fields: fo, .. }) => {
                    if same_field(fi, fo, "owner") && same_field(fi, fo, "amount") && find_entry(
                        fi,
                        "owner",
                    ).is_some() {
                        let m = String::from_str("RECORD_NOT_CONSUMED in ").concat(name.as_str()).concat(
                            ": input ",
                        ).concat(input.as_str()).concat(" and output ").concat(o.register.as_str()).concat(
                            " have identical owner+amount — possible double-spend",
                        );
                        push_msg(out, m);
                    }
                },
                _ => {},
            }
        }
        assert(texts(out@) =~= start + pair_violations(name@, input@, fiv, ov.take(i + 1), state.regs()));
        i = i + 1;
    }
    assert(ov.take(outs@.len() as int) =~= ov);
}

fn consumption_list(func: &FunctionDef, state: &SymbolicState) -> (r: Vec<String>)
    ensures
        texts(r@) == consumption_violations(func@.name, func@.inputs, func@.outputs, state.regs()),
{
    let ghost iv = func@.inputs;
    let mut out: Vec<String> = Vec::new();
    let mut i: usize = 0;
    assert(texts(out@) =~= Seq::<Seq<char>>::empty());
    while i < func.inputs.len()
        invariant
            i <= func.inputs@.len(),
            iv == func@.inputs,
            texts(out@) == consumption_violations(func@.name, iv.take(i as int), func@.outputs, state.regs()),
        decreases func.inputs@.len() - i,
    {
        let p = &func.inputs[i];
        assert(iv.take(i + 1).drop_last() =~= iv.take(i as int));
        assert(iv.take(i + 1).last() == p@);
        if is_record_ty(p.ty.as_str()) {
            match state.get(p.register.as_str()) {
                Some(SymValue::Record { fields, .. }) => {
                    pair_list(&func.name, &p.register, fields, &func.outputs, state, &mut out);
                },
                _ => {},
            }
        }
        i = i + 1;
    }
    assert(iv.take(func.inputs@.len() as int) =~= iv);
    out
}

/// Record consumption: no output record repeats the owner and amount of an
/// input record (the input would then not have been consumed).
pub fn check_record_consumption(func: &FunctionDef, state: &SymbolicState) -> (r: Option<Vec<String>>)
    ensures
        opt_texts(r) == report_of(consumption_violations(func@.name, func@.inputs, func@.outputs, state.regs())),
{
    as_report(consumption_list(func, state))
}

fn private_list(func: &FunctionDef, state: &SymbolicState) -> (r: Vec<String>)
    ensures
        texts(r@) == private_violations(func@.name, func@.inputs, state.regs()),
{
    let ghost iv = func@.inputs;
    let mut out: Vec<String> = Vec::new();
    let mut i: usize = 0;
    assert(texts(out@) =~= Seq::<Seq<char>>::empty());
    while i < func.inputs.len()
        invariant
            i <= func.inputs@.len(),
            iv == func@.inputs,
            texts(out@) == private_violations(func@.name, iv.take(i as int), state.regs()),
        decreases func.inputs@.len() - i,
    {
        let p = &func.inputs[i];
        assert(iv.take(i + 1).drop_last() =~= iv.take(i as int));
        assert(iv.take(i + 1).last() == p@);
        if p.visibility == Visibility::Private && state.get(p.register.as_str()).is_none() {
            let m = String::from_str("UNUSED_PRIVATE_PARAM in ").concat(func.name.as_str()).concat(
                ": private param ",
            ).concat(p.register.as_str()).concat(" (").concat(p.ty.as_str()).concat(
                ") was never accessed",
            );
            push_msg(&mut out, m);
        }
        i = i + 1;
    }
    assert(iv.take(func.inputs@.len() as int) =~= iv);
    out
}

/// Private parameter usage: each `.private` input has a register value.
pub fn check_private_param_usage(func: &FunctionDef, state: &SymbolicState) -> (r: Option<Vec<String>>)
    ensures
        opt_texts(r) == report_of(private_violations(func@.name, func@.inputs, state.regs())),
{
    as_report(private_list(func, state))
}

// ============================================================================
// All checks
// ============================================================================

/// The specification behind an optional reference.
pub open spec fn spec_of(s: Option<&InvariantSpec>) -> Option<InvariantSpec> {
    match s {
        Some(x) => Some(*x),
        None => None,
    }
}

/// Checks the invariants of `func` on the registers of `state`. With a
/// specification, the toggles resolved for the function decide which
/// built-in checks run (balance conservation only for transfers), and the
/// assertions on the function follow; without one, balance conservation
/// (for transfers), owner integrity and zero amounts run.
pub fn check_function_invariants(
    func: &FunctionDef,
    state: &SymbolicState,
    _contract: &Contract,
    spec: Option<&InvariantSpec>,
) -> (r: Option<Vec<String>>)
    ensures
        opt_texts(r) == report_of(invariant_violations(func@, state.regs(), spec_of(spec))),
{
    let mut violations: Vec<String> = Vec::new();
    let transfer = is_transfer_function(func.name.as_str());
    assert(texts(violations@) =~= Seq::<Seq<char>>::empty());
    match spec {
        Some(sp) => {
            let toggle = sp.invariants.resolve(func.name.as_str());
            let ghost s0 = texts(violations@);
            if toggle.is_enabled("balance_conservation") && transfer {
                extend(&mut violations, balance_list(func, state));
            }
            let ghost s1 = texts(violations@);
            if toggle.is_enabled("owner_integrity") {
                extend(&mut violations, owner_list(func, state));
            }
            let ghost s2 = texts(violations@);
            if toggle.is_enabled("zero_amount") {
                extend(&mut violations, zero_list(state));
            }
            let ghost s3 = texts(violations@);
            if toggle.is_enabled("record_consumption") {
                extend(&mut violations, consumption_list(func, state));
            }
            let ghost s4 = texts(violations@);
            if toggle.is_enabled("private_param_usage") {
                extend(&mut violations, private_list(func, state));
            }
            let ghost s5 = texts(violations@);
            let mut k: usize = 0;
            assert(sp.assertions@.take(0) =~= Seq::<AssertionDef>::empty());
            while k < sp.assertions.len()
                invariant
                    k <= sp.assertions@.len(),
                    texts(violations@) == s5 + assertions_violations(
                        sp.assertions@.take(k as int),
                        func@,
                        state.regs(),
                    ),
                decreases sp.assertions@.len() - k,
            {
                let a = &sp.assertions[k];
                assert(sp.assertions@.take(k + 1).drop_last() =~= sp.assertions@.take(k as int));
                assert(sp.assertions@.take(k + 1).last() == *a);
                if crate::spec::same_text(a.function.as_str(), func.name.as_str()) {
                    extend(&mut violations, custom_list(a, func, state));
                }
                assert(texts(violations@) =~= s5 + assertions_violations(
                    sp.assertions@.take(k + 1),
                    func@,
                    state.regs(),
                ));
                k = k + 1;
            }
            assert(sp.assertions@.take(sp.assertions@.len() as int) =~= sp.assertions@);
            assert(texts(violations@) =~= invariant_violations(func@, state.regs(), spec_of(spec)));
        },
        None => {
            if transfer {
                extend(&mut violations, balance_list(func, state));
            }
            extend(&mut violations, owner_list(func, state));
            extend(&mut violations, zero_list(state));
            assert(texts(violations@) =~= invariant_violations(func@, state.regs(), spec_of(spec)));
        },
    }
    as_report(violations)
}

// ============================================================================
// Properties
// ============================================================================

/// Assertions on other functions are not evaluated.
pub proof fn other_functions_assertions_silent(asserts: Seq<AssertionDef>, f: FunctionView, regs: Seq<(Seq<char>, ValueView)>)
    requires
        forall|i: int| 0 <= i < asserts.len() ==> (#[trigger] asserts[i]).function@ != f.name,
    ensures
        assertions_violations(asserts, f, regs).len() == 0,
    decreases asserts.len(),
{
    if asserts.len() > 0 {
        assert forall|i: int| 0 <= i < asserts.drop_last().len() implies (#[trigger] asserts.drop_last()[i]).function@ != f.name by {
            assert(asserts.drop_last()[i] == asserts[i]);
        }
        other_functions_assertions_silent(asserts.drop_last(), f, regs);
        assert(asserts.last() == asserts[asserts.len() - 1]);
    }
}

/// With a specification whose toggles for `f` switch every built-in
/// check off and with no assertion on `f`, no violation is reported.
pub proof fn disabled_checks_report_nothing(f: FunctionView, regs: Seq<(Seq<char>, ValueView)>, sp: InvariantSpec)
    requires
        sp.invariants.resolved(f.name).balance_conservation == Some(false),
        sp.invariants.resolved(f.name).owner_integrity == Some(false),
        sp.invariants.resolved(f.name).zero_amount == Some(false),
        sp.invariants.resolved(f.name).record_consumption == Some(false),
        sp.invariants.resolved(f.name).private_param_usage == Some(false),
        forall|i: int| 0 <= i < sp.assertions@.len() ==> (#[trigger] sp.assertions@[i]).function@ != f.name,
    ensures
        invariant_violations(f, regs, Some(sp)).len() == 0,
{
    other_functions_assertions_silent(sp.assertions@, f, regs);
    reveal_strlit("balance_conservation");
    reveal_strlit("owner_integrity");
    reveal_strlit("zero_amount");
    reveal_strlit("record_consumption");
    reveal_strlit("private_param_usage");
    reveal_strlit("self_transfer");
    reveal_strlit("overflow_check");
    let t = sp.invariants.resolved(f.name);
    assert(!t.enabled("balance_conservation"@));
    assert("owner_integrity"@[0] != "balance_conservation"@[0]);
    assert(!t.enabled("owner_integrity"@));
    assert("zero_amount"@[0] != "balance_conservation"@[0]);
    assert("zero_amount"@[0] != "owner_integrity"@[0]);
    assert(!t.enabled("zero_amount"@));
    assert("record_consumption"@[0] != "balance_conservation"@[0]);
    assert("record_consumption"@[0] != "owner_integrity"@[0]);
    assert("record_consumption"@[0] != "zero_amount"@[0]);
    assert("record_consumption"@.len() != "self_transfer"@.len());
    assert("record_consumption"@[0] != "overflow_check"@[0]);
    assert(!t.enabled("record_consumption"@));
    assert("private_param_usage"@[0] != "balance_conservation"@[0]);
    assert("private_param_usage"@[0] != "owner_integrity"@[0]);
    assert("private_param_usage"@[0] != "zero_amount"@[0]);
    assert("private_param_usage"@.len() != "self_transfer"@.len());
    assert("private_param_usage"@[0] != "overflow_check"@[0]);
    assert("private_param_usage"@[0] != "record_consumption"@[0]);
    assert(!t.enabled("private_param_usage"@));
}

} // verus!
