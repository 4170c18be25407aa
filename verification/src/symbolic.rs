//! Symbolic execution: register files, literals and the effect of each instruction.
use vstd::prelude::*;
use crate::text;
use crate::text::{
    chars_of, ends_with_at, eq_at, parse_signed_at, parse_unsigned_at, substring, trim_end_matches_at,
    u128_text,
};
use crate::value;
use crate::value::{ValueView, SymValue, find_entry, set_entry, values_equal};
use crate::instruction::{Instruction, InstructionView, Operand, OperandView};

verus! {

// ============================================================================
// Literals
// ============================================================================

/// The address that `self.caller` stands for during symbolic execution.
pub open spec fn self_caller() -> Seq<char> {
    "aleo1selfcaller0000000000000000000000000000000000000000"@
}

/// `str::parse` of `s` without its trailing copies of `suffix`, for an
/// unsigned type whose largest value is `max`.
pub open spec fn unsigned_literal(s: Seq<char>, suffix: Seq<char>, max: int) -> Option<int> {
    text::parse_int(text::trim_end_matches(s, suffix), false, 0, max)
}

/// `str::parse` of `s` without its trailing copies of `suffix`, for a
/// signed type with range `min..=max`.
pub open spec fn signed_literal(s: Seq<char>, suffix: Seq<char>, min: int, max: int) -> Option<int> {
    text::parse_int(text::trim_end_matches(s, suffix), true, min, max)
}

/// The value that a literal denotes. The suffix is tested in the order
/// `u64 u32 u16 u8 u128 i64 i32 i16 i8`; `true`, `false`; any text ending in
/// `group` or `field` stands for `0u64`; everything else (`i128` among
/// them) denotes nothing.
pub open spec fn literal_of(s: Seq<char>) -> Option<ValueView> {
    if s == "self.caller"@ {
        Some(ValueView::Address(self_caller()))
    } else if text::ends_with(s, "u64"@) {
        match unsigned_literal(s, "u64"@, u64::MAX as int) {
            Some(n) => Some(ValueView::U64(n as u64)),
            None => None,
        }
    } else if text::ends_with(s, "u32"@) {
        match unsigned_literal(s, "u32"@, u32::MAX as int) {
            Some(n) => Some(ValueView::U32(n as u32)),
            None => None,
        }
    } else if text::ends_with(s, "u16"@) {
        match unsigned_literal(s, "u16"@, u16::MAX as int) {
            Some(n) => Some(ValueView::U16(n as u16)),
            None => None,
        }
    } else if text::ends_with(s, "u8"@) {
        match unsigned_literal(s, "u8"@, u8::MAX as int) {
            Some(n) => Some(ValueView::U8(n as u8)),
            None => None,
        }
    } else if text::ends_with(s, "u128"@) {
        match unsigned_literal(s, "u128"@, u128::MAX as int) {
            Some(n) => Some(ValueView::U128(n as u128)),
            None => None,
        }
    } else if text::ends_with(s, "i64"@) {
        match signed_literal(s, "i64"@, i64::MIN as int, i64::MAX as int) {
            Some(n) => Some(ValueView::I64(n as i64)),
            None => None,
        }
    } else if text::ends_with(s, "i32"@) {
        match signed_literal(s, "i32"@, i32::MIN as int, i32::MAX as int) {
            Some(n) => Some(ValueView::I32(n as i32)),
            None => None,
        }
    } else if text::ends_with(s, "i16"@) {
        match signed_literal(s, "i16"@, i16::MIN as int, i16::MAX as int) {
            Some(n) => Some(ValueView::I16(n as i16)),
            None => None,
        }
    } else if text::ends_with(s, "i8"@) {
        match signed_literal(s, "i8"@, i8::MIN as int, i8::MAX as int) {
            Some(n) => Some(ValueView::I8(n as i8)),
            None => None,
        }
    } else if s == "true"@ {
        Some(ValueView::Bool(true))
    } else if s == "false"@ {
        Some(ValueView::Bool(false))
    } else if text::ends_with(s, "group"@) || text::ends_with(s, "field"@) {
        Some(ValueView::U64(0))
    } else {
        None
    }
}

/// The view of an optional value.
pub open spec fn value_opt(r: Option<SymValue>) -> Option<ValueView> {
    match r {
        Some(v) => Some(v@),
        None => None,
    }
}

/// `str::parse` of `v` without its trailing copies of `suffix`, unsigned.
fn unsigned_suffix(v: &Vec<char>, suffix: &str, max: u128) -> (r: Option<u128>)
    ensures
        match r {
            Some(n) => unsigned_literal(v@, suffix@, max as int) == Some(n as int),
            None => unsigned_literal(v@, suffix@, max as int) is None,
        },
{
    let n = v.len();
    assert(v@.subrange(0, n as int) =~= v@);
    let e = trim_end_matches_at(v, 0, n, &chars_of(suffix));
    parse_unsigned_at(v, 0, e, max)
}

/// `str::parse` of `v` without its trailing copies of `suffix`, signed.
fn signed_suffix(v: &Vec<char>, suffix: &str, min: i128, max: i128) -> (r: Option<i128>)
    requires
        i64::MIN <= min <= 0 <= max <= i64::MAX,
    ensures
        match r {
            Some(n) => signed_literal(v@, suffix@, min as int, max as int) == Some(n as int),
            None => signed_literal(v@, suffix@, min as int, max as int) is None,
        },
{
    let n = v.len();
    assert(v@.subrange(0, n as int) =~= v@);
    let e = trim_end_matches_at(v, 0, n, &chars_of(suffix));
    parse_signed_at(v, 0, e, min, max)
}

/// Whether `v` ends with `suffix`.
fn ends_in(v: &Vec<char>, suffix: &str) -> (r: bool)
    ensures
        r == text::ends_with(v@, suffix@),
{
    let n = v.len();
    assert(v@.subrange(0, n as int) =~= v@);
    ends_with_at(v, 0, n, &chars_of(suffix))
}

/// Parses a literal such as `0u64`, `100u64`, `-5i8`, `true` or `0group`.
pub fn parse_literal(s: &str) -> (r: Option<SymValue>)
    ensures
        value_opt(r) == literal_of(s@),
{
    let v = chars_of(s);
    let n = v.len();
    assert(v@.subrange(0, n as int) =~= v@);
    if eq_at(&v, 0, n, &chars_of("self.caller")) {
        return Some(SymValue::Address(String::from_str("aleo1selfcaller0000000000000000000000000000000000000000")));
    }
    if ends_in(&v, "u64") {
        return match unsigned_suffix(&v, "u64", 0xffff_ffff_ffff_ffff) {
            Some(x) => Some(SymValue::U64(x as u64)),
            None => None,
        };
    }
    if ends_in(&v, "u32") {
        return match unsigned_suffix(&v, "u32", 0xffff_ffff) {
            Some(x) => Some(SymValue::U32(x as u32)),
            None => None,
        };
    }
    if ends_in(&v, "u16") {
        return match unsigned_suffix(&v, "u16", 0xffff) {
            Some(x) => Some(SymValue::U16(x as u16)),
            None => None,
        };
    }
    if ends_in(&v, "u8") {
        return match unsigned_suffix(&v, "u8", 0xff) {
            Some(x) => Some(SymValue::U8(x as u8)),
            None => None,
        };
    }
    if ends_in(&v, "u128") {
        return match unsigned_suffix(&v, "u128", 0xffff_ffff_ffff_ffff_ffff_ffff_ffff_ffff) {
            Some(x) => Some(SymValue::U128(x)),
            None => None,
        };
    }
    if ends_in(&v, "i64") {
        return match signed_suffix(&v, "i64", -0x8000_0000_0000_0000, 0x7fff_ffff_ffff_ffff) {
            Some(x) => Some(SymValue::I64(x as i64)),
            None => None,
        };
    }
    if ends_in(&v, "i32") {
        return match signed_suffix(&v, "i32", -0x8000_0000, 0x7fff_ffff) {
            Some(x) => Some(SymValue::I32(x as i32)),
            None => None,
        };
    }
    if ends_in(&v, "i16") {
        return match signed_suffix(&v, "i16", -0x8000, 0x7fff) {
            Some(x) => Some(SymValue::I16(x as i16)),
            None => None,
        };
    }
    if ends_in(&v, "i8") {
        return match signed_suffix(&v, "i8", -0x80, 0x7f) {
            Some(x) => Some(SymValue::I8(x as i8)),
            None => None,
        };
    }
    if eq_at(&v, 0, n, &chars_of("true")) {
        return Some(SymValue::Bool(true));
    }
    if eq_at(&v, 0, n, &chars_of("false")) {
        return Some(SymValue::Bool(false));
    }
    if ends_in(&v, "group") || ends_in(&v, "field") {
        return Some(SymValue::U64(0));
    }
    None
}

// ============================================================================
// Register files
// ============================================================================

/// The value that an operand denotes in the registers `regs`.
pub open spec fn resolve_in(regs: Seq<(Seq<char>, ValueView)>, o: OperandView) -> Option<ValueView> {
    match o {
        OperandView::Register(r) => value::lookup(regs, r),
        OperandView::FieldAccess { register, field } => match value::lookup(regs, register) {
            Some(rec) => value::field_of(rec, field),
            None => None,
        },
        OperandView::Literal(s) => literal_of(s),
        OperandView::SelfCaller => Some(ValueView::Address(self_caller())),
    }
}

/// `regs` with each of `entries` set in turn.
pub open spec fn assign_all(
    regs: Seq<(Seq<char>, ValueView)>,
    entries: Seq<(Seq<char>, ValueView)>,
) -> Seq<(Seq<char>, ValueView)>
    decreases entries.len(),
{
    if entries.len() == 0 {
        regs
    } else {
        value::insert(assign_all(regs, entries.drop_last()), entries.last().0, entries.last().1)
    }
}

/// Setting entries in turn keeps names unique.
pub proof fn lemma_assign_all_unique(regs: Seq<(Seq<char>, ValueView)>, entries: Seq<(Seq<char>, ValueView)>)
    requires
        value::keys_unique(regs),
    ensures
        value::keys_unique(assign_all(regs, entries)),
    decreases entries.len(),
{
    if entries.len() > 0 {
        lemma_assign_all_unique(regs, entries.drop_last());
        value::lemma_insert(assign_all(regs, entries.drop_last()), entries.last().0, entries.last().1);
    }
}

/// The register values during symbolic execution of a function body.
#[derive(Debug, Clone)]
pub struct SymbolicState {
    /// Register name and value; a name occurs once.
    registers: Vec<(String, SymValue)>,
    /// Whether execution should stop.
    pub halted: bool,
    /// Why execution stopped.
    pub error_message: Option<String>,
}

impl SymbolicState {
    /// The registers, in the order in which they were first set.
    pub closed spec fn regs(&self) -> Seq<(Seq<char>, ValueView)> {
        value::fields_view(self.registers@)
    }

    /// Whether execution was stopped.
    pub closed spec fn stopped(&self) -> bool {
        self.halted
    }

    /// Why execution was stopped.
    pub closed spec fn stop_reason(&self) -> Option<String> {
        self.error_message
    }

    /// No register name occurs twice.
    pub closed spec fn wf(&self) -> bool {
        value::keys_unique(self.regs())
    }

    /// A state is well formed exactly when no register name occurs twice.
    pub proof fn lemma_wf_unique(&self)
        ensures
            self.wf() <==> value::keys_unique(self.regs()),
    {
    }

    /// A state with no register set.
    pub fn new() -> (s: Self)
        ensures
            s.wf(),
            s.regs() == Seq::<(Seq<char>, ValueView)>::empty(),
            !s.stopped(),
            s.stop_reason() is None,
    {
        let s = SymbolicState { registers: Vec::new(), halted: false, error_message: None };
        assert(s.regs() =~= Seq::<(Seq<char>, ValueView)>::empty());
        s
    }

    /// A state with the given inputs set in turn.
    pub fn with_inputs(inputs: Vec<(String, SymValue)>) -> (s: Self)
        ensures
            s.wf(),
            s.regs() == assign_all(seq![], value::fields_view(inputs@)),
            !s.stopped(),
            s.stop_reason() is None,
    {
        let mut state = SymbolicState::new();
        let mut i: usize = 0;
        proof {
            value::lemma_fields_view(inputs@);
        }
        let ghost fv = value::fields_view(inputs@);
        assert(fv.take(0) =~= Seq::<(Seq<char>, ValueView)>::empty());
        while i < inputs.len()
            invariant
                i <= inputs@.len(),
                fv == value::fields_view(inputs@),
                fv.len() == inputs@.len(),
                forall|k: int| 0 <= k < inputs@.len() ==> #[trigger] fv[k] == (inputs@[k].0@, inputs@[k].1@),
                state.wf(),
                state.regs() == assign_all(seq![], fv.take(i as int)),
                !state.stopped(),
                state.stop_reason() is None,
            decreases inputs@.len() - i,
        {
            let v = inputs[i].1.duplicate();
            state.set(inputs[i].0.as_str(), v);
            assert(fv.take(i + 1).drop_last() =~= fv.take(i as int));
            i = i + 1;
        }
        assert(fv.take(inputs@.len() as int) =~= fv);
        state
    }

    /// Sets register `reg` to `value`.
    pub fn set(&mut self, reg: &str, value: SymValue)
        requires
            old(self).wf(),
        ensures
            final(self).wf(),
            final(self).regs() == value::insert(old(self).regs(), reg@, value@),
            final(self).stopped() == old(self).stopped(),
            final(self).stop_reason() == old(self).stop_reason(),
    {
        proof {
            value::lemma_insert(self.regs(), reg@, value@);
        }
        set_entry(&mut self.registers, reg, value);
    }

    /// The value of register `reg`.
    pub fn get(&self, reg: &str) -> (r: Option<&SymValue>)
        ensures
            match r {
                Some(x) => value::lookup(self.regs(), reg@) == Some(x@),
                None => value::lookup(self.regs(), reg@) is None,
            },
    {
        match find_entry(&self.registers, reg) {
            Some(i) => Some(&self.registers[i].1),
            None => None,
        }
    }

    /// All registers with their values, in the order in which they were first set.
    pub fn registers(&self) -> (r: &Vec<(String, SymValue)>)
        ensures
            value::fields_view(r@) == self.regs(),
    {
        &self.registers
    }

    /// The value that `operand` denotes in this state.
    pub fn resolve(&self, operand: &Operand) -> (r: Option<SymValue>)
        ensures
            value_opt(r) == resolve_in(self.regs(), operand@),
    {
        match operand {
            Operand::Register(reg) => match self.get(reg.as_str()) {
                Some(v) => Some(v.duplicate()),
                None => None,
            },
            Operand::FieldAccess { register, field } => match self.get(register.as_str()) {
                Some(rec) => match rec.get_field(field.as_str()) {
                    Some(f) => Some(f.duplicate()),
                    None => None,
                },
                None => None,
            },
            Operand::Literal(s) => parse_literal(s.as_str()),
            Operand::SelfCaller => Some(
                SymValue::Address(
                    String::from_str("aleo1selfcaller0000000000000000000000000000000000000000"),
                ),
            ),
        }
    }
}

// ============================================================================
// Running one instruction
// ============================================================================

/// How an operand is written in messages.
pub open spec fn operand_text(o: OperandView) -> Seq<char> {
    match o {
        OperandView::Register(r) => r,
        OperandView::FieldAccess { register, field } => register + "."@ + field,
        OperandView::Literal(s) => s,
        OperandView::SelfCaller => "self.caller"@,
    }
}

/// `a + b` on `u64`, wrapping around on overflow.
pub open spec fn wrap_add(a: u64, b: u64) -> u64 {
    if a + b > u64::MAX {
        (a + b - 0x1_0000_0000_0000_0000) as u64
    } else {
        (a + b) as u64
    }
}

/// `a - b` on `u64`, wrapping around on underflow.
pub open spec fn wrap_sub(a: u64, b: u64) -> u64 {
    if a < b {
        (a - b + 0x1_0000_0000_0000_0000) as u64
    } else {
        (a - b) as u64
    }
}

/// Reported when `add` overflows. (Each operand is written after an `r`,
/// as in `add rr0 rr1`.)
pub open spec fn overflow_message(func: Seq<char>, lhs: OperandView, rhs: OperandView, a: u64, b: u64) -> Seq<char> {
    "OVERFLOW in "@ + func + ": add r"@ + operand_text(lhs) + " r"@ + operand_text(rhs) + " — "@
        + text::decimal(a as nat) + " + "@ + text::decimal(b as nat) + " overflows u64"@
}

/// Reported when `sub` underflows.
pub open spec fn underflow_message(func: Seq<char>, lhs: OperandView, rhs: OperandView, a: u64, b: u64) -> Seq<char> {
    "UNDERFLOW in "@ + func + ": sub "@ + operand_text(lhs) + " "@ + operand_text(rhs) + " — "@
        + text::decimal(a as nat) + " < "@ + text::decimal(b as nat) + " would underflow u64 (wraps to "@
        + text::decimal(wrap_sub(a, b) as nat) + ")"@
}

/// Reported when `assert.eq` fails.
pub open spec fn assert_eq_message(func: Seq<char>, lhs: OperandView, rhs: OperandView, a: ValueView, b: ValueView) -> Seq<char> {
    "ASSERTION FAILED in "@ + func + ": assert.eq "@ + operand_text(lhs) + " "@ + operand_text(rhs)
        + " — "@ + value::debug_text(a) + " != "@ + value::debug_text(b)
}

/// Reported when `assert.neq` fails.
pub open spec fn assert_neq_message(func: Seq<char>, lhs: OperandView, rhs: OperandView, a: ValueView, b: ValueView) -> Seq<char> {
    "ASSERTION FAILED in "@ + func + ": assert.neq "@ + operand_text(lhs) + " "@ + operand_text(rhs)
        + " — "@ + value::debug_text(a) + " == "@ + value::debug_text(b)
}

/// Both operands, when both denote `u64` values.
pub open spec fn u64_pair(regs: Seq<(Seq<char>, ValueView)>, lhs: OperandView, rhs: OperandView) -> Option<(u64, u64)> {
    match (resolve_in(regs, lhs), resolve_in(regs, rhs)) {
        (Some(ValueView::U64(a)), Some(ValueView::U64(b))) => Some((a, b)),
        _ => None,
    }
}

/// The name under which the `i`-th operand of a `cast` is stored.
pub open spec fn cast_field_name(i: int) -> Seq<char> {
    if i == 0 {
        "owner"@
    } else if i == 1 {
        "amount"@
    } else {
        "unknown"@
    }
}

/// The fields of the record that a `cast` of `fields` builds: each operand
/// that denotes a value is stored under its name, in turn.
pub open spec fn cast_fields(regs: Seq<(Seq<char>, ValueView)>, fields: Seq<OperandView>) -> Seq<(Seq<char>, ValueView)>
    decreases fields.len(),
{
    if fields.len() == 0 {
        seq![]
    } else {
        let before = cast_fields(regs, fields.drop_last());
        match resolve_in(regs, fields.last()) {
            Some(v) => value::insert(before, cast_field_name(fields.len() - 1), v),
            None => before,
        }
    }
}

/// The record a `cast` builds names each field once.
pub proof fn cast_fields_unique(regs: Seq<(Seq<char>, ValueView)>, fields: Seq<OperandView>)
    ensures
        value::keys_unique(cast_fields(regs, fields)),
    decreases fields.len(),
{
    if fields.len() > 0 {
        cast_fields_unique(regs, fields.drop_last());
        if let Some(v) = resolve_in(regs, fields.last()) {
            value::lemma_insert(cast_fields(regs, fields.drop_last()), cast_field_name(fields.len() - 1), v);
        }
    }
}

/// The record type that a `cast ... as t` builds: `t` without a trailing
/// `.record`, then without a trailing `.aleo/` followed by `t`.
pub open spec fn cast_type(as_type: Seq<char>) -> Seq<char> {
    text::trim_end_matches(text::trim_end_matches(as_type, ".record"@), ".aleo/"@ + as_type)
}

/// What running `inst` in function `func` does: the registers afterwards,
/// and the violations found.
pub open spec fn step(inst: InstructionView, regs: Seq<(Seq<char>, ValueView)>, func: Seq<char>) -> (
    Seq<(Seq<char>, ValueView)>,
    Seq<Seq<char>>,
) {
    match inst {
        InstructionView::Add { lhs, rhs, dest } => match u64_pair(regs, lhs, rhs) {
            Some((a, b)) => (
                value::insert(regs, dest, ValueView::U64(wrap_add(a, b))),
                if a + b > u64::MAX {
                    seq![overflow_message(func, lhs, rhs, a, b)]
                } else {
                    seq![]
                },
            ),
            None => (value::insert(regs, dest, ValueView::Unknown), seq![]),
        },
        InstructionView::Sub { lhs, rhs, dest } => match u64_pair(regs, lhs, rhs) {
            Some((a, b)) => (
                value::insert(regs, dest, ValueView::U64(wrap_sub(a, b))),
                if b > a {
                    seq![underflow_message(func, lhs, rhs, a, b)]
                } else {
                    seq![]
                },
            ),
            None => (value::insert(regs, dest, ValueView::Unknown), seq![]),
        },
        InstructionView::Cast { fields, dest, as_type } => (
            value::insert(
                regs,
                dest,
                ValueView::Record { record_type: cast_type(as_type), fields: cast_fields(regs, fields) },
            ),
            seq![],
        ),
        InstructionView::Gt { lhs, rhs, dest } => (
            value::insert(
                regs,
                dest,
                ValueView::Bool(
                    match u64_pair(regs, lhs, rhs) {
                        Some((a, b)) => a > b,
                        None => false,
                    },
                ),
            ),
            seq![],
        ),
        InstructionView::GetOrUse { default, dest, .. } => (
            value::insert(
                regs,
                dest,
                match literal_of(default) {
                    Some(v) => v,
                    None => ValueView::U64(0),
                },
            ),
            seq![],
        ),
        InstructionView::Async { dest, .. } => (
            value::insert(regs, dest, ValueView::Future("future"@)),
            seq![],
        ),
        InstructionView::AssertEq { lhs, rhs } => (
            regs,
            match (resolve_in(regs, lhs), resolve_in(regs, rhs)) {
                (Some(a), Some(b)) => if !value::same_value(a, b) {
                    seq![assert_eq_message(func, lhs, rhs, a, b)]
                } else {
                    seq![]
                },
                _ => seq![],
            },
        ),
        InstructionView::AssertNeq { lhs, rhs } => (
            regs,
            match (resolve_in(regs, lhs), resolve_in(regs, rhs)) {
                (Some(a), Some(b)) => if value::same_value(a, b) {
                    seq![assert_neq_message(func, lhs, rhs, a, b)]
                } else {
                    seq![]
                },
                _ => seq![],
            },
        ),
        _ => (regs, seq![]),
    }
}

/// The texts of a list of strings.
pub open spec fn texts(v: Seq<String>) -> Seq<Seq<char>> {
    v.map_values(|s: String| s@)
}

/// Writes an operand as messages show it.
pub fn operand_str(op: &Operand) -> (r: String)
    ensures
        r@ == operand_text(op@),
{
    match op {
        Operand::Register(r) => r.clone(),
        Operand::FieldAccess { register, field } => register.clone().concat(".").concat(field.as_str()),
        Operand::Literal(s) => s.clone(),
        Operand::SelfCaller => String::from_str("self.caller"),
    }
}

fn overflow_text(func: &str, lhs: &Operand, rhs: &Operand, a: u64, b: u64) -> (r: String)
    ensures
        r@ == overflow_message(func@, lhs@, rhs@, a, b),
{
    String::from_str("OVERFLOW in ").concat(func).concat(": add r").concat(operand_str(lhs).as_str()).concat(
        " r",
    ).concat(operand_str(rhs).as_str()).concat(" — ").concat(u128_text(a as u128).as_str()).concat(
        " + ",
    ).concat(u128_text(b as u128).as_str()).concat(" overflows u64")
}

fn underflow_text(func: &str, lhs: &Operand, rhs: &Operand, a: u64, b: u64) -> (r: String)
    ensures
        r@ == underflow_message(func@, lhs@, rhs@, a, b),
{
    String::from_str("UNDERFLOW in ").concat(func).concat(": sub ").concat(operand_str(lhs).as_str()).concat(
        " ",
    ).concat(operand_str(rhs).as_str()).concat(" — ").concat(u128_text(a as u128).as_str()).concat(
        " < ",
    ).concat(u128_text(b as u128).as_str()).concat(" would underflow u64 (wraps to ").concat(
        u128_text(a.wrapping_sub(b) as u128).as_str(),
    ).concat(")")
}

fn assert_eq_text(func: &str, lhs: &Operand, rhs: &Operand, a: &SymValue, b: &SymValue) -> (r: String)
    ensures
        r@ == assert_eq_message(func@, lhs@, rhs@, a@, b@),
{
    String::from_str("ASSERTION FAILED in ").concat(func).concat(": assert.eq ").concat(
        operand_str(lhs).as_str(),
    ).concat(" ").concat(operand_str(rhs).as_str()).concat(" — ").concat(a.debug_string().as_str()).concat(
        " != ",
    ).concat(b.debug_string().as_str())
}

fn assert_neq_text(func: &str, lhs: &Operand, rhs: &Operand, a: &SymValue, b: &SymValue) -> (r: String)
    ensures
        r@ == assert_neq_message(func@, lhs@, rhs@, a@, b@),
{
    String::from_str("ASSERTION FAILED in ").concat(func).concat(": assert.neq ").concat(
        operand_str(lhs).as_str(),
    ).concat(" ").concat(operand_str(rhs).as_str()).concat(" — ").concat(a.debug_string().as_str()).concat(
        " == ",
    ).concat(b.debug_string().as_str())
}

/// The record that `cast fields into .. as as_type` builds in `state`.
fn cast_record(state: &SymbolicState, fields: &Vec<Operand>, as_type: &String) -> (r: SymValue)
    ensures
        r@ == (ValueView::Record {
            record_type: cast_type(as_type@),
            fields: cast_fields(state.regs(), fields@.map_values(|o: Operand| o@)),
        }),
{
    let tv = chars_of(as_type.as_str());
    let n = tv.len();
    assert(tv@.subrange(0, n as int) =~= tv@);
    let e1 = trim_end_matches_at(&tv, 0, n, &chars_of(".record"));
    let aleo = String::from_str(".aleo/").concat(as_type.as_str());
    let e2 = trim_end_matches_at(&tv, 0, e1, &chars_of(aleo.as_str()));
    let record_type = substring(as_type.as_str(), 0, e2);
    let ghost fo = fields@.map_values(|o: Operand| o@);
    let mut record_fields: Vec<(String, SymValue)> = Vec::new();
    let mut i: usize = 0;
    assert(fo.take(0) =~= Seq::<OperandView>::empty());
    assert(value::fields_view(record_fields@) =~= Seq::<(Seq<char>, ValueView)>::empty());
    while i < fields.len()
        invariant
            i <= fields@.len(),
            fo == fields@.map_values(|o: Operand| o@),
            value::fields_view(record_fields@) == cast_fields(state.regs(), fo.take(i as int)),
        decreases fields@.len() - i,
    {
        assert(fo.take(i + 1).drop_last() =~= fo.take(i as int));
        assert(fo.take(i + 1).last() == fields@[i as int]@);
        match state.resolve(&fields[i]) {
            Some(val) => {
                let name: &str = if i == 0 {
                    "owner"
                } else if i == 1 {
                    "amount"
                } else {
                    "unknown"
                };
                set_entry(&mut record_fields, name, val);
            },
            None => {},
        }
        i = i + 1;
    }
    assert(fo.take(fields@.len() as int) =~= fo);
    SymValue::Record { record_type, fields: record_fields }
}

/// Runs one instruction of function `func_name` on `state`, and returns the
/// violations it finds: an overflowing `add`, an underflowing `sub`, a
/// failing `assert.eq` or `assert.neq`.
pub fn execute_instruction(inst: &Instruction, state: &mut SymbolicState, func_name: &str) -> (r: Vec<String>)
    requires
        old(state).wf(),
    ensures
        final(state).wf(),
        final(state).regs() == step(inst@, old(state).regs(), func_name@).0,
        texts(r@) == step(inst@, old(state).regs(), func_name@).1,
        final(state).stopped() == old(state).stopped(),
        final(state).stop_reason() == old(state).stop_reason(),
{
    let mut violations: Vec<String> = Vec::new();
    match inst {
        Instruction::Add { lhs, rhs, dest } => {
            let lv = state.resolve(lhs);
            let rv = state.resolve(rhs);
            match (lv, rv) {
                (Some(SymValue::U64(a)), Some(SymValue::U64(b))) => {
                    if a > u64::MAX - b {
                        violations.push(overflow_text(func_name, lhs, rhs, a, b));
                    }
                    state.set(dest.as_str(), SymValue::U64(a.wrapping_add(b)));
                },
                _ => {
                    state.set(dest.as_str(), SymValue::Unknown);
                },
            }
        },
        Instruction::Sub { lhs, rhs, dest } => {
            let lv = state.resolve(lhs);
            let rv = state.resolve(rhs);
            match (lv, rv) {
                (Some(SymValue::U64(a)), Some(SymValue::U64(b))) => {
                    if b > a {
                        violations.push(underflow_text(func_name, lhs, rhs, a, b));
                    }
                    state.set(dest.as_str(), SymValue::U64(a.wrapping_sub(b)));
                },
                _ => {
                    state.set(dest.as_str(), SymValue::Unknown);
                },
            }
        },
        Instruction::Cast { fields, dest, as_type } => {
            let record = cast_record(state, fields, as_type);
            state.set(dest.as_str(), record);
        },
        Instruction::Gt { lhs, rhs, dest } => {
            let lv = state.resolve(lhs);
            let rv = state.resolve(rhs);
            match (lv, rv) {
                (Some(SymValue::U64(a)), Some(SymValue::U64(b))) => {
                    state.set(dest.as_str(), SymValue::Bool(a > b));
                },
                _ => {
                    state.set(dest.as_str(), SymValue::Bool(false));
                },
            }
        },
        Instruction::GetOrUse { default, dest, .. } => {
            match parse_literal(default.as_str()) {
                Some(val) => state.set(dest.as_str(), val),
                None => state.set(dest.as_str(), SymValue::U64(0)),
            }
        },
        Instruction::MappingSet { .. } => {},
        Instruction::Async { dest, .. } => {
            state.set(dest.as_str(), SymValue::Future(String::from_str("future")));
        },
        Instruction::AssertEq { lhs, rhs } => {
            let lv = state.resolve(lhs);
            let rv = state.resolve(rhs);
            match (lv, rv) {
                (Some(a), Some(b)) => {
                    if !values_equal(&a, &b) {
                        violations.push(assert_eq_text(func_name, lhs, rhs, &a, &b));
                    }
                },
                _ => {},
            }
        },
        Instruction::AssertNeq { lhs, rhs } => {
            let lv = state.resolve(lhs);
            let rv = state.resolve(rhs);
            match (lv, rv) {
                (Some(a), Some(b)) => {
                    if values_equal(&a, &b) {
                        violations.push(assert_neq_text(func_name, lhs, rhs, &a, &b));
                    }
                },
                _ => {},
            }
        },
        Instruction::Output { .. } => {},
        Instruction::Unknown(_) => {},
    }
    assert(texts(violations@) =~= step(inst@, old(state).regs(), func_name@).1);
    violations
}

// ============================================================================
// Properties
// ============================================================================

/// The decimal text of `n` parses back as `n` for an unsigned type up to `max`.
proof fn lemma_parse_decimal(n: nat, max: int)
    requires
        n <= max,
    ensures
        text::parse_int(text::decimal(n), false, 0, max) == Some(n as int),
        text::decimal(n).len() >= 1,
        forall|i: int| 0 <= i < text::decimal(n).len() ==> text::is_digit(#[trigger] text::decimal(n)[i]),
{
    text::lemma_decimal_digits(n);
    let d = text::decimal(n);
    assert(text::is_digit(d[0]));
}

/// A `u8` literal whose number exceeds `u8::MAX` reads as nothing (as
/// `256u8` does).
pub proof fn out_of_range_u8_literal(n: nat)
    requires
        n > u8::MAX,
    ensures
        literal_of(text::decimal(n) + "u8"@) is None,
{
    reveal_strlit("self.caller");
    reveal_strlit("u64");
    reveal_strlit("u32");
    reveal_strlit("u16");
    reveal_strlit("u8");
    text::lemma_decimal_digits(n);
    let d = text::decimal(n);
    let t = d + "u8"@;
    text::lemma_trim_suffix(d, "u8"@);
    assert(text::is_digit(d[0]));
    assert(t[0] != "self.caller"@[0]);
    assert(text::is_digit(d[d.len() - 1]));
    text::lemma_not_ends_with(t, "u64"@, 0);
    text::lemma_not_ends_with(t, "u32"@, 0);
    text::lemma_not_ends_with(t, "u16"@, 0);
}

/// The signed decimal text of `x` parses back as `x` for a signed type
/// with range `min..=max`; it is digits after an optional minus, ending in
/// a digit.
proof fn lemma_parse_signed_decimal(x: int, min: int, max: int)
    requires
        min <= x <= max,
    ensures
        text::parse_int(text::signed_decimal(x), true, min, max) == Some(x),
        text::signed_decimal(x).len() >= 1,
        forall|i: int|
            0 <= i < text::signed_decimal(x).len() ==> text::is_digit(#[trigger] text::signed_decimal(x)[i])
                || (i == 0 && text::signed_decimal(x)[i] == '-'),
        text::is_digit(text::signed_decimal(x).last()),
{
    if x < 0 {
        text::lemma_decimal_digits((-x) as nat);
        let d = text::decimal((-x) as nat);
        let s = text::signed_decimal(x);
        assert(s =~= seq!['-'] + d);
        assert(s.drop_first() =~= d);
        assert(text::is_digit(d[0]));
        assert(s.last() == d.last());
        assert(text::is_digit(d[d.len() - 1]));
        assert forall|i: int| 0 <= i < s.len() implies text::is_digit(#[trigger] s[i]) || (i == 0 && s[i] == '-') by {
            if i > 0 {
                assert(s[i] == d[i - 1]);
            }
        }
    } else {
        text::lemma_decimal_digits(x as nat);
        let d = text::decimal(x as nat);
        assert(text::is_digit(d[0]));
        assert(text::is_digit(d[d.len() - 1]));
    }
}

/// The text Leo writes for a value of an unsigned type, of a signed
/// type up to `i64`, or of `bool` reads back as that value. (A literal with
/// the `i128` suffix reads as nothing: `literal_of` knows no such suffix.)
pub proof fn literal_roundtrip(v: ValueView)
    requires
        v is U8 || v is U16 || v is U32 || v is U64 || v is U128 || v is I8 || v is I16 || v is I32
            || v is I64 || v is Bool,
    ensures
        literal_of(value::leo_text(v)) == Some(v),
{
    reveal_strlit("self.caller");
    reveal_strlit("u64");
    reveal_strlit("u32");
    reveal_strlit("u16");
    reveal_strlit("u8");
    reveal_strlit("u128");
    reveal_strlit("i64");
    reveal_strlit("i32");
    reveal_strlit("i16");
    reveal_strlit("i8");
    reveal_strlit("true");
    reveal_strlit("false");
    reveal_strlit("group");
    reveal_strlit("field");
    match v {
        ValueView::U64(x) => {
            lemma_parse_decimal(x as nat, u64::MAX as int);
            let d = text::decimal(x as nat);
            text::lemma_trim_suffix(d, "u64"@);
            assert((d + "u64"@)[0] != "self.caller"@[0]);
        },
        ValueView::U32(x) => {
            lemma_parse_decimal(x as nat, u32::MAX as int);
            let d = text::decimal(x as nat);
            let t = d + "u32"@;
            text::lemma_trim_suffix(d, "u32"@);
            assert(t[0] != "self.caller"@[0]);
            text::lemma_not_ends_with(t, "u64"@, 1);
        },
        ValueView::U16(x) => {
            lemma_parse_decimal(x as nat, u16::MAX as int);
            let d = text::decimal(x as nat);
            let t = d + "u16"@;
            text::lemma_trim_suffix(d, "u16"@);
            assert(t[0] != "self.caller"@[0]);
            text::lemma_not_ends_with(t, "u64"@, 1);
            text::lemma_not_ends_with(t, "u32"@, 1);
        },
        ValueView::U8(x) => {
            lemma_parse_decimal(x as nat, u8::MAX as int);
            let d = text::decimal(x as nat);
            let t = d + "u8"@;
            text::lemma_trim_suffix(d, "u8"@);
            assert(t[0] != "self.caller"@[0]);
            assert(text::is_digit(d[d.len() - 1]));
            text::lemma_not_ends_with(t, "u64"@, 0);
            text::lemma_not_ends_with(t, "u32"@, 0);
            text::lemma_not_ends_with(t, "u16"@, 0);
        },
        ValueView::U128(x) => {
            lemma_parse_decimal(x as nat, u128::MAX as int);
            let d = text::decimal(x as nat);
            let t = d + "u128"@;
            text::lemma_trim_suffix(d, "u128"@);
            assert(t[0] != "self.caller"@[0]);
            text::lemma_not_ends_with(t, "u64"@, 0);
            text::lemma_not_ends_with(t, "u32"@, 0);
            text::lemma_not_ends_with(t, "u16"@, 0);
            text::lemma_not_ends_with(t, "u8"@, 0);
        },
        ValueView::I64(x) => {
            lemma_parse_signed_decimal(x as int, i64::MIN as int, i64::MAX as int);
            let d = text::signed_decimal(x as int);
            let t = d + "i64"@;
            text::lemma_trim_suffix(d, "i64"@);
            assert(t[0] != "self.caller"@[0]);
            text::lemma_not_ends_with(t, "u64"@, 0);
            text::lemma_not_ends_with(t, "u32"@, 0);
            text::lemma_not_ends_with(t, "u16"@, 0);
            text::lemma_not_ends_with(t, "u8"@, 0);
            text::lemma_not_ends_with(t, "u128"@, 0);
        },
        ValueView::I32(x) => {
            lemma_parse_signed_decimal(x as int, i32::MIN as int, i32::MAX as int);
            let d = text::signed_decimal(x as int);
            let t = d + "i32"@;
            text::lemma_trim_suffix(d, "i32"@);
            assert(t[0] != "self.caller"@[0]);
            text::lemma_not_ends_with(t, "u64"@, 0);
            text::lemma_not_ends_with(t, "u32"@, 0);
            text::lemma_not_ends_with(t, "u16"@, 0);
            text::lemma_not_ends_with(t, "u8"@, 0);
            text::lemma_not_ends_with(t, "u128"@, 0);
            text::lemma_not_ends_with(t, "i64"@, 1);
        },
        ValueView::I16(x) => {
            lemma_parse_signed_decimal(x as int, i16::MIN as int, i16::MAX as int);
            let d = text::signed_decimal(x as int);
            let t = d + "i16"@;
            text::lemma_trim_suffix(d, "i16"@);
            assert(t[0] != "self.caller"@[0]);
            text::lemma_not_ends_with(t, "u64"@, 0);
            text::lemma_not_ends_with(t, "u32"@, 0);
            text::lemma_not_ends_with(t, "u16"@, 0);
            text::lemma_not_ends_with(t, "u8"@, 0);
            text::lemma_not_ends_with(t, "u128"@, 0);
            text::lemma_not_ends_with(t, "i64"@, 1);
            text::lemma_not_ends_with(t, "i32"@, 1);
        },
        ValueView::I8(x) => {
            lemma_parse_signed_decimal(x as int, i8::MIN as int, i8::MAX as int);
            let d = text::signed_decimal(x as int);
            let t = d + "i8"@;
            text::lemma_trim_suffix(d, "i8"@);
            assert(t[0] != "self.caller"@[0]);
            text::lemma_not_ends_with(t, "u64"@, 0);
            text::lemma_not_ends_with(t, "u32"@, 0);
            text::lemma_not_ends_with(t, "u16"@, 0);
            text::lemma_not_ends_with(t, "u8"@, 0);
            text::lemma_not_ends_with(t, "u128"@, 0);
            text::lemma_not_ends_with(t, "i64"@, 0);
            text::lemma_not_ends_with(t, "i32"@, 0);
            text::lemma_not_ends_with(t, "i16"@, 0);
        },
        ValueView::Bool(b) => {
            let t = value::leo_text(v);
            text::lemma_not_ends_with(t, "u64"@, 0);
            text::lemma_not_ends_with(t, "u32"@, 0);
            text::lemma_not_ends_with(t, "u16"@, 0);
            text::lemma_not_ends_with(t, "u8"@, 1);
            text::lemma_not_ends_with(t, "u128"@, 0);
            text::lemma_not_ends_with(t, "i64"@, 0);
            text::lemma_not_ends_with(t, "i32"@, 0);
            text::lemma_not_ends_with(t, "i16"@, 0);
            text::lemma_not_ends_with(t, "i8"@, 1);
            assert(t[0] != "self.caller"@[0]);
            if !b {
                assert(t[0] != "true"@[0]);
            }
        },
        _ => {},
    }
}

/// Setting a register and then reading it gives the value set, and
/// leaves every other register as it was.
pub proof fn register_write_read(regs: Seq<(Seq<char>, ValueView)>, r: Seq<char>, v: ValueView, other: Seq<char>)
    requires
        value::keys_unique(regs),
    ensures
        value::lookup(value::insert(regs, r, v), r) == Some(v),
        other != r ==> value::lookup(value::insert(regs, r, v), other) == value::lookup(regs, other),
        value::keys_unique(value::insert(regs, r, v)),
{
    value::lemma_insert(regs, r, v);
}

/// `add` on two `u64` values stores their sum modulo 2^64 and reports an
/// overflow, one message starting with `OVERFLOW`, exactly when the sum
/// exceeds `u64::MAX`.
pub proof fn overflow_flagged(
    regs: Seq<(Seq<char>, ValueView)>,
    lhs: OperandView,
    rhs: OperandView,
    dest: Seq<char>,
    func: Seq<char>,
    a: u64,
    b: u64,
)
    requires
        value::keys_unique(regs),
        resolve_in(regs, lhs) == Some(ValueView::U64(a)),
        resolve_in(regs, rhs) == Some(ValueView::U64(b)),
    ensures
        ({
            let (after, found) = step(InstructionView::Add { lhs, rhs, dest }, regs, func);
            &&& value::lookup(after, dest) == Some(ValueView::U64(((a + b) % 0x1_0000_0000_0000_0000) as u64))
            &&& (found.len() > 0 <==> a + b > u64::MAX)
            &&& found.len() <= 1
            &&& (found.len() == 1 ==> text::starts_with(found[0], "OVERFLOW"@))
        }),
{
    let inst = InstructionView::Add { lhs, rhs, dest };
    assert(u64_pair(regs, lhs, rhs) == Some((a, b)));
    lemma_wrap_add(a, b);
    value::lemma_insert(regs, dest, ValueView::U64(wrap_add(a, b)));
    if a + b > u64::MAX {
        reveal_strlit("OVERFLOW in ");
        reveal_strlit("OVERFLOW");
        assert(overflow_message(func, lhs, rhs, a, b).subrange(0, 8) =~= "OVERFLOW"@);
        assert(step(inst, regs, func).1 == seq![overflow_message(func, lhs, rhs, a, b)]);
    } else {
        assert(step(inst, regs, func).1 == Seq::<Seq<char>>::empty());
    }
}

/// `sub` on two `u64` values stores their difference modulo 2^64 and
/// reports an underflow, one message starting with `UNDERFLOW`, exactly
/// when the subtrahend is the larger.
pub proof fn underflow_flagged(
    regs: Seq<(Seq<char>, ValueView)>,
    lhs: OperandView,
    rhs: OperandView,
    dest: Seq<char>,
    func: Seq<char>,
    a: u64,
    b: u64,
)
    requires
        value::keys_unique(regs),
        resolve_in(regs, lhs) == Some(ValueView::U64(a)),
        resolve_in(regs, rhs) == Some(ValueView::U64(b)),
    ensures
        ({
            let (after, found) = step(InstructionView::Sub { lhs, rhs, dest }, regs, func);
            &&& value::lookup(after, dest) == Some(ValueView::U64(((a - b) % 0x1_0000_0000_0000_0000) as u64))
            &&& (found.len() > 0 <==> b > a)
            &&& found.len() <= 1
            &&& (found.len() == 1 ==> text::starts_with(found[0], "UNDERFLOW"@))
        }),
{
    let inst = InstructionView::Sub { lhs, rhs, dest };
    assert(u64_pair(regs, lhs, rhs) == Some((a, b)));
    lemma_wrap_sub(a, b);
    value::lemma_insert(regs, dest, ValueView::U64(wrap_sub(a, b)));
    if b > a {
        reveal_strlit("UNDERFLOW in ");
        reveal_strlit("UNDERFLOW");
        assert(underflow_message(func, lhs, rhs, a, b).subrange(0, 9) =~= "UNDERFLOW"@);
        assert(step(inst, regs, func).1 == seq![underflow_message(func, lhs, rhs, a, b)]);
    } else {
        assert(step(inst, regs, func).1 == Seq::<Seq<char>>::empty());
    }
}

proof fn lemma_wrap_add(a: u64, b: u64)
    ensures
        wrap_add(a, b) as int == (a + b) % 0x1_0000_0000_0000_0000,
{
    let x = a + b;
    assert(0 <= x < 0x2_0000_0000_0000_0000);
    if x > u64::MAX {
        assert(x % 0x1_0000_0000_0000_0000 == x - 0x1_0000_0000_0000_0000) by (nonlinear_arith)
            requires
                0x1_0000_0000_0000_0000 <= x < 0x2_0000_0000_0000_0000,
        ;
    } else {
        assert(x % 0x1_0000_0000_0000_0000 == x) by (nonlinear_arith)
            requires
                0 <= x < 0x1_0000_0000_0000_0000,
        ;
    }
}

proof fn lemma_wrap_sub(a: u64, b: u64)
    ensures
        wrap_sub(a, b) as int == (a - b) % 0x1_0000_0000_0000_0000,
{
    let x = a - b;
    if a < b {
        assert(x % 0x1_0000_0000_0000_0000 == x + 0x1_0000_0000_0000_0000) by (nonlinear_arith)
            requires
                -0x1_0000_0000_0000_0000 < x < 0,
        ;
    } else {
        assert(x % 0x1_0000_0000_0000_0000 == x) by (nonlinear_arith)
            requires
                0 <= x < 0x1_0000_0000_0000_0000,
        ;
    }
}

/// Running an instruction on a well-formed state changes at most the
/// register it writes; `execute_instruction` leaves the state exactly as
/// `step` says, and keeps it well formed.
pub proof fn instruction_frame(s: SymbolicState, inst: InstructionView, func: Seq<char>, other: Seq<char>)
    requires
        s.wf(),
        written_register(inst) != Some(other),
    ensures
        value::lookup(step(inst, s.regs(), func).0, other) == value::lookup(s.regs(), other),
{
    step_frame(inst, s.regs(), func, other);
}

/// `gt` stores in its destination whether the first operand is greater,
/// when both denote `u64` values, and `false` otherwise; it reports
/// nothing.
pub proof fn gt_compares(
    regs: Seq<(Seq<char>, ValueView)>,
    lhs: OperandView,
    rhs: OperandView,
    dest: Seq<char>,
    func: Seq<char>,
)
    requires
        value::keys_unique(regs),
    ensures
        ({
            let (after, found) = step(InstructionView::Gt { lhs, rhs, dest }, regs, func);
            &&& found.len() == 0
            &&& match (resolve_in(regs, lhs), resolve_in(regs, rhs)) {
                (Some(ValueView::U64(a)), Some(ValueView::U64(b))) => value::lookup(after, dest) == Some(
                    ValueView::Bool(a > b),
                ),
                _ => value::lookup(after, dest) == Some(ValueView::Bool(false)),
            }
        }),
{
    let b = match u64_pair(regs, lhs, rhs) {
        Some(p) => p.0 > p.1,
        None => false,
    };
    value::lemma_insert(regs, dest, ValueView::Bool(b));
}

/// `assert.eq` and `assert.neq` change no register. On two known values
/// that are not records, `assert.eq` reports one failure exactly when they
/// differ and `assert.neq` exactly when they are equal; with an operand
/// that denotes nothing, neither reports.
pub proof fn assertions_compare(regs: Seq<(Seq<char>, ValueView)>, lhs: OperandView, rhs: OperandView, func: Seq<char>)
    ensures
        step(InstructionView::AssertEq { lhs, rhs }, regs, func).0 == regs,
        step(InstructionView::AssertNeq { lhs, rhs }, regs, func).0 == regs,
        match (resolve_in(regs, lhs), resolve_in(regs, rhs)) {
            (Some(a), Some(b)) => !(a is Record) && !(b is Record) ==> {
                &&& step(InstructionView::AssertEq { lhs, rhs }, regs, func).1.len() == (if a != b {
                    1int
                } else {
                    0int
                })
                &&& step(InstructionView::AssertNeq { lhs, rhs }, regs, func).1.len() == (if a == b {
                    1int
                } else {
                    0int
                })
            },
            _ => {
                &&& step(InstructionView::AssertEq { lhs, rhs }, regs, func).1.len() == 0
                &&& step(InstructionView::AssertNeq { lhs, rhs }, regs, func).1.len() == 0
            },
        },
{
}

/// `get.or_use` stores its default (`0u64` when the default is no
/// literal); `async` stores a future; `set`, `output` and instructions not
/// understood change nothing. None of them reports.
pub proof fn other_instruction_effects(regs: Seq<(Seq<char>, ValueView)>, inst: InstructionView, func: Seq<char>)
    requires
        value::keys_unique(regs),
    ensures
        step(inst, regs, func).1.len() == 0 || inst is Add || inst is Sub || inst is AssertEq || inst is AssertNeq,
        inst matches InstructionView::GetOrUse { default, dest, .. } ==> value::lookup(step(inst, regs, func).0, dest)
            == Some(
            match literal_of(default) {
                Some(v) => v,
                None => ValueView::U64(0),
            },
        ),
        inst matches InstructionView::Async { dest, .. } ==> value::lookup(step(inst, regs, func).0, dest) == Some(
            ValueView::Future("future"@),
        ),
        (inst is MappingSet || inst is Output || inst is Unknown) ==> step(inst, regs, func).0 == regs,
{
    match inst {
        InstructionView::GetOrUse { default, dest, .. } => {
            value::lemma_insert(
                regs,
                dest,
                match literal_of(default) {
                    Some(v) => v,
                    None => ValueView::U64(0),
                },
            );
        },
        InstructionView::Async { dest, .. } => {
            value::lemma_insert(regs, dest, ValueView::Future("future"@));
        },
        _ => {},
    }
}

/// `cast` of two operands denoting `v0` and `v1` stores a record of the
/// cast type whose `owner` is `v0` and whose `amount` is `v1`, and reports
/// nothing.
pub proof fn cast_builds_record(
    regs: Seq<(Seq<char>, ValueView)>,
    f0: OperandView,
    f1: OperandView,
    dest: Seq<char>,
    as_type: Seq<char>,
    func: Seq<char>,
    v0: ValueView,
    v1: ValueView,
)
    requires
        value::keys_unique(regs),
        resolve_in(regs, f0) == Some(v0),
        resolve_in(regs, f1) == Some(v1),
    ensures
        ({
            let (after, found) = step(InstructionView::Cast { fields: seq![f0, f1], dest, as_type }, regs, func);
            &&& found.len() == 0
            &&& value::lookup(after, dest) == Some(
                ValueView::Record {
                    record_type: cast_type(as_type),
                    fields: seq![("owner"@, v0), ("amount"@, v1)],
                },
            )
        }),
{
    reveal_strlit("owner");
    reveal_strlit("amount");
    let fs = seq![f0, f1];
    assert(fs.drop_last() =~= seq![f0]);
    assert(seq![f0].drop_last() =~= Seq::<OperandView>::empty());
    let s0 = seq![f0];
    assert(s0.len() == 1);
    assert(s0.last() == f0);
    assert(cast_fields(regs, s0.drop_last()) =~= Seq::<(Seq<char>, ValueView)>::empty());
    assert(cast_field_name(0) == "owner"@);
    assert(value::position(Seq::<(Seq<char>, ValueView)>::empty(), "owner"@) is None);
    let one = cast_fields(regs, s0);
    assert(one == value::insert(Seq::<(Seq<char>, ValueView)>::empty(), "owner"@, v0));
    assert(one =~= seq![("owner"@, v0)]);
    assert(fs.len() == 2);
    assert(fs.last() == f1);
    assert(cast_field_name(1) == "amount"@);
    assert("owner"@[0] != "amount"@[0]);
    assert(value::position(one.drop_first(), "amount"@) is None);
    assert(value::position(one, "amount"@) is None);
    assert(cast_fields(regs, fs) =~= seq![("owner"@, v0), ("amount"@, v1)]);
    let rec = ValueView::Record { record_type: cast_type(as_type), fields: cast_fields(regs, fs) };
    value::lemma_insert(regs, dest, rec);
}

/// The register an instruction writes, if any.
pub open spec fn written_register(inst: InstructionView) -> Option<Seq<char>> {
    match inst {
        InstructionView::Add { dest, .. } => Some(dest),
        InstructionView::Sub { dest, .. } => Some(dest),
        InstructionView::Cast { dest, .. } => Some(dest),
        InstructionView::Gt { dest, .. } => Some(dest),
        InstructionView::GetOrUse { dest, .. } => Some(dest),
        InstructionView::Async { dest, .. } => Some(dest),
        _ => None,
    }
}

/// An instruction changes at most the register it writes; every
/// other register keeps its value.
pub proof fn step_frame(inst: InstructionView, regs: Seq<(Seq<char>, ValueView)>, func: Seq<char>, other: Seq<char>)
    requires
        value::keys_unique(regs),
        written_register(inst) != Some(other),
    ensures
        value::lookup(step(inst, regs, func).0, other) == value::lookup(regs, other),
        value::keys_unique(step(inst, regs, func).0),
{
    match inst {
        InstructionView::Add { dest, lhs, rhs } => {
            value::lemma_insert(regs, dest, ValueView::Unknown);
            if let Some(p) = u64_pair(regs, lhs, rhs) {
                value::lemma_insert(regs, dest, ValueView::U64(wrap_add(p.0, p.1)));
            }
        },
        InstructionView::Sub { dest, lhs, rhs } => {
            value::lemma_insert(regs, dest, ValueView::Unknown);
            if let Some(p) = u64_pair(regs, lhs, rhs) {
                value::lemma_insert(regs, dest, ValueView::U64(wrap_sub(p.0, p.1)));
            }
        },
        InstructionView::Cast { fields, dest, as_type } => {
            value::lemma_insert(
                regs,
                dest,
                ValueView::Record { record_type: cast_type(as_type), fields: cast_fields(regs, fields) },
            );
        },
        InstructionView::Gt { lhs, rhs, dest } => {
            value::lemma_insert(
                regs,
                dest,
                ValueView::Bool(
                    match u64_pair(regs, lhs, rhs) {
                        Some(p) => p.0 > p.1,
                        None => false,
                    },
                ),
            );
        },
        InstructionView::GetOrUse { default, dest, .. } => {
            value::lemma_insert(
                regs,
                dest,
                match literal_of(default) {
                    Some(x) => x,
                    None => ValueView::U64(0),
                },
            );
        },
        InstructionView::Async { dest, .. } => {
            value::lemma_insert(regs, dest, ValueView::Future("future"@));
        },
        _ => {},
    }
}

} // verus!
