//! Random inputs for the parameters of contract functions.
//!
//! Values are drawn from a seeded `StdRng`, so a seed fixes the whole run.
//! Nothing is claimed of which values come out; the contracts say what
//! holds of every value that can: its variant follows the parameter type,
//! an address has the shape of one, and an edge case is one of the listed
//! values for its type.
use vstd::prelude::*;
use rand::rngs::StdRng;
use rand::{Rng, SeedableRng};
use crate::text;
use crate::text::{chars_of, eq_at, ends_with_at, find_at, trim_end_matches_at, substring};
use crate::value::{SymValue, ValueView, set_entry};
use crate::value;
use crate::symbolic;
use crate::parser::{FieldView, Param, RecordDef, FunctionDef, RecordView};

verus! {

// ============================================================================
// The random number generator
// ============================================================================

#[verifier::external_type_specification]
#[verifier::external_body]
pub struct SeededRng(StdRng);

/// `StdRng::seed_from_u64`: a generator whose draws are fixed by `seed`.
/// Nothing is claimed of the generator's state.
#[verifier::external_body]
fn rng_from_seed(seed: u64) -> StdRng {
    StdRng::seed_from_u64(seed)
}

/// `Rng::gen::<u8>`: the next draw; any `u8` may come back.
#[verifier::external_body]
fn draw_u8(rng: &mut StdRng) -> u8 {
    rng.gen::<u8>()
}

/// `Rng::gen::<u16>`: the next draw; any `u16` may come back.
#[verifier::external_body]
fn draw_u16(rng: &mut StdRng) -> u16 {
    rng.gen::<u16>()
}

/// `Rng::gen::<u32>`: the next draw; any `u32` may come back.
#[verifier::external_body]
fn draw_u32(rng: &mut StdRng) -> u32 {
    rng.gen::<u32>()
}

/// `Rng::gen::<u64>`: the next draw; any `u64` may come back.
#[verifier::external_body]
fn draw_u64(rng: &mut StdRng) -> u64 {
    rng.gen::<u64>()
}

/// `Rng::gen::<u128>`: the next draw; any `u128` may come back.
#[verifier::external_body]
fn draw_u128(rng: &mut StdRng) -> u128 {
    rng.gen::<u128>()
}

/// `Rng::gen::<i8>`: the next draw; any `i8` may come back.
#[verifier::external_body]
fn draw_i8(rng: &mut StdRng) -> i8 {
    rng.gen::<i8>()
}

/// `Rng::gen::<i16>`: the next draw; any `i16` may come back.
#[verifier::external_body]
fn draw_i16(rng: &mut StdRng) -> i16 {
    rng.gen::<i16>()
}

/// `Rng::gen::<i32>`: the next draw; any `i32` may come back.
#[verifier::external_body]
fn draw_i32(rng: &mut StdRng) -> i32 {
    rng.gen::<i32>()
}

/// `Rng::gen::<i64>`: the next draw; any `i64` may come back.
#[verifier::external_body]
fn draw_i64(rng: &mut StdRng) -> i64 {
    rng.gen::<i64>()
}

/// `Rng::gen::<i128>`: the next draw; any `i128` may come back.
#[verifier::external_body]
fn draw_i128(rng: &mut StdRng) -> i128 {
    rng.gen::<i128>()
}

/// `Rng::gen::<bool>`: the next draw; either value may come back.
#[verifier::external_body]
fn draw_bool(rng: &mut StdRng) -> bool {
    rng.gen::<bool>()
}

/// `Rng::gen::<[u8; 32]>`: the next 32 random bytes; any bytes may come back.
#[verifier::external_body]
fn draw_bytes(rng: &mut StdRng) -> [u8; 32] {
    rng.gen::<[u8; 32]>()
}

/// `Rng::gen_range(0..n)`: a draw below `n`. rand panics on an empty
/// range, so `n` must be positive.
#[verifier::external_body]
fn draw_below(rng: &mut StdRng, n: usize) -> (r: usize)
    requires
        n > 0,
    ensures
        r < n,
{
    rng.gen_range(0..n)
}

/// `Rng::gen_ratio(numerator, denominator)`: `true` with that probability.
/// rand panics when `denominator` is 0 or below `numerator`; its source
/// returns `true` without a draw when the two are equal, and `false` when
/// `numerator` is 0.
#[verifier::external_body]
fn draw_ratio(rng: &mut StdRng, numerator: u32, denominator: u32) -> (r: bool)
    requires
        0 < denominator,
        numerator <= denominator,
    ensures
        numerator == denominator ==> r,
        numerator == 0 ==> !r,
{
    rng.gen_ratio(numerator, denominator)
}

/// The number whose little-endian bytes are `b`.
pub open spec fn le_value(b: Seq<u8>) -> nat
    decreases b.len(),
{
    if b.len() == 0 {
        0
    } else {
        b[0] as nat + 256 * le_value(b.drop_first())
    }
}

/// `256` to the power `k`.
pub open spec fn pow256(k: nat) -> nat
    decreases k,
{
    if k == 0 {
        1
    } else {
        256 * pow256((k - 1) as nat)
    }
}

/// `k` little-endian bytes stay below `256^k`.
proof fn lemma_le_bound(b: Seq<u8>)
    ensures
        le_value(b) < pow256(b.len()),
    decreases b.len(),
{
    if b.len() > 0 {
        lemma_le_bound(b.drop_first());
        let x = le_value(b.drop_first());
        let p = pow256(b.drop_first().len());
        assert(256 * x <= 256 * (p - 1)) by (nonlinear_arith)
            requires
                x < p,
        ;
    }
}

/// `256^k` grows with `k`.
proof fn lemma_pow256_mono(j: nat, k: nat)
    requires
        j <= k,
    ensures
        pow256(j) <= pow256(k),
    decreases k - j,
{
    if j < k {
        lemma_pow256_mono(j, (k - 1) as nat);
    }
}

/// The number whose little-endian bytes are `bytes` (what
/// `u128::from_le_bytes` gives).
fn u128_from_le(bytes: [u8; 16]) -> (r: u128)
    ensures
        r as nat == le_value(bytes@),
{
    proof {
        reveal_with_fuel(pow256, 16);
    }
    assert(pow256(15) == 0x100_0000_0000_0000_0000_0000_0000_0000);
    let mut r: u128 = 0;
    let mut i: usize = 16;
    assert(bytes@.skip(16) =~= Seq::<u8>::empty());
    while i > 0
        invariant
            i <= 16,
            bytes@.len() == 16,
            r as nat == le_value(bytes@.skip(i as int)),
            pow256(15) == 0x100_0000_0000_0000_0000_0000_0000_0000,
        decreases i,
    {
        i = i - 1;
        proof {
            lemma_le_bound(bytes@.skip(i + 1));
            lemma_pow256_mono((15 - i) as nat, 15);
            assert(bytes@.skip(i + 1).len() == 15 - i);
        }
        let b = bytes[i];
        assert(r * 256 + b < 0x1_0000_0000_0000_0000_0000_0000_0000_0000) by (nonlinear_arith)
            requires
                r < 0x100_0000_0000_0000_0000_0000_0000_0000,
                b < 256,
        ;
        r = r * 256 + b as u128;
        assert(bytes@.skip(i as int).drop_first() =~= bytes@.skip(i + 1));
        assert(bytes@.skip(i as int)[0] == b);
    }
    assert(bytes@.skip(0) =~= bytes@);
    r
}

// ============================================================================
// What a generated value may be
// ============================================================================

/// The characters that addresses are drawn from.
pub open spec fn address_charset() -> Seq<char> {
    "123456789abcdefghijkmnopqrstuvwxyzABCDEFGHJKLMNPQRSTUVWXYZ"@
}

/// The address made from 32 bytes: `aleo1` followed by 51 characters, the
/// `i`-th picked by byte `i % 32` plus `7 * i`.
pub open spec fn address_text(b: Seq<u8>) -> Seq<char> {
    "aleo1"@ + Seq::new(51, |i: int| address_charset()[((b[i % 32] as int) + i * 7) % 58])
}

/// `a` is an address that some 32 bytes make.
pub open spec fn is_address_text(a: Seq<char>) -> bool {
    exists|b: Seq<u8>| b.len() == 32 && a == #[trigger] address_text(b)
}

/// The edge cases of a scalar type (none for other types).
pub open spec fn edge_cases(ty: Seq<char>) -> Seq<ValueView> {
    if ty == "u8"@ {
        seq![ValueView::U8(0), ValueView::U8(1), ValueView::U8(0xff), ValueView::U8(0xfe)]
    } else if ty == "u16"@ {
        seq![ValueView::U16(0), ValueView::U16(1), ValueView::U16(0xffff), ValueView::U16(0xfffe)]
    } else if ty == "u32"@ {
        seq![
            ValueView::U32(0),
            ValueView::U32(1),
            ValueView::U32(0xffff_ffff),
            ValueView::U32(0xffff_fffe),
        ]
    } else if ty == "u64"@ {
        seq![
            ValueView::U64(0),
            ValueView::U64(1),
            ValueView::U64(0xffff_ffff_ffff_ffff),
            ValueView::U64(0xffff_ffff_ffff_fffe),
            ValueView::U64(0x7fff_ffff_ffff_ffff),
        ]
    } else if ty == "u128"@ {
        seq![
            ValueView::U128(0),
            ValueView::U128(1),
            ValueView::U128(0xffff_ffff_ffff_ffff_ffff_ffff_ffff_ffff),
            ValueView::U128(0xffff_ffff_ffff_ffff_ffff_ffff_ffff_fffe),
        ]
    } else if ty == "i8"@ {
        seq![ValueView::I8(0), ValueView::I8(1), ValueView::I8((-1int) as i8), ValueView::I8(i8::MAX), ValueView::I8(i8::MIN)]
    } else if ty == "i16"@ {
        seq![
            ValueView::I16(0),
            ValueView::I16(1),
            ValueView::I16((-1int) as i16),
            ValueView::I16(i16::MAX),
            ValueView::I16(i16::MIN),
        ]
    } else if ty == "i32"@ {
        seq![
            ValueView::I32(0),
            ValueView::I32(1),
            ValueView::I32((-1int) as i32),
            ValueView::I32(i32::MAX),
            ValueView::I32(i32::MIN),
        ]
    } else if ty == "i64"@ {
        seq![
            ValueView::I64(0),
            ValueView::I64(1),
            ValueView::I64((-1int) as i64),
            ValueView::I64(i64::MAX),
            ValueView::I64(i64::MIN),
        ]
    } else if ty == "i128"@ {
        seq![
            ValueView::I128(0),
            ValueView::I128(1),
            ValueView::I128((-1int) as i128),
            ValueView::I128(i128::MAX),
            ValueView::I128(i128::MIN),
        ]
    } else if ty == "bool"@ {
        seq![ValueView::Bool(true), ValueView::Bool(false)]
    } else {
        seq![]
    }
}

/// Every edge case of a type fits the type.
/// The scalar type names are told apart by their length and first two characters.
proof fn lemma_type_names()
    ensures
        "address"@.len() == 7 && "address"@[0] == 'a' && "address"@[1] == 'd',
        "u8"@.len() == 2 && "u8"@[0] == 'u' && "u8"@[1] == '8',
        "u16"@.len() == 3 && "u16"@[0] == 'u' && "u16"@[1] == '1',
        "u32"@.len() == 3 && "u32"@[0] == 'u' && "u32"@[1] == '3',
        "u64"@.len() == 3 && "u64"@[0] == 'u' && "u64"@[1] == '6',
        "u128"@.len() == 4 && "u128"@[0] == 'u' && "u128"@[1] == '1',
        "i8"@.len() == 2 && "i8"@[0] == 'i' && "i8"@[1] == '8',
        "i16"@.len() == 3 && "i16"@[0] == 'i' && "i16"@[1] == '1',
        "i32"@.len() == 3 && "i32"@[0] == 'i' && "i32"@[1] == '3',
        "i64"@.len() == 3 && "i64"@[0] == 'i' && "i64"@[1] == '6',
        "i128"@.len() == 4 && "i128"@[0] == 'i' && "i128"@[1] == '1',
        "bool"@.len() == 4 && "bool"@[0] == 'b' && "bool"@[1] == 'o',
{
    reveal_strlit("address");
    reveal_strlit("u8");
    reveal_strlit("u16");
    reveal_strlit("u32");
    reveal_strlit("u64");
    reveal_strlit("u128");
    reveal_strlit("i8");
    reveal_strlit("i16");
    reveal_strlit("i32");
    reveal_strlit("i64");
    reveal_strlit("i128");
    reveal_strlit("bool");
}

/// Every edge case of a type fits the type.
pub proof fn lemma_edge_cases_fit(ty: Seq<char>, v: ValueView)
    requires
        edge_cases(ty).contains(v),
    ensures
        scalar_fits(ty, v),
{
    lemma_type_names();
    let e = edge_cases(ty);
    let i = choose|i: int| 0 <= i < e.len() && e[i] == v;
    assert(0 <= i < e.len() && e[i] == v);
}

/// `v` is an address value.
pub open spec fn address_fits(v: ValueView) -> bool {
    v matches ValueView::Address(a) && is_address_text(a)
}

/// `v` can be generated for the scalar type `ty`. Exact type names come
/// first; other names are matched by what they contain (`address`, `u64`,
/// `u32`, `u16`, `u8`), and any other type gets a `u64`.
pub open spec fn scalar_fits(ty: Seq<char>, v: ValueView) -> bool {
    if ty == "address"@ {
        address_fits(v)
    } else if ty == "u8"@ {
        v is U8
    } else if ty == "u16"@ {
        v is U16
    } else if ty == "u32"@ {
        v is U32
    } else if ty == "u64"@ {
        v is U64
    } else if ty == "u128"@ {
        v is U128
    } else if ty == "i8"@ {
        v is I8
    } else if ty == "i16"@ {
        v is I16
    } else if ty == "i32"@ {
        v is I32
    } else if ty == "i64"@ {
        v is I64
    } else if ty == "i128"@ {
        v is I128
    } else if ty == "bool"@ {
        v is Bool
    } else if ty == "field"@ || ty == "group"@ {
        v is U128
    } else if text::contains(ty, "address"@) {
        address_fits(v)
    } else if text::contains(ty, "u64"@) {
        v is U64
    } else if text::contains(ty, "u32"@) {
        v is U32
    } else if text::contains(ty, "u16"@) {
        v is U16
    } else if text::contains(ty, "u8"@) {
        v is U8
    } else {
        v is U64
    }
}

/// The entries, set in turn, name the fields `defs` in order, each with a
/// value that fits the field's type.
pub open spec fn entries_fit(defs: Seq<FieldView>, entries: Seq<(Seq<char>, ValueView)>) -> bool {
    &&& entries.len() == defs.len()
    &&& forall|j: int|
        0 <= j < defs.len() ==> (#[trigger] entries[j]).0 == defs[j].name && scalar_fits(
            defs[j].ty,
            entries[j].1,
        )
}

/// `v` can be generated for the record definition `def`.
pub open spec fn record_fits(def: RecordView, v: ValueView) -> bool {
    &&& v matches ValueView::Record { record_type, fields } && record_type == def.name && exists|
        entries: Seq<(Seq<char>, ValueView)>,
    | #[trigger] symbolic::assign_all(seq![], entries) == fields && entries_fit(def.fields, entries)
}

/// `v` can be generated for a record type `name` of which no definition
/// is known: an `owner` address and a `u64` `amount`.
pub open spec fn guessed_record_fits(name: Seq<char>, v: ValueView) -> bool {
    &&& v matches ValueView::Record { record_type, fields } && record_type == name && fields.len()
        == 2 && fields[0].0 == "owner"@ && address_fits(fields[0].1) && fields[1].0 == "amount"@
        && fields[1].1 is U64
}

/// The position of the first record definition named `name`.
pub open spec fn find_record(records: Seq<RecordView>, name: Seq<char>) -> Option<int>
    decreases records.len(),
{
    if records.len() == 0 {
        None
    } else if records[0].name == name {
        Some(0)
    } else {
        match find_record(records.drop_first(), name) {
            Some(i) => Some(i + 1),
            None => None,
        }
    }
}

/// `v` can be generated for a parameter of type `ty`: a record for
/// `<name>.record` (from its definition when there is one), the type
/// itself as a future for a type containing `.future`, a scalar otherwise.
pub open spec fn param_fits(ty: Seq<char>, records: Seq<RecordView>, v: ValueView) -> bool {
    if text::ends_with(ty, ".record"@) {
        let name = text::trim_end_matches(ty, ".record"@);
        match find_record(records, name) {
            Some(i) => record_fits(records[i], v),
            None => guessed_record_fits(name, v),
        }
    } else if text::contains(ty, ".future"@) {
        v == ValueView::Future(ty)
    } else {
        scalar_fits(ty, v)
    }
}

// ============================================================================
// The generator
// ============================================================================

/// How scalars are drawn.
#[derive(Debug, Clone, Copy)]
pub struct GeneratorConfig {
    /// Whether edge cases (0, 1, the extremes) are mixed in.
    pub include_edge_cases: bool,
    /// The chance of an edge case, as `(numerator, denominator)`.
    pub edge_case_ratio: (u32, u32),
}

impl GeneratorConfig {
    /// The ratio is a probability: a positive denominator, not below the numerator.
    pub open spec fn valid(self) -> bool {
        0 < self.edge_case_ratio.1 && self.edge_case_ratio.0 <= self.edge_case_ratio.1
    }
}

impl Default for GeneratorConfig {
    /// Edge cases in one draw in twenty.
    fn default() -> (r: Self)
        ensures
            r.include_edge_cases,
            r.edge_case_ratio == (1u32, 20u32),
    {
        GeneratorConfig { include_edge_cases: true, edge_case_ratio: (1, 20) }
    }
}

/// Draws values for the parameters of contract functions.
pub struct InputGenerator {
    rng: StdRng,
    config: GeneratorConfig,
    /// The seed `rng` was made from.
    seed: Ghost<u64>,
}

impl InputGenerator {
    /// The configuration the generator draws with.
    pub closed spec fn settings(self) -> GeneratorConfig {
        self.config
    }

    /// The seed the generator was made from.
    pub closed spec fn seed(self) -> u64 {
        self.seed@
    }

    /// A generator seeded with `seed`, with the default configuration.
    pub fn new(seed: u64) -> (r: Self)
        ensures
            r.settings().valid(),
            r.settings().include_edge_cases,
            r.settings().edge_case_ratio == (1u32, 20u32),
            r.seed() == seed,
    {
        InputGenerator { rng: rng_from_seed(seed), config: GeneratorConfig::default(), seed: Ghost(seed) }
    }

    /// A generator seeded with `seed`, with the given configuration.
    pub fn with_config(seed: u64, config: GeneratorConfig) -> (r: Self)
        requires
            config.valid(),
        ensures
            r.settings() == config,
            r.seed() == seed,
    {
        InputGenerator { rng: rng_from_seed(seed), config, seed: Ghost(seed) }
    }

    /// Values for all parameters of `func`, as `(register, value)` pairs.
    pub fn generate_inputs(&mut self, func: &FunctionDef, records: &Vec<RecordDef>) -> (r: Vec<(String, SymValue)>)
        requires
            old(self).settings().valid(),
        ensures
            final(self).settings() == old(self).settings(),
            final(self).seed() == old(self).seed(),
            r@.len() == func.inputs@.len(),
            forall|i: int|
                0 <= i < r@.len() ==> (#[trigger] r@[i]).0@ == func.inputs@[i].register@ && param_fits(
                    func.inputs@[i].ty@,
                    records@.map_values(|d: RecordDef| d@),
                    r@[i].1@,
                ),
    {
        let mut out: Vec<(String, SymValue)> = Vec::new();
        let mut i: usize = 0;
        while i < func.inputs.len()
            invariant
                i <= func.inputs@.len(),
                self.settings() == old(self).settings(),
                self.seed() == old(self).seed(),
                self.settings().valid(),
                out@.len() == i,
                forall|j: int|
                    0 <= j < i ==> (#[trigger] out@[j]).0@ == func.inputs@[j].register@ && param_fits(
                        func.inputs@[j].ty@,
                        records@.map_values(|d: RecordDef| d@),
                        out@[j].1@,
                    ),
            decreases func.inputs@.len() - i,
        {
            let param = &func.inputs[i];
            let value = self.gen_param_value(param, records);
            out.push((param.register.clone(), value));
            i = i + 1;
        }
        out
    }

    /// A value for one parameter.
    pub fn gen_param_value(&mut self, param: &Param, records: &Vec<RecordDef>) -> (r: SymValue)
        requires
            old(self).settings().valid(),
        ensures
            final(self).settings() == old(self).settings(),
            final(self).seed() == old(self).seed(),
            param_fits(param.ty@, records@.map_values(|d: RecordDef| d@), r@),
    {
        let tv = chars_of(param.ty.as_str());
        let n = tv.len();
        assert(tv@.subrange(0, n as int) =~= tv@);
        if ends_with_at(&tv, 0, n, &chars_of(".record")) {
            let e = trim_end_matches_at(&tv, 0, n, &chars_of(".record"));
            let name = substring(param.ty.as_str(), 0, e);
            match find_record_def(records, name.as_str()) {
                Some(k) => {
                    return self.gen_record(&records[k]);
                },
                None => {
                    return self.gen_record_by_name(name.as_str());
                },
            }
        }
        if find_at(&tv, 0, n, &chars_of(".future")).is_some() {
            return SymValue::Future(param.ty.clone());
        }
        self.gen_scalar(param.ty.as_str())
    }

    /// A record with a value for each field of `record_def`.
    pub fn gen_record(&mut self, record_def: &RecordDef) -> (r: SymValue)
        requires
            old(self).settings().valid(),
        ensures
            final(self).settings() == old(self).settings(),
            final(self).seed() == old(self).seed(),
            record_fits(record_def@, r@),
            r@ matches ValueView::Record { fields, .. } && value::keys_unique(fields),
    {
        let ghost defs = record_def.fields@.map_values(|f: crate::parser::RecordField| f@);
        let mut fields: Vec<(String, SymValue)> = Vec::new();
        let ghost mut entries: Seq<(Seq<char>, ValueView)> = seq![];
        let mut i: usize = 0;
        while i < record_def.fields.len()
            invariant
                i <= record_def.fields@.len(),
                defs == record_def.fields@.map_values(|f: crate::parser::RecordField| f@),
                self.settings() == old(self).settings(),
                self.seed() == old(self).seed(),
                self.settings().valid(),
                value::fields_view(fields@) == symbolic::assign_all(seq![], entries),
                entries.len() == i,
                forall|j: int|
                    0 <= j < i ==> (#[trigger] entries[j]).0 == defs[j].name && scalar_fits(
                        defs[j].ty,
                        entries[j].1,
                    ),
            decreases record_def.fields@.len() - i,
        {
            let field = &record_def.fields[i];
            let value = self.gen_scalar(field.ty.as_str());
            let ghost before = entries;
            proof {
                entries = entries.push((field.name@, value@));
                assert(entries.drop_last() =~= before);
            }
            set_entry(&mut fields, field.name.as_str(), value);
            i = i + 1;
        }
        proof {
            symbolic::lemma_assign_all_unique(seq![], entries);
        }
        let r = SymValue::Record { record_type: record_def.name.clone(), fields };
        assert(entries_fit(defs, entries));
        r
    }

    /// A record of type `name` with a guessed `owner` and `amount`.
    fn gen_record_by_name(&mut self, name: &str) -> (r: SymValue)
        requires
            old(self).settings().valid(),
        ensures
            final(self).settings() == old(self).settings(),
            final(self).seed() == old(self).seed(),
            guessed_record_fits(name@, r@),
    {
        let mut fields: Vec<(String, SymValue)> = Vec::new();
        let owner = self.gen_address();
        fields.push((String::from_str("owner"), owner));
        let amount = self.gen_u64();
        fields.push((String::from_str("amount"), amount));
        proof {
            value::lemma_fields_view(fields@);
        }
        SymValue::Record { record_type: String::from_str(name), fields }
    }

    /// A value for the scalar type `ty`; with edge cases switched on, one
    /// draw in the configured ratio is an edge case of the type.
    pub fn gen_scalar(&mut self, ty: &str) -> (r: SymValue)
        requires
            old(self).settings().valid(),
        ensures
            final(self).settings() == old(self).settings(),
            final(self).seed() == old(self).seed(),
            scalar_fits(ty@, r@),
            old(self).settings().include_edge_cases && old(self).settings().edge_case_ratio.0
                == old(self).settings().edge_case_ratio.1 && edge_cases(ty@).len() > 0
                ==> edge_cases(ty@).contains(r@),
    {
        if self.config.include_edge_cases && draw_ratio(
            &mut self.rng,
            self.config.edge_case_ratio.0,
            self.config.edge_case_ratio.1,
        ) {
            if let Some(edge) = self.gen_edge_case(ty) {
                proof {
                    lemma_edge_cases_fit(ty@, edge@);
                }
                return edge;
            }
        }
        let tv = chars_of(ty);
        if is_text(&tv, "address") {
            self.gen_address()
        } else if is_text(&tv, "u8") {
            SymValue::U8(draw_u8(&mut self.rng))
        } else if is_text(&tv, "u16") {
            SymValue::U16(draw_u16(&mut self.rng))
        } else if is_text(&tv, "u32") {
            SymValue::U32(draw_u32(&mut self.rng))
        } else if is_text(&tv, "u64") {
            self.gen_u64()
        } else if is_text(&tv, "u128") {
            SymValue::U128(draw_u128(&mut self.rng))
        } else if is_text(&tv, "i8") {
            SymValue::I8(draw_i8(&mut self.rng))
        } else if is_text(&tv, "i16") {
            SymValue::I16(draw_i16(&mut self.rng))
        } else if is_text(&tv, "i32") {
            SymValue::I32(draw_i32(&mut self.rng))
        } else if is_text(&tv, "i64") {
            SymValue::I64(draw_i64(&mut self.rng))
        } else if is_text(&tv, "i128") {
            SymValue::I128(draw_i128(&mut self.rng))
        } else if is_text(&tv, "bool") {
            SymValue::Bool(draw_bool(&mut self.rng))
        } else if is_text(&tv, "field") {
            let bytes = draw_bytes(&mut self.rng);
            let low: [u8; 16] = [
                bytes[0],
                bytes[1],
                bytes[2],
                bytes[3],
                bytes[4],
                bytes[5],
                bytes[6],
                bytes[7],
                bytes[8],
                bytes[9],
                bytes[10],
                bytes[11],
                bytes[12],
                bytes[13],
                bytes[14],
                bytes[15],
            ];
            SymValue::U128(u128_from_le(low))
        } else if is_text(&tv, "group") {
            SymValue::U128(draw_u128(&mut self.rng))
        } else if holds(&tv, "address") {
            self.gen_address()
        } else if holds(&tv, "u64") {
            self.gen_u64()
        } else if holds(&tv, "u32") {
            SymValue::U32(draw_u32(&mut self.rng))
        } else if holds(&tv, "u16") {
            SymValue::U16(draw_u16(&mut self.rng))
        } else if holds(&tv, "u8") {
            SymValue::U8(draw_u8(&mut self.rng))
        } else {
            SymValue::U64(draw_u64(&mut self.rng))
        }
    }

    /// One of the edge cases of `ty`, or `None` for a type without any.
    pub fn gen_edge_case(&mut self, ty: &str) -> (r: Option<SymValue>)
        requires
            old(self).settings().valid(),
        ensures
            final(self).settings() == old(self).settings(),
            final(self).seed() == old(self).seed(),
            match r {
                Some(v) => edge_cases(ty@).contains(v@),
                None => edge_cases(ty@).len() == 0,
            },
    {
        let tv = chars_of(ty);
        let cases: Vec<SymValue> = if is_text(&tv, "u8") {
            vec![SymValue::U8(0), SymValue::U8(1), SymValue::U8(0xff), SymValue::U8(0xfe)]
        } else if is_text(&tv, "u16") {
            vec![SymValue::U16(0), SymValue::U16(1), SymValue::U16(0xffff), SymValue::U16(0xfffe)]
        } else if is_text(&tv, "u32") {
            vec![
                SymValue::U32(0),
                SymValue::U32(1),
                SymValue::U32(0xffff_ffff),
                SymValue::U32(0xffff_fffe),
            ]
        } else if is_text(&tv, "u64") {
            vec![
                SymValue::U64(0),
                SymValue::U64(1),
                SymValue::U64(0xffff_ffff_ffff_ffff),
                SymValue::U64(0xffff_ffff_ffff_fffe),
                SymValue::U64(0x7fff_ffff_ffff_ffff),
            ]
        } else if is_text(&tv, "u128") {
            vec![
                SymValue::U128(0),
                SymValue::U128(1),
                SymValue::U128(0xffff_ffff_ffff_ffff_ffff_ffff_ffff_ffff),
                SymValue::U128(0xffff_ffff_ffff_ffff_ffff_ffff_ffff_fffe),
            ]
        } else if is_text(&tv, "i8") {
            vec![SymValue::I8(0), SymValue::I8(1), SymValue::I8(-1), SymValue::I8(0x7f), SymValue::I8(-0x80)]
        } else if is_text(&tv, "i16") {
            vec![
                SymValue::I16(0),
                SymValue::I16(1),
                SymValue::I16(-1),
                SymValue::I16(0x7fff),
                SymValue::I16(-0x8000),
            ]
        } else if is_text(&tv, "i32") {
            vec![
                SymValue::I32(0),
                SymValue::I32(1),
                SymValue::I32(-1),
                SymValue::I32(0x7fff_ffff),
                SymValue::I32(-0x8000_0000),
            ]
        } else if is_text(&tv, "i64") {
            vec![
                SymValue::I64(0),
                SymValue::I64(1),
                SymValue::I64(-1),
                SymValue::I64(0x7fff_ffff_ffff_ffff),
                SymValue::I64(-0x8000_0000_0000_0000),
            ]
        } else if is_text(&tv, "i128") {
            vec![
                SymValue::I128(0),
                SymValue::I128(1),
                SymValue::I128(-1),
                SymValue::I128(0x7fff_ffff_ffff_ffff_ffff_ffff_ffff_ffff),
                SymValue::I128(-0x8000_0000_0000_0000_0000_0000_0000_0000),
            ]
        } else if is_text(&tv, "bool") {
            vec![SymValue::Bool(true), SymValue::Bool(false)]
        } else {
            return None;
        };
        assert(cases@.map_values(|c: SymValue| c@) =~= edge_cases(ty@));
        let idx = draw_below(&mut self.rng, cases.len());
        assert(cases@.map_values(|c: SymValue| c@)[idx as int] == cases@[idx as int]@);
        Some(cases[idx].duplicate())
    }

    /// A random address: `aleo1` and 51 characters made from 32 random bytes.
    pub fn gen_address(&mut self) -> (r: SymValue)
        requires
            old(self).settings().valid(),
        ensures
            final(self).settings() == old(self).settings(),
            final(self).seed() == old(self).seed(),
            address_fits(r@),
    {
        let bytes = draw_bytes(&mut self.rng);
        let a = address_from_bytes(&bytes);
        assert(bytes@.len() == 32);
        SymValue::Address(a)
    }

    /// A random `u64`.
    pub fn gen_u64(&mut self) -> (r: SymValue)
        requires
            old(self).settings().valid(),
        ensures
            final(self).settings() == old(self).settings(),
            final(self).seed() == old(self).seed(),
            r@ is U64,
    {
        SymValue::U64(draw_u64(&mut self.rng))
    }

    /// The `u64` value `val`.
    pub fn gen_specific_u64(&self, val: u64) -> (r: SymValue)
        ensures
            r@ == ValueView::U64(val),
    {
        SymValue::U64(val)
    }
}

/// Whether `v` is the text `t`.
fn is_text(v: &Vec<char>, t: &str) -> (r: bool)
    ensures
        r == (v@ == t@),
{
    let n = v.len();
    assert(v@.subrange(0, n as int) =~= v@);
    eq_at(v, 0, n, &chars_of(t))
}

/// Whether `v` contains the text `t`.
fn holds(v: &Vec<char>, t: &str) -> (r: bool)
    ensures
        r == text::contains(v@, t@),
{
    let n = v.len();
    assert(v@.subrange(0, n as int) =~= v@);
    find_at(v, 0, n, &chars_of(t)).is_some()
}

/// Position of the first record definition named `name`.
fn find_record_def(records: &Vec<RecordDef>, name: &str) -> (r: Option<usize>)
    ensures
        match r {
            Some(k) => k < records@.len() && find_record(records@.map_values(|d: RecordDef| d@), name@)
                == Some(k as int),
            None => find_record(records@.map_values(|d: RecordDef| d@), name@) is None,
        },
{
    let ghost rv = records@.map_values(|d: RecordDef| d@);
    let mut i: usize = 0;
    assert(rv.skip(0) =~= rv);
    while i < records.len()
        invariant
            i <= records@.len(),
            rv == records@.map_values(|d: RecordDef| d@),
            find_record(rv, name@) == (match find_record(rv.skip(i as int), name@) {
                Some(k) => Some(k + i),
                None => None,
            }),
        decreases records@.len() - i,
    {
        assert(rv.skip(i as int).drop_first() =~= rv.skip(i + 1));
        assert(rv.skip(i as int)[0] == records@[i as int]@);
        if crate::spec::same_text(records[i].name.as_str(), name) {
            return Some(i);
        }
        i = i + 1;
    }
    assert(rv.skip(i as int) =~= Seq::<RecordView>::empty());
    None
}

/// The address made from `bytes` (see `address_text`).
pub fn address_from_bytes(bytes: &[u8; 32]) -> (r: String)
    ensures
        r@ == address_text(bytes@),
{
    let charset = "123456789abcdefghijkmnopqrstuvwxyzABCDEFGHJKLMNPQRSTUVWXYZ";
    proof {
        reveal_strlit("123456789abcdefghijkmnopqrstuvwxyzABCDEFGHJKLMNPQRSTUVWXYZ");
    }
    let ghost body = Seq::new(51, |i: int| address_charset()[((bytes@[i % 32] as int) + i * 7) % 58]);
    let mut out = String::from_str("aleo1");
    let mut i: usize = 0;
    while i < 51
        invariant
            i <= 51,
            charset@ == address_charset(),
            charset@.len() == 58,
            body == Seq::new(51, |i: int| address_charset()[((bytes@[i % 32] as int) + i * 7) % 58]),
            out@ == "aleo1"@ + body.take(i as int),
        decreases 51 - i,
    {
        let idx: usize = ((bytes[i % 32] as usize) + i * 7) % 58;
        out.append(charset.substring_char(idx, idx + 1));
        assert(out@ =~= "aleo1"@ + body.take(i + 1));
        i = i + 1;
    }
    assert(body.take(51) =~= body);
    out
}

/// A generated address is `aleo1` followed by 51 characters of the
/// address alphabet, 56 characters in all.
pub proof fn address_shape(a: Seq<char>)
    requires
        is_address_text(a),
    ensures
        a.len() == 56,
        a.take(5) == "aleo1"@,
        forall|i: int| 5 <= i < 56 ==> address_charset().contains(#[trigger] a[i]),
{
    reveal_strlit("aleo1");
    reveal_strlit("123456789abcdefghijkmnopqrstuvwxyzABCDEFGHJKLMNPQRSTUVWXYZ");
    let b = choose|b: Seq<u8>| b.len() == 32 && a == #[trigger] address_text(b);
    assert(a == address_text(b));
    assert(a.take(5) =~= "aleo1"@);
    assert forall|i: int| 5 <= i < 56 implies address_charset().contains(#[trigger] a[i]) by {
        let k = ((b[(i - 5) % 32] as int) + (i - 5) * 7) % 58;
        assert(0 <= k < 58);
        assert(a[i] == address_charset()[k]);
    }
}

} // verus!
