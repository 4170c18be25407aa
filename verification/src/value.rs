//! Values tracked while running instructions symbolically.
use vstd::prelude::*;
use crate::text;
use crate::text::{i128_text, u128_text};
use vstd::std_specs::cmp::PartialEqSpecImpl;

verus! {

/// A value of one of the Aleo types that the symbolic execution tracks.
#[derive(Debug)]
pub enum SymValue {
    /// An address `aleo1...`.
    Address(String),
    U8(u8),
    U16(u16),
    U32(u32),
    U64(u64),
    U128(u128),
    I8(i8),
    I16(i16),
    I32(i32),
    I64(i64),
    I128(i128),
    Bool(bool),
    /// A record: its type and its named fields, in the order they were set.
    /// A field name occurs once; setting it again replaces its value.
    Record { record_type: String, fields: Vec<(String, SymValue)> },
    /// A future, which cannot be looked into.
    Future(String),
    /// A value that could not be determined.
    Unknown,
}

/// The mathematical view of a `SymValue`.
pub enum ValueView {
    Address(Seq<char>),
    U8(u8),
    U16(u16),
    U32(u32),
    U64(u64),
    U128(u128),
    I8(i8),
    I16(i16),
    I32(i32),
    I64(i64),
    I128(i128),
    Bool(bool),
    Record { record_type: Seq<char>, fields: Seq<(Seq<char>, ValueView)> },
    Future(Seq<char>),
    Unknown,
}

pub open spec fn value_view(v: SymValue) -> ValueView
    decreases v,
{
    match v {
        SymValue::Address(a) => ValueView::Address(a@),
        SymValue::U8(x) => ValueView::U8(x),
        SymValue::U16(x) => ValueView::U16(x),
        SymValue::U32(x) => ValueView::U32(x),
        SymValue::U64(x) => ValueView::U64(x),
        SymValue::U128(x) => ValueView::U128(x),
        SymValue::I8(x) => ValueView::I8(x),
        SymValue::I16(x) => ValueView::I16(x),
        SymValue::I32(x) => ValueView::I32(x),
        SymValue::I64(x) => ValueView::I64(x),
        SymValue::I128(x) => ValueView::I128(x),
        SymValue::Bool(b) => ValueView::Bool(b),
        SymValue::Record { record_type, fields } => ValueView::Record {
            record_type: record_type@,
            fields: fields_view(fields@),
        },
        SymValue::Future(s) => ValueView::Future(s@),
        SymValue::Unknown => ValueView::Unknown,
    }
}

/// The view of a list of named values.
pub open spec fn fields_view(fs: Seq<(String, SymValue)>) -> Seq<(Seq<char>, ValueView)>
    decreases fs,
{
    if fs.len() == 0 {
        seq![]
    } else {
        fields_view(fs.drop_last()).push((fs.last().0@, value_view(fs.last().1)))
    }
}


pub proof fn lemma_fields_view(fs: Seq<(String, SymValue)>)
    ensures
        fields_view(fs).len() == fs.len(),
        forall|i: int|
            0 <= i < fs.len() ==> #[trigger] fields_view(fs)[i] == (fs[i].0@, value_view(fs[i].1)),
    decreases fs.len(),
{
    if fs.len() > 0 {
        lemma_fields_view(fs.drop_last());
    }
}

// ============================================================================
// Specifications over views
// ============================================================================

/// The value named `k` (the first entry with that name).
pub open spec fn lookup(fs: Seq<(Seq<char>, ValueView)>, k: Seq<char>) -> Option<ValueView>
    decreases fs.len(),
{
    if fs.len() == 0 {
        None
    } else if fs[0].0 == k {
        Some(fs[0].1)
    } else {
        lookup(fs.drop_first(), k)
    }
}

/// The position of the first entry named `k`.
pub open spec fn position(fs: Seq<(Seq<char>, ValueView)>, k: Seq<char>) -> Option<int>
    decreases fs.len(),
{
    if fs.len() == 0 {
        None
    } else if fs[0].0 == k {
        Some(0)
    } else {
        match position(fs.drop_first(), k) {
            Some(i) => Some(i + 1),
            None => None,
        }
    }
}

/// `fs` with the value named `k` set to `v`: the entry replaced in place
/// if there is one, appended otherwise.
pub open spec fn insert(fs: Seq<(Seq<char>, ValueView)>, k: Seq<char>, v: ValueView) -> Seq<
    (Seq<char>, ValueView),
> {
    match position(fs, k) {
        Some(i) => fs.update(i, (k, v)),
        None => fs.push((k, v)),
    }
}

/// No name occurs twice.
pub open spec fn keys_unique(fs: Seq<(Seq<char>, ValueView)>) -> bool {
    forall|i: int, j: int| 0 <= i < j < fs.len() ==> (#[trigger] fs[i]).0 != (#[trigger] fs[j]).0
}

pub proof fn lemma_position(fs: Seq<(Seq<char>, ValueView)>, k: Seq<char>)
    ensures
        position(fs, k) matches Some(i) ==> 0 <= i < fs.len() && fs[i].0 == k && lookup(fs, k)
            == Some(fs[i].1) && forall|j: int| 0 <= j < i ==> (#[trigger] fs[j]).0 != k,
        position(fs, k) is None ==> lookup(fs, k) is None && forall|j: int|
            0 <= j < fs.len() ==> (#[trigger] fs[j]).0 != k,
    decreases fs.len(),
{
    if fs.len() > 0 {
        lemma_position(fs.drop_first(), k);
        if fs[0].0 != k {
            assert forall|j: int| 1 <= j < fs.len() implies #[trigger] fs[j] == fs.drop_first()[j
                - 1] by {}
        }
    }
}

pub proof fn lemma_insert(fs: Seq<(Seq<char>, ValueView)>, k: Seq<char>, v: ValueView)
    requires
        keys_unique(fs),
    ensures
        keys_unique(insert(fs, k, v)),
        lookup(insert(fs, k, v), k) == Some(v),
        forall|k2: Seq<char>| k2 != k ==> lookup(insert(fs, k, v), k2) == lookup(fs, k2),
{
    lemma_position(fs, k);
    let r = insert(fs, k, v);
    assert(keys_unique(r));
    lemma_position(r, k);
    let idx: int = match position(fs, k) {
        Some(i) => i,
        None => fs.len() as int,
    };
    assert(r[idx] == (k, v));
    assert(forall|j: int| 0 <= j < idx ==> r[j] == fs[j]);
    match position(r, k) {
        Some(i2) => {
            if i2 < idx {
                assert(r[i2] == fs[i2]);
            } else if i2 > idx {
                assert(r[idx].0 == k);
            }
        },
        None => {
            assert(r[idx].0 == k);
        },
    }
    assert forall|k2: Seq<char>| k2 != k implies lookup(r, k2) == lookup(fs, k2) by {
        lemma_position(fs, k2);
        lemma_position(r, k2);
        if let Some(i) = position(fs, k2) {
            assert(r[i] == fs[i]);
            if let Some(i2) = position(r, k2) {
                if i2 < i {
                    assert(r[i2].0 == fs[i2].0);
                }
            }
        } else {
            if let Some(i2) = position(r, k2) {
                assert(r[i2].0 == k2);
                if i2 < fs.len() {
                    assert(fs[i2].0 == r[i2].0 || r[i2].0 == k);
                }
            }
        }
    }
}

/// The field `name` of a record (`None` for other values).
pub open spec fn field_of(v: ValueView, name: Seq<char>) -> Option<ValueView> {
    match v {
        ValueView::Record { fields, .. } => lookup(fields, name),
        _ => None,
    }
}

/// The `u64` inside a `U64` value.
pub open spec fn u64_of(v: ValueView) -> Option<u64> {
    match v {
        ValueView::U64(x) => Some(x),
        _ => None,
    }
}

/// The amount a value carries: a `U64` itself, or a record's `amount` field when that is a `U64`.
pub open spec fn amount_of(v: ValueView) -> Option<u64> {
    match v {
        ValueView::U64(x) => Some(x),
        ValueView::Record { fields, .. } => match lookup(fields, "amount"@) {
            Some(a) => u64_of(a),
            None => None,
        },
        _ => None,
    }
}

/// The text of a value as Leo writes it (`100u64`, `-5i64`, `true`,
/// `token { owner: aleo1..., amount: 5u64, _nonce: 0group }`).
pub open spec fn leo_text(v: ValueView) -> Seq<char>
    decreases v,
{
    match v {
        ValueView::Address(a) => a,
        ValueView::U8(x) => text::decimal(x as nat) + "u8"@,
        ValueView::U16(x) => text::decimal(x as nat) + "u16"@,
        ValueView::U32(x) => text::decimal(x as nat) + "u32"@,
        ValueView::U64(x) => text::decimal(x as nat) + "u64"@,
        ValueView::U128(x) => text::decimal(x as nat) + "u128"@,
        ValueView::I8(x) => text::signed_decimal(x as int) + "i8"@,
        ValueView::I16(x) => text::signed_decimal(x as int) + "i16"@,
        ValueView::I32(x) => text::signed_decimal(x as int) + "i32"@,
        ValueView::I64(x) => text::signed_decimal(x as int) + "i64"@,
        ValueView::I128(x) => text::signed_decimal(x as int) + "i128"@,
        ValueView::Bool(b) => if b {
            "true"@
        } else {
            "false"@
        },
        ValueView::Record { record_type, fields } => record_type + " { "@ + entries_text(fields)
            + "_nonce: 0group"@ + " }"@,
        ValueView::Future(s) => s,
        ValueView::Unknown => "<unknown>"@,
    }
}

/// `name: value, ` for each entry, in order.
pub open spec fn entries_text(fs: Seq<(Seq<char>, ValueView)>) -> Seq<char>
    decreases fs,
{
    if fs.len() == 0 {
        seq![]
    } else {
        entries_text(fs.drop_last()) + fs.last().0 + ": "@ + leo_text(fs.last().1) + ", "@
    }
}


/// The text that `str`'s `Debug` writes for `s` (quoted, with escapes).
pub uninterp spec fn str_debug(s: Seq<char>) -> Seq<char>;

/// `Debug` of a `str`: calls `<str as Debug>::fmt` through `format!`; its
/// result is named `str_debug`, a function of the text alone.
#[verifier::external_body]
fn debug_str(s: &str) -> (r: String)
    ensures
        r@ == str_debug(s@),
{
    format!("{:?}", s)
}

/// The text that the derived `Debug` writes for a value (`U64(5)`,
/// `Address("aleo1...")`, `Record { record_type: "token", fields: {...} }`).
pub open spec fn debug_text(v: ValueView) -> Seq<char>
    decreases v,
{
    match v {
        ValueView::Address(a) => "Address("@ + str_debug(a) + ")"@,
        ValueView::U8(x) => "U8("@ + text::decimal(x as nat) + ")"@,
        ValueView::U16(x) => "U16("@ + text::decimal(x as nat) + ")"@,
        ValueView::U32(x) => "U32("@ + text::decimal(x as nat) + ")"@,
        ValueView::U64(x) => "U64("@ + text::decimal(x as nat) + ")"@,
        ValueView::U128(x) => "U128("@ + text::decimal(x as nat) + ")"@,
        ValueView::I8(x) => "I8("@ + text::signed_decimal(x as int) + ")"@,
        ValueView::I16(x) => "I16("@ + text::signed_decimal(x as int) + ")"@,
        ValueView::I32(x) => "I32("@ + text::signed_decimal(x as int) + ")"@,
        ValueView::I64(x) => "I64("@ + text::signed_decimal(x as int) + ")"@,
        ValueView::I128(x) => "I128("@ + text::signed_decimal(x as int) + ")"@,
        ValueView::Bool(b) => "Bool("@ + (if b {
            "true"@
        } else {
            "false"@
        }) + ")"@,
        ValueView::Record { record_type, fields } => "Record { record_type: "@ + str_debug(
            record_type,
        ) + ", fields: {"@ + debug_entries(fields) + "} }"@,
        ValueView::Future(s) => "Future("@ + str_debug(s) + ")"@,
        ValueView::Unknown => "Unknown"@,
    }
}

/// `"name": value` for each entry, separated by `, `.
pub open spec fn debug_entries(fs: Seq<(Seq<char>, ValueView)>) -> Seq<char>
    decreases fs,
{
    if fs.len() == 0 {
        seq![]
    } else if fs.len() == 1 {
        str_debug(fs[0].0) + ": "@ + debug_text(fs[0].1)
    } else {
        debug_entries(fs.drop_last()) + ", "@ + str_debug(fs.last().0) + ": "@ + debug_text(
            fs.last().1,
        )
    }
}

/// Value equality as the derived `PartialEq` of the value type defines it,
/// with records compared as maps: same type, same number of fields, and
/// every field of the first found with an equal value in the second.
pub open spec fn same_value(a: ValueView, b: ValueView) -> bool
    decreases a,
{
    match (a, b) {
        (ValueView::Record { record_type: ta, fields: fa }, ValueView::Record {
            record_type: tb,
            fields: fb,
        }) => ta == tb && fa.len() == fb.len() && fields_within(fa, fb),
        (ValueView::Record { .. }, _) => false,
        (_, ValueView::Record { .. }) => false,
        _ => a == b,
    }
}

/// Every entry of `fa` has an equal value under its name in `fb`.
pub open spec fn fields_within(fa: Seq<(Seq<char>, ValueView)>, fb: Seq<(Seq<char>, ValueView)>) -> bool
    decreases fa,
{
    if fa.len() == 0 {
        true
    } else {
        fields_within(fa.drop_last(), fb) && match lookup(fb, fa.last().0) {
            Some(w) => same_value(fa.last().1, w),
            None => false,
        }
    }
}

impl View for SymValue {
    type V = ValueView;

    open spec fn view(&self) -> ValueView {
        value_view(*self)
    }
}


// ============================================================================
// Operations
// ============================================================================

pub proof fn lemma_fields_view_push(fs: Seq<(String, SymValue)>, x: (String, SymValue))
    ensures
        fields_view(fs.push(x)) == fields_view(fs).push((x.0@, x.1@)),
{
    assert(fs.push(x).drop_last() =~= fs);
}

proof fn lemma_fields_view_take(fs: Seq<(String, SymValue)>, i: int)
    requires
        0 <= i < fs.len(),
    ensures
        fields_view(fs.take(i + 1)) == fields_view(fs.take(i)).push((fs[i].0@, fs[i].1@)),
        fields_view(fs.take(i + 1)) == fields_view(fs).take(i + 1),
{
    assert(fs.take(i + 1).drop_last() =~= fs.take(i));
    lemma_fields_view(fs);
    lemma_fields_view(fs.take(i + 1));
    assert(fields_view(fs.take(i + 1)) =~= fields_view(fs).take(i + 1));
}

impl SymValue {
    /// A copy of the value, with the same view.
    #[verifier::loop_isolation(false)]
    pub fn duplicate(&self) -> (r: SymValue)
        ensures
            r@ == self@,
        decreases self,
    {
        match self {
            SymValue::Address(a) => SymValue::Address(a.clone()),
            SymValue::U8(x) => SymValue::U8(*x),
            SymValue::U16(x) => SymValue::U16(*x),
            SymValue::U32(x) => SymValue::U32(*x),
            SymValue::U64(x) => SymValue::U64(*x),
            SymValue::U128(x) => SymValue::U128(*x),
            SymValue::I8(x) => SymValue::I8(*x),
            SymValue::I16(x) => SymValue::I16(*x),
            SymValue::I32(x) => SymValue::I32(*x),
            SymValue::I64(x) => SymValue::I64(*x),
            SymValue::I128(x) => SymValue::I128(*x),
            SymValue::Bool(b) => SymValue::Bool(*b),
            SymValue::Record { record_type, fields } => {
                let mut out: Vec<(String, SymValue)> = Vec::new();
                let mut i: usize = 0;
                assert(fields@.take(0) =~= Seq::<(String, SymValue)>::empty());
                while i < fields.len()
                    invariant
                        i <= fields@.len(),
                        fields_view(out@) == fields_view(fields@.take(i as int)),
                    decreases fields@.len() - i,
                {
                    proof {
                        lemma_fields_view_take(fields@, i as int);
                    }
                    let v = fields[i].1.duplicate();
                    let entry = (fields[i].0.clone(), v);
                    proof {
                        lemma_fields_view_push(out@, entry);
                    }
                    out.push(entry);
                    i = i + 1;
                }
                assert(fields@.take(fields@.len() as int) =~= fields@);
                SymValue::Record { record_type: record_type.clone(), fields: out }
            },
            SymValue::Future(f) => SymValue::Future(f.clone()),
            SymValue::Unknown => SymValue::Unknown,
        }
    }

    /// The `u64` inside a `U64` value.
    pub fn as_u64(&self) -> (r: Option<u64>)
        ensures
            r == u64_of(self@),
    {
        match self {
            SymValue::U64(v) => Some(*v),
            _ => None,
        }
    }

    /// The field `name` of a record (`None` for other values).
    pub fn get_field(&self, name: &str) -> (r: Option<&SymValue>)
        ensures
            match r {
                Some(x) => field_of(self@, name@) == Some(x@),
                None => field_of(self@, name@) is None,
            },
    {
        match self {
            SymValue::Record { fields, .. } => {
                match find_entry(fields, name) {
                    Some(i) => Some(&fields[i].1),
                    None => None,
                }
            },
            _ => None,
        }
    }

    /// The amount a value carries: a `U64` itself, or a record's `amount`
    /// field when that is a `U64`.
    pub fn extract_amount(&self) -> (r: Option<u64>)
        ensures
            r == amount_of(self@),
    {
        match self {
            SymValue::U64(v) => Some(*v),
            SymValue::Record { .. } => match self.get_field("amount") {
                Some(a) => a.as_u64(),
                None => None,
            },
            _ => None,
        }
    }

    /// The text of the value as Leo writes it (an input to `leo run`).
    #[verifier::loop_isolation(false)]
    pub fn to_leo_string(&self) -> (r: String)
        ensures
            r@ == leo_text(self@),
        decreases self,
    {
        match self {
            SymValue::Address(a) => a.clone(),
            SymValue::U8(x) => u128_text(*x as u128).concat("u8"),
            SymValue::U16(x) => u128_text(*x as u128).concat("u16"),
            SymValue::U32(x) => u128_text(*x as u128).concat("u32"),
            SymValue::U64(x) => u128_text(*x as u128).concat("u64"),
            SymValue::U128(x) => u128_text(*x).concat("u128"),
            SymValue::I8(x) => i128_text(*x as i128).concat("i8"),
            SymValue::I16(x) => i128_text(*x as i128).concat("i16"),
            SymValue::I32(x) => i128_text(*x as i128).concat("i32"),
            SymValue::I64(x) => i128_text(*x as i128).concat("i64"),
            SymValue::I128(x) => i128_text(*x).concat("i128"),
            SymValue::Bool(b) => if *b {
                String::from_str("true")
            } else {
                String::from_str("false")
            },
            SymValue::Record { record_type, fields } => {
                let mut out = record_type.clone().concat(" { ");
                let ghost head = out@;
                let mut i: usize = 0;
                assert(fields@.take(0) =~= Seq::<(String, SymValue)>::empty());
                while i < fields.len()
                    invariant
                        i <= fields@.len(),
                        out@ == head + entries_text(fields_view(fields@.take(i as int))),
                    decreases fields@.len() - i,
                {
                    proof {
                        lemma_fields_view_take(fields@, i as int);
                    }
                    let t = fields[i].1.to_leo_string();
                    out = out.concat(fields[i].0.as_str()).concat(": ").concat(t.as_str()).concat(
                        ", ",
                    );
                    let ghost fv = fields_view(fields@.take(i + 1));
                    assert(fv.drop_last() == fields_view(fields@.take(i as int)));
                    assert(out@ =~= head + entries_text(fv));
                    i = i + 1;
                }
                assert(fields@.take(fields@.len() as int) =~= fields@);
                out.concat("_nonce: 0group").concat(" }")
            },
            SymValue::Future(s) => s.clone(),
            SymValue::Unknown => String::from_str("<unknown>"),
        }
    }

    /// The text that the derived `Debug` writes for the value.
    #[verifier::loop_isolation(false)]
    pub fn debug_string(&self) -> (r: String)
        ensures
            r@ == debug_text(self@),
        decreases self,
    {
        match self {
            SymValue::Address(a) => String::from_str("Address(").concat(debug_str(a.as_str()).as_str()).concat(")"),
            SymValue::U8(x) => String::from_str("U8(").concat(u128_text(*x as u128).as_str()).concat(")"),
            SymValue::U16(x) => String::from_str("U16(").concat(u128_text(*x as u128).as_str()).concat(")"),
            SymValue::U32(x) => String::from_str("U32(").concat(u128_text(*x as u128).as_str()).concat(")"),
            SymValue::U64(x) => String::from_str("U64(").concat(u128_text(*x as u128).as_str()).concat(")"),
            SymValue::U128(x) => String::from_str("U128(").concat(u128_text(*x).as_str()).concat(")"),
            SymValue::I8(x) => String::from_str("I8(").concat(i128_text(*x as i128).as_str()).concat(")"),
            SymValue::I16(x) => String::from_str("I16(").concat(i128_text(*x as i128).as_str()).concat(")"),
            SymValue::I32(x) => String::from_str("I32(").concat(i128_text(*x as i128).as_str()).concat(")"),
            SymValue::I64(x) => String::from_str("I64(").concat(i128_text(*x as i128).as_str()).concat(")"),
            SymValue::I128(x) => String::from_str("I128(").concat(i128_text(*x).as_str()).concat(")"),
            SymValue::Bool(b) => if *b {
                String::from_str("Bool(").concat("true").concat(")")
            } else {
                String::from_str("Bool(").concat("false").concat(")")
            },
            SymValue::Record { record_type, fields } => {
                let mut out = String::from_str("Record { record_type: ").concat(
                    debug_str(record_type.as_str()).as_str(),
                ).concat(", fields: {");
                let ghost head = out@;
                let mut i: usize = 0;
                assert(fields@.take(0) =~= Seq::<(String, SymValue)>::empty());
                while i < fields.len()
                    invariant
                        i <= fields@.len(),
                        out@ == head + debug_entries(fields_view(fields@.take(i as int))),
                    decreases fields@.len() - i,
                {
                    proof {
                        lemma_fields_view_take(fields@, i as int);
                        lemma_fields_view(fields@.take(i + 1));
                    }
                    if i > 0 {
                        out = out.concat(", ");
                    }
                    let k = debug_str(fields[i].0.as_str());
                    let t = fields[i].1.debug_string();
                    out = out.concat(k.as_str()).concat(": ").concat(t.as_str());
                    let ghost fv = fields_view(fields@.take(i + 1));
                    assert(fv.drop_last() == fields_view(fields@.take(i as int)));
                    assert(out@ =~= head + debug_entries(fv));
                    i = i + 1;
                }
                assert(fields@.take(fields@.len() as int) =~= fields@);
                out.concat("} }")
            },
            SymValue::Future(f) => String::from_str("Future(").concat(debug_str(f.as_str()).as_str()).concat(")"),
            SymValue::Unknown => String::from_str("Unknown"),
        }
    }
}

/// Position of the first entry of `fs` named `name`.
pub fn find_entry(fs: &Vec<(String, SymValue)>, name: &str) -> (r: Option<usize>)
    ensures
        match r {
            Some(i) => i < fs@.len() && fs@[i as int].0@ == name@ && lookup(fields_view(fs@), name@)
                == Some(fs@[i as int].1@) && position(fields_view(fs@), name@) == Some(i as int),
            None => lookup(fields_view(fs@), name@) is None && position(fields_view(fs@), name@) is None,
        },
{
    let ghost fv = fields_view(fs@);
    proof {
        lemma_fields_view(fs@);
        lemma_position(fv, name@);
    }
    let mut i: usize = 0;
    while i < fs.len()
        invariant
            i <= fs@.len(),
            fv == fields_view(fs@),
            fv.len() == fs@.len(),
            forall|j: int| 0 <= j < fs@.len() ==> #[trigger] fv[j] == (fs@[j].0@, fs@[j].1@),
            forall|j: int| 0 <= j < i ==> fs@[j].0@ != name@,
            position(fv, name@) matches Some(p) ==> 0 <= p < fv.len() && fv[p].0 == name@
                && lookup(fv, name@) == Some(fv[p].1) && forall|j: int|
                0 <= j < p ==> (#[trigger] fv[j]).0 != name@,
            position(fv, name@) is None ==> lookup(fv, name@) is None && forall|j: int|
                0 <= j < fv.len() ==> (#[trigger] fv[j]).0 != name@,
        decreases fs@.len() - i,
    {
        if crate::spec::same_text(fs[i].0.as_str(), name) {
            assert(fv[i as int].0 == name@);
            return Some(i);
        }
        assert(fv[i as int].0 != name@);
        i = i + 1;
    }
    None
}

/// Whether two values are equal, as the derived `PartialEq` of the value
/// type decides (records compared as maps from field names to values).
#[verifier::loop_isolation(false)]
pub fn values_equal(a: &SymValue, b: &SymValue) -> (r: bool)
    ensures
        r == same_value(a@, b@),
    decreases a,
{
    match (a, b) {
        (SymValue::Address(x), SymValue::Address(y)) => crate::spec::same_text(x.as_str(), y.as_str()),
        (SymValue::U8(x), SymValue::U8(y)) => *x == *y,
        (SymValue::U16(x), SymValue::U16(y)) => *x == *y,
        (SymValue::U32(x), SymValue::U32(y)) => *x == *y,
        (SymValue::U64(x), SymValue::U64(y)) => *x == *y,
        (SymValue::U128(x), SymValue::U128(y)) => *x == *y,
        (SymValue::I8(x), SymValue::I8(y)) => *x == *y,
        (SymValue::I16(x), SymValue::I16(y)) => *x == *y,
        (SymValue::I32(x), SymValue::I32(y)) => *x == *y,
        (SymValue::I64(x), SymValue::I64(y)) => *x == *y,
        (SymValue::I128(x), SymValue::I128(y)) => *x == *y,
        (SymValue::Bool(x), SymValue::Bool(y)) => *x == *y,
        (SymValue::Future(x), SymValue::Future(y)) => crate::spec::same_text(x.as_str(), y.as_str()),
        (SymValue::Unknown, SymValue::Unknown) => true,
        (
            SymValue::Record { record_type: ta, fields: fa },
            SymValue::Record { record_type: tb, fields: fb },
        ) => {
            proof {
                lemma_fields_view(fa@);
                lemma_fields_view(fb@);
            }
            assert(a@ == ValueView::Record { record_type: ta@, fields: fields_view(fa@) });
            assert(b@ == ValueView::Record { record_type: tb@, fields: fields_view(fb@) });
            let same_type = crate::spec::same_text(ta.as_str(), tb.as_str());
            if !same_type || fa.len() != fb.len() {
                return false;
            }
            let mut i: usize = 0;
            assert(fa@.take(0) =~= Seq::<(String, SymValue)>::empty());
            while i < fa.len()
                invariant
                    i <= fa@.len(),
                    fields_within(fields_view(fa@.take(i as int)), fields_view(fb@)),
                decreases fa@.len() - i,
            {
                proof {
                    lemma_fields_view_take(fa@, i as int);
                }
                let ok = match find_entry(fb, fa[i].0.as_str()) {
                    Some(j) => values_equal(&fa[i].1, &fb[j].1),
                    None => false,
                };
                let ghost fvi = fields_view(fa@.take(i + 1));
                assert(fvi.drop_last() == fields_view(fa@.take(i as int)));
                assert(fvi.last() == (fa@[i as int].0@, fa@[i as int].1@));
                if !ok {
                    proof {
                        if fields_within(fields_view(fa@), fields_view(fb@)) {
                            lemma_fields_within_prefix(fields_view(fa@), fields_view(fb@), i as int);
                            assert(fields_view(fa@).take(i + 1) == fields_view(fa@.take(i + 1)));
                        }
                    }
                    return false;
                }
                i = i + 1;
            }
            assert(fa@.take(fa@.len() as int) =~= fa@);
            true
        },
        _ => false,
    }
}

proof fn lemma_fields_view_update(fs: Seq<(String, SymValue)>, i: int, x: (String, SymValue))
    requires
        0 <= i < fs.len(),
    ensures
        fields_view(fs.update(i, x)) == fields_view(fs).update(i, (x.0@, x.1@)),
{
    lemma_fields_view(fs);
    lemma_fields_view(fs.update(i, x));
    assert(fields_view(fs.update(i, x)) =~= fields_view(fs).update(i, (x.0@, x.1@)));
}

/// Sets the entry named `name` to `value`: the first entry with that name
/// is replaced in place; without one, the entry is appended.
pub fn set_entry(fs: &mut Vec<(String, SymValue)>, name: &str, value: SymValue)
    ensures
        fields_view(final(fs)@) == insert(fields_view(old(fs)@), name@, value@),
{
    let entry = (String::from_str(name), value);
    match find_entry(fs, name) {
        Some(i) => {
            proof {
                lemma_fields_view_update(fs@, i as int, entry);
            }
            fs.set(i, entry);
        },
        None => {
            proof {
                lemma_fields_view_push(fs@, entry);
            }
            fs.push(entry);
        },
    }
}

impl Clone for SymValue {
    fn clone(&self) -> (r: Self)
        ensures
            r@ == self@,
    {
        self.duplicate()
    }
}

impl PartialEq for SymValue {
    fn eq(&self, other: &Self) -> (r: bool) {
        values_equal(self, other)
    }
}

impl PartialEqSpecImpl for SymValue {
    open spec fn obeys_eq_spec() -> bool {
        true
    }

    open spec fn eq_spec(&self, other: &Self) -> bool {
        same_value(self@, other@)
    }
}

/// If all entries of `fa` are within `fb`, so are those of each prefix.
proof fn lemma_fields_within_prefix(
    fa: Seq<(Seq<char>, ValueView)>,
    fb: Seq<(Seq<char>, ValueView)>,
    i: int,
)
    requires
        0 <= i < fa.len(),
        fields_within(fa, fb),
    ensures
        fields_within(fa.take(i + 1), fb),
    decreases fa.len(),
{
    if i + 1 == fa.len() {
        assert(fa.take(i + 1) =~= fa);
    } else {
        assert(fa.drop_last().take(i + 1) =~= fa.take(i + 1));
        lemma_fields_within_prefix(fa.drop_last(), fb, i);
    }
}

} // verus!
