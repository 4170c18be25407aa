//! Instructions of function bodies in `.aleo` files, and their parser.
use vstd::prelude::*;
use crate::text;
use crate::text::{chars_of, eq_at, find_at, substring, word_ranges};
use crate::parser::{cleaned, cleaned_at};

verus! {

/// An instruction of a function body.
#[derive(Debug, Clone, PartialEq)]
pub enum Instruction {
    /// `add rA rB into rC`
    Add { lhs: Operand, rhs: Operand, dest: String },
    /// `sub rA rB into rC`
    Sub { lhs: Operand, rhs: Operand, dest: String },
    /// `cast rA rB ... into rC as type`: builds a record or struct.
    Cast { fields: Vec<Operand>, dest: String, as_type: String },
    /// `gt rA rB into rC`
    Gt { lhs: Operand, rhs: Operand, dest: String },
    /// `get.or_use mapping[key] default into rC`
    GetOrUse { mapping: String, key: String, default: String, dest: String },
    /// `set rA into mapping[key]`
    MappingSet { value: String, mapping: String, key: String },
    /// `async func args... into rC`
    Async { func: String, args: Vec<String>, dest: String },
    /// `assert.eq rA rB`
    AssertEq { lhs: Operand, rhs: Operand },
    /// `assert.neq rA rB`
    AssertNeq { lhs: Operand, rhs: Operand },
    /// `output rA as type`
    Output { src: String, ty: String },
    /// Any other instruction.
    Unknown(String),
}

/// An operand of an instruction.
#[derive(Debug, Clone, PartialEq)]
pub enum Operand {
    /// A register: `r0`, `r1`, ...
    Register(String),
    /// A field of a register: `r0.amount`.
    FieldAccess { register: String, field: String },
    /// A literal: `0u64`, `100u64`.
    Literal(String),
    /// `self.caller`, the caller's address.
    SelfCaller,
}

pub enum OperandView {
    Register(Seq<char>),
    FieldAccess { register: Seq<char>, field: Seq<char> },
    Literal(Seq<char>),
    SelfCaller,
}

pub enum InstructionView {
    Add { lhs: OperandView, rhs: OperandView, dest: Seq<char> },
    Sub { lhs: OperandView, rhs: OperandView, dest: Seq<char> },
    Cast { fields: Seq<OperandView>, dest: Seq<char>, as_type: Seq<char> },
    Gt { lhs: OperandView, rhs: OperandView, dest: Seq<char> },
    GetOrUse { mapping: Seq<char>, key: Seq<char>, default: Seq<char>, dest: Seq<char> },
    MappingSet { value: Seq<char>, mapping: Seq<char>, key: Seq<char> },
    Async { func: Seq<char>, args: Seq<Seq<char>>, dest: Seq<char> },
    AssertEq { lhs: OperandView, rhs: OperandView },
    AssertNeq { lhs: OperandView, rhs: OperandView },
    Output { src: Seq<char>, ty: Seq<char> },
    Unknown(Seq<char>),
}

impl View for Operand {
    type V = OperandView;

    open spec fn view(&self) -> OperandView {
        match self {
            Operand::Register(r) => OperandView::Register(r@),
            Operand::FieldAccess { register, field } => OperandView::FieldAccess {
                register: register@,
                field: field@,
            },
            Operand::Literal(s) => OperandView::Literal(s@),
            Operand::SelfCaller => OperandView::SelfCaller,
        }
    }
}

impl View for Instruction {
    type V = InstructionView;

    open spec fn view(&self) -> InstructionView {
        match self {
            Instruction::Add { lhs, rhs, dest } => InstructionView::Add {
                lhs: lhs@,
                rhs: rhs@,
                dest: dest@,
            },
            Instruction::Sub { lhs, rhs, dest } => InstructionView::Sub {
                lhs: lhs@,
                rhs: rhs@,
                dest: dest@,
            },
            Instruction::Cast { fields, dest, as_type } => InstructionView::Cast {
                fields: fields@.map_values(|o: Operand| o@),
                dest: dest@,
                as_type: as_type@,
            },
            Instruction::Gt { lhs, rhs, dest } => InstructionView::Gt {
                lhs: lhs@,
                rhs: rhs@,
                dest: dest@,
            },
            Instruction::GetOrUse { mapping, key, default, dest } => InstructionView::GetOrUse {
                mapping: mapping@,
                key: key@,
                default: default@,
                dest: dest@,
            },
            Instruction::MappingSet { value, mapping, key } => InstructionView::MappingSet {
                value: value@,
                mapping: mapping@,
                key: key@,
            },
            Instruction::Async { func, args, dest } => InstructionView::Async {
                func: func@,
                args: args@.map_values(|a: String| a@),
                dest: dest@,
            },
            Instruction::AssertEq { lhs, rhs } => InstructionView::AssertEq { lhs: lhs@, rhs: rhs@ },
            Instruction::AssertNeq { lhs, rhs } => InstructionView::AssertNeq {
                lhs: lhs@,
                rhs: rhs@,
            },
            Instruction::Output { src, ty } => InstructionView::Output { src: src@, ty: ty@ },
            Instruction::Unknown(s) => InstructionView::Unknown(s@),
        }
    }
}

// ============================================================================
// Specification of the instruction syntax
// ============================================================================

/// `r` followed by decimal digits only (the digits may be absent).
pub open spec fn register_like(r: Seq<char>) -> bool {
    text::starts_with(r, "r"@) && text::all_digits(r.skip(1))
}

/// The operand that the text `s` denotes.
pub open spec fn operand_of(s: Seq<char>) -> OperandView {
    if s == "self.caller"@ {
        OperandView::SelfCaller
    } else if text::find_char(s, '.') is Some && register_like(
        s.take(text::find_char(s, '.')->0),
    ) {
        let d = text::find_char(s, '.')->0;
        OperandView::FieldAccess { register: s.take(d), field: s.skip(d + 1) }
    } else if register_like(s) && s.len() >= 2 {
        OperandView::Register(s)
    } else {
        OperandView::Literal(s)
    }
}

/// The words of `ts` joined with `sep` between them.
pub open spec fn join(ts: Seq<Seq<char>>, sep: Seq<char>) -> Seq<char>
    decreases ts.len(),
{
    if ts.len() == 0 {
        seq![]
    } else if ts.len() == 1 {
        ts[0]
    } else {
        join(ts.drop_last(), sep) + sep + ts.last()
    }
}

/// The first position of the word `w` in `ts`.
pub open spec fn word_pos(ts: Seq<Seq<char>>, w: Seq<char>) -> Option<int>
    decreases ts.len(),
{
    if ts.len() == 0 {
        None
    } else if ts.last() == w && word_pos(ts.drop_last(), w) is None {
        Some(ts.len() - 1)
    } else {
        word_pos(ts.drop_last(), w)
    }
}

/// `mapping[key]` split into mapping and key; without `[`, the key is empty.
pub open spec fn split_key(mk: Seq<char>) -> (Seq<char>, Seq<char>) {
    match text::find_char(mk, '[') {
        Some(b) => (mk.take(b), mk.subrange(b + 1, mk.len() - 1)),
        None => (mk, seq![]),
    }
}

/// `split_key` is defined on `mk`: a key is cut out of the text by byte
/// offsets, which needs the `[` not to be the last char and the last char
/// to be one byte long.
pub open spec fn split_key_ok(mk: Seq<char>) -> bool {
    match text::find_char(mk, '[') {
        Some(b) => b < mk.len() - 1 && (mk.last() as u32) < 128,
        None => true,
    }
}

pub open spec fn binary_parts(ts: Seq<Seq<char>>) -> Option<(OperandView, OperandView, Seq<char>)> {
    if ts.len() < 5 || ts[3] != "into"@ {
        None
    } else {
        Some((operand_of(ts[1]), operand_of(ts[2]), ts[4]))
    }
}

/// The instruction that the words `ts` (headed by `cast`) give; without a
/// word after `into` it is passed through as unknown.
pub open spec fn cast_of(ts: Seq<Seq<char>>) -> Option<InstructionView> {
    match (word_pos(ts, "into"@), word_pos(ts, "as"@)) {
        (Some(ip), Some(ap)) => if ip + 1 < ts.len() {
            Some(
                InstructionView::Cast {
                    fields: ts.subrange(1, ip).map_values(|w: Seq<char>| operand_of(w)),
                    dest: ts[ip + 1],
                    as_type: join(ts.skip(ap + 1), "."@),
                },
            )
        } else {
            Some(InstructionView::Unknown(join(ts, " "@)))
        },
        _ => None,
    }
}

/// The instruction that the words `ts` (headed by `async`) give; without a
/// function before `into` or a word after it, it is passed through as
/// unknown.
pub open spec fn async_of(ts: Seq<Seq<char>>) -> Option<InstructionView> {
    match word_pos(ts, "into"@) {
        Some(ip) => if 2 <= ip && ip + 1 < ts.len() {
            Some(InstructionView::Async { func: ts[1], args: ts.subrange(2, ip), dest: ts[ip + 1] })
        } else {
            Some(InstructionView::Unknown(join(ts, " "@)))
        },
        None => None,
    }
}

/// The instruction on a line of a function body (`None` for a blank line).
pub open spec fn instruction_of(line: Seq<char>) -> Option<InstructionView> {
    let t = cleaned(line);
    let ts = text::words(t);
    if t.len() == 0 || ts.len() == 0 {
        None
    } else {
        let h = ts[0];
        let unknown = InstructionView::Unknown(join(ts, " "@));
        if h == "add"@ || h == "sub"@ || h == "gt"@ {
            match binary_parts(ts) {
                None => Some(unknown),
                Some(p) => Some(
                    if h == "add"@ {
                        InstructionView::Add { lhs: p.0, rhs: p.1, dest: p.2 }
                    } else if h == "sub"@ {
                        InstructionView::Sub { lhs: p.0, rhs: p.1, dest: p.2 }
                    } else {
                        InstructionView::Gt { lhs: p.0, rhs: p.1, dest: p.2 }
                    },
                ),
            }
        } else if h == "cast"@ {
            cast_of(ts)
        } else if h == "get.or_use"@ {
            if ts.len() < 5 || ts[ts.len() - 2] != "into"@ || !split_key_ok(ts[1]) {
                Some(unknown)
            } else {
                let mk = split_key(ts[1]);
                Some(
                    InstructionView::GetOrUse {
                        mapping: mk.0,
                        key: mk.1,
                        default: ts[2],
                        dest: ts.last(),
                    },
                )
            }
        } else if h == "set"@ {
            if ts.len() < 4 || ts[2] != "into"@ || !split_key_ok(ts[3]) {
                Some(unknown)
            } else {
                let mk = split_key(ts[3]);
                Some(InstructionView::MappingSet { value: ts[1], mapping: mk.0, key: mk.1 })
            }
        } else if h == "async"@ {
            async_of(ts)
        } else if h == "assert.eq"@ || h == "assert.neq"@ {
            if ts.len() < 3 {
                Some(unknown)
            } else if h == "assert.eq"@ {
                Some(InstructionView::AssertEq { lhs: operand_of(ts[1]), rhs: operand_of(ts[2]) })
            } else {
                Some(InstructionView::AssertNeq { lhs: operand_of(ts[1]), rhs: operand_of(ts[2]) })
            }
        } else if h == "output"@ {
            if ts.len() < 4 || ts[2] != "as"@ {
                Some(unknown)
            } else {
                Some(InstructionView::Output { src: ts[1], ty: join(ts.skip(3), "."@) })
            }
        } else {
            Some(InstructionView::Unknown(t))
        }
    }
}

/// The first word of a line decides the instruction: `assert.eq` and
/// `assert.neq` with two operands give `AssertEq` and `AssertNeq` of them;
/// `add`, `sub` and `gt` with `into` as fourth word give `Add`, `Sub` and
/// `Gt` of the two operands into the fifth word; `output` with `as` as
/// third word gives `Output` of the second word, typed by the rest.
pub proof fn head_word_decides(line: Seq<char>)
    requires
        cleaned(line).len() > 0,
    ensures
        ({
            let ts = text::words(cleaned(line));
            &&& (ts.len() >= 3 && ts[0] == "assert.eq"@) ==> instruction_of(line) == Some(
                InstructionView::AssertEq { lhs: operand_of(ts[1]), rhs: operand_of(ts[2]) },
            )
            &&& (ts.len() >= 3 && ts[0] == "assert.neq"@) ==> instruction_of(line) == Some(
                InstructionView::AssertNeq { lhs: operand_of(ts[1]), rhs: operand_of(ts[2]) },
            )
            &&& (ts.len() >= 5 && ts[3] == "into"@ && ts[0] == "add"@) ==> instruction_of(line) == Some(
                InstructionView::Add { lhs: operand_of(ts[1]), rhs: operand_of(ts[2]), dest: ts[4] },
            )
            &&& (ts.len() >= 5 && ts[3] == "into"@ && ts[0] == "sub"@) ==> instruction_of(line) == Some(
                InstructionView::Sub { lhs: operand_of(ts[1]), rhs: operand_of(ts[2]), dest: ts[4] },
            )
            &&& (ts.len() >= 5 && ts[3] == "into"@ && ts[0] == "gt"@) ==> instruction_of(line) == Some(
                InstructionView::Gt { lhs: operand_of(ts[1]), rhs: operand_of(ts[2]), dest: ts[4] },
            )
            &&& (ts.len() >= 4 && ts[2] == "as"@ && ts[0] == "output"@) ==> instruction_of(line) == Some(
                InstructionView::Output { src: ts[1], ty: join(ts.skip(3), "."@) },
            )
        }),
{
    reveal_strlit("add");
    reveal_strlit("sub");
    reveal_strlit("gt");
    reveal_strlit("cast");
    reveal_strlit("get.or_use");
    reveal_strlit("set");
    reveal_strlit("async");
    reveal_strlit("assert.eq");
    reveal_strlit("assert.neq");
    reveal_strlit("output");
    reveal_strlit("into");
    reveal_strlit("as");
    assert("add"@.len() == 3 && "sub"@.len() == 3 && "gt"@.len() == 2 && "cast"@.len() == 4);
    assert("get.or_use"@.len() == 10 && "set"@.len() == 3 && "async"@.len() == 5 && "output"@.len() == 6);
    assert("assert.eq"@.len() == 9 && "assert.neq"@.len() == 10);
    assert("assert.neq"@[0] != "get.or_use"@[0]);
    assert("sub"@[0] != "add"@[0]);
    let t = cleaned(line);
    let ts = text::words(t);
    if ts.len() > 0 {
        let h = ts[0];
        if h == "assert.eq"@ || h == "assert.neq"@ || h == "output"@ {
            assert(h != "add"@ && h != "sub"@ && h != "gt"@ && h != "cast"@ && h != "get.or_use"@ && h
                != "set"@ && h != "async"@);
        }
        if h == "output"@ {
            assert(h != "assert.eq"@ && h != "assert.neq"@);
        }
        if h == "assert.neq"@ {
            assert(h != "assert.eq"@);
        }
        if h == "sub"@ {
            assert(h != "add"@);
        }
        if h == "gt"@ {
            assert(h != "add"@ && h != "sub"@);
        }
        if ts.len() >= 3 && h == "assert.eq"@ {
            assert(instruction_of(line) == Some(InstructionView::AssertEq { lhs: operand_of(ts[1]), rhs: operand_of(ts[2]) }));
        }
        if ts.len() >= 3 && h == "assert.neq"@ {
            assert(instruction_of(line) == Some(InstructionView::AssertNeq { lhs: operand_of(ts[1]), rhs: operand_of(ts[2]) }));
        }
        if ts.len() >= 5 && ts[3] == "into"@ && (h == "add"@ || h == "sub"@ || h == "gt"@) {
            assert(binary_parts(ts) == Some((operand_of(ts[1]), operand_of(ts[2]), ts[4])));
        }
        if ts.len() >= 4 && ts[2] == "as"@ && h == "output"@ {
            assert(instruction_of(line) == Some(InstructionView::Output { src: ts[1], ty: join(ts.skip(3), "."@) }));
        }
    }
}

// ============================================================================
// Parsing
// ============================================================================

pub open spec fn opt_view(r: Option<Instruction>) -> Option<InstructionView> {
    match r {
        Some(i) => Some(i@),
        None => None,
    }
}

/// The ranges `toks` of `v` spell the words `ts`.
pub open spec fn spells(v: Seq<char>, toks: Seq<(usize, usize)>, ts: Seq<Seq<char>>) -> bool {
    &&& toks.len() == ts.len()
    &&& forall|k: int|
        0 <= k < toks.len() ==> (#[trigger] toks[k]).0 <= toks[k].1 <= v.len() && v.subrange(
            toks[k].0 as int,
            toks[k].1 as int,
        ) == ts[k]
}

pub proof fn lemma_word_pos(ts: Seq<Seq<char>>, w: Seq<char>)
    ensures
        word_pos(ts, w) matches Some(i) ==> 0 <= i < ts.len() && ts[i] == w && forall|j: int|
            0 <= j < i ==> ts[j] != w,
        word_pos(ts, w) is None ==> forall|j: int| 0 <= j < ts.len() ==> ts[j] != w,
    decreases ts.len(),
{
    if ts.len() > 0 {
        lemma_word_pos(ts.drop_last(), w);
        assert(forall|j: int| 0 <= j < ts.len() - 1 ==> ts.drop_last()[j] == ts[j]);
    }
}

/// Whether `v[a..b]` consists of decimal digits only.
fn all_digits_at(v: &[char], a: usize, b: usize) -> (r: bool)
    requires
        a <= b <= v@.len(),
    ensures
        r == text::all_digits(v@.subrange(a as int, b as int)),
{
    let mut i = a;
    while i < b
        invariant
            a <= i <= b <= v@.len(),
            forall|j: int| a <= j < i ==> text::is_digit(v@[j]),
        decreases b - i,
    {
        if !('0' <= v[i] && v[i] <= '9') {
            assert(!text::is_digit(v@.subrange(a as int, b as int)[i - a]));
            return false;
        }
        i = i + 1;
    }
    assert forall|j: int| 0 <= j < b - a implies text::is_digit(
        #[trigger] v@.subrange(a as int, b as int)[j],
    ) by {
        assert(v@.subrange(a as int, b as int)[j] == v@[a + j]);
    }
    true
}

/// Whether `v[a..b]` is `r` followed by digits only.
fn register_like_at(v: &[char], a: usize, b: usize) -> (r: bool)
    requires
        a <= b <= v@.len(),
    ensures
        r == register_like(v@.subrange(a as int, b as int)),
{
    if a < b && v[a] == 'r' {
        let r = all_digits_at(v, a + 1, b);
        proof {
            reveal_strlit("r");
            assert(v@.subrange(a as int, b as int).subrange(0, 1) =~= "r"@);
            assert(v@.subrange(a as int, b as int).skip(1) =~= v@.subrange(a + 1, b as int));
        }
        r
    } else {
        proof {
            reveal_strlit("r");
            if a < b {
                assert(v@.subrange(a as int, b as int).subrange(0, 1)[0] != "r"@[0]);
            }
        }
        false
    }
}

/// The operand written in `v[a..b]`.
fn operand_at(src: &str, v: &[char], a: usize, b: usize) -> (r: Operand)
    requires
        v@ == src@,
        a <= b <= v@.len(),
    ensures
        r@ == operand_of(v@.subrange(a as int, b as int)),
{
    let ghost s = v@.subrange(a as int, b as int);
    if eq_at(v, a, b, &chars_of("self.caller")) {
        return Operand::SelfCaller;
    }
    let dot = ['.'];
    assert(dot@ =~= seq!['.']);
    let found = find_at(v, a, b, &dot);
    match found {
        Some(d) => {
            proof {
                text::lemma_find_from_bounds(s, seq!['.'], 0);
            }
            assert(s.take(d - a) =~= v@.subrange(a as int, d as int));
            assert(s.skip(d - a + 1) =~= v@.subrange(d + 1, b as int));
            if register_like_at(v, a, d) {
                return Operand::FieldAccess {
                    register: substring(src, a, d),
                    field: substring(src, d + 1, b),
                };
            }
        },
        None => {},
    }
    if register_like_at(v, a, b) && b - a >= 2 {
        Operand::Register(substring(src, a, b))
    } else {
        Operand::Literal(substring(src, a, b))
    }
}

/// The words `from..to` of `toks`, joined with `sep`.
fn join_at(
    src: &str,
    v: &[char],
    toks: &Vec<(usize, usize)>,
    Ghost(ts): Ghost<Seq<Seq<char>>>,
    from: usize,
    to: usize,
    sep: &str,
) -> (r: String)
    requires
        v@ == src@,
        spells(v@, toks@, ts),
        from <= to <= toks@.len(),
    ensures
        r@ == join(ts.subrange(from as int, to as int), sep@),
{
    let mut out = String::new();
    let mut i = from;
    assert(ts.subrange(from as int, from as int) =~= Seq::<Seq<char>>::empty());
    while i < to
        invariant
            v@ == src@,
            spells(v@, toks@, ts),
            from <= i <= to <= toks@.len(),
            out@ == join(ts.subrange(from as int, i as int), sep@),
        decreases to - i,
    {
        let (a, b) = toks[i];
        assert(toks@[i as int] == (a, b));
        let w = substring(src, a, b);
        let ghost sub = ts.subrange(from as int, i + 1);
        assert(sub.drop_last() =~= ts.subrange(from as int, i as int));
        if i > from {
            out = out.concat(sep).concat(w.as_str());
        } else {
            out = w;
        }
        i = i + 1;
    }
    out
}

/// Whether word `i` of `toks` is `w`.
fn word_is(v: &[char], toks: &Vec<(usize, usize)>, Ghost(ts): Ghost<Seq<Seq<char>>>, i: usize, w: &str) -> (r: bool)
    requires
        spells(v@, toks@, ts),
        i < toks@.len(),
    ensures
        r == (ts[i as int] == w@),
{
    let (a, b) = toks[i];
    assert(toks@[i as int] == (a, b));
    eq_at(v, a, b, &chars_of(w))
}

/// The first position of the word `w` in `toks`.
fn word_pos_at(v: &[char], toks: &Vec<(usize, usize)>, Ghost(ts): Ghost<Seq<Seq<char>>>, w: &str) -> (r: Option<usize>)
    requires
        spells(v@, toks@, ts),
    ensures
        match r {
            Some(i) => word_pos(ts, w@) == Some(i as int),
            None => word_pos(ts, w@) is None,
        },
{
    proof {
        lemma_word_pos(ts, w@);
    }
    let mut i: usize = 0;
    while i < toks.len()
        invariant
            spells(v@, toks@, ts),
            i <= toks@.len(),
            forall|j: int| 0 <= j < i ==> ts[j] != w@,
            word_pos(ts, w@) matches Some(k) ==> 0 <= k < ts.len() && ts[k] == w@ && forall|j: int|
                0 <= j < k ==> ts[j] != w@,
            word_pos(ts, w@) is None ==> forall|j: int| 0 <= j < ts.len() ==> ts[j] != w@,
        decreases toks@.len() - i,
    {
        if word_is(v, toks, Ghost(ts), i, w) {
            return Some(i);
        }
        i = i + 1;
    }
    None
}

/// `mapping[key]` in `v[a..b]` split into mapping and key.
fn split_key_at(src: &str, v: &[char], a: usize, b: usize) -> (r: (String, String))
    requires
        v@ == src@,
        a <= b <= v@.len(),
        split_key_ok(v@.subrange(a as int, b as int)),
    ensures
        (r.0@, r.1@) == split_key(v@.subrange(a as int, b as int)),
{
    let ghost s = v@.subrange(a as int, b as int);
    let open = ['['];
    assert(open@ =~= seq!['[']);
    match find_at(v, a, b, &open) {
        Some(p) => {
            proof {
                text::lemma_find_from_bounds(s, seq!['['], 0);
            }
            assert(s.take(p - a) =~= v@.subrange(a as int, p as int));
            assert(s.subrange(p - a + 1, s.len() - 1) =~= v@.subrange(p + 1, b - 1));
            (substring(src, a, p), substring(src, p + 1, b - 1))
        },
        None => (substring(src, a, b), String::new()),
    }
}

/// Parses one line of a function body (`None` for a blank line).
pub fn parse_instruction(line: &str) -> (r: Option<Instruction>)
    ensures
        opt_view(r) == instruction_of(line@),
{
    let v = chars_of(line);
    assert(v@.subrange(0, v@.len() as int) =~= v@);
    let (ca, cb) = cleaned_at(&v, 0, v.len());
    let ghost t = v@.subrange(ca as int, cb as int);
    if ca == cb {
        return None;
    }
    let toks = word_ranges(&v, ca, cb);
    let ghost ts = text::words(t);
    assert(spells(v@, toks@, ts));
    if toks.len() == 0 {
        return None;
    }
    let g = Ghost(ts);
    if word_is(&v, &toks, g, 0, "add") || word_is(&v, &toks, g, 0, "sub") || word_is(&v, &toks, g, 0, "gt") {
        assert(ts.subrange(0, ts.len() as int) =~= ts);
        if toks.len() < 5 || !word_is(&v, &toks, g, 3, "into") {
            return Some(Instruction::Unknown(join_at(line, &v, &toks, g, 0, toks.len(), " ")));
        }
        let (a1, b1) = toks[1];
        let (a2, b2) = toks[2];
        let (a4, b4) = toks[4];
        assert(toks@[1] == (a1, b1) && toks@[2] == (a2, b2) && toks@[4] == (a4, b4));
        let lhs = operand_at(line, &v, a1, b1);
        let rhs = operand_at(line, &v, a2, b2);
        let dest = substring(line, a4, b4);
        if word_is(&v, &toks, g, 0, "add") {
            Some(Instruction::Add { lhs, rhs, dest })
        } else if word_is(&v, &toks, g, 0, "sub") {
            Some(Instruction::Sub { lhs, rhs, dest })
        } else {
            Some(Instruction::Gt { lhs, rhs, dest })
        }
    } else if word_is(&v, &toks, g, 0, "cast") {
        let ip = match word_pos_at(&v, &toks, g, "into") {
            Some(i) => i,
            None => {
                return None;
            },
        };
        let ap = match word_pos_at(&v, &toks, g, "as") {
            Some(i) => i,
            None => {
                return None;
            },
        };
        proof {
            lemma_word_pos(ts, "into"@);
            lemma_word_pos(ts, "as"@);
            reveal_strlit("into");
            reveal_strlit("cast");
        }
        assert(ip >= 1) by {
            if ip == 0 {
                assert(ts[0] == "cast"@);
                assert(ts[0] == "into"@);
                assert("cast"@[0] != "into"@[0]);
            }
        }
        if ip + 1 >= toks.len() {
            assert(ts.subrange(0, ts.len() as int) =~= ts);
            return Some(Instruction::Unknown(join_at(line, &v, &toks, g, 0, toks.len(), " ")));
        }
        let mut fields: Vec<Operand> = Vec::new();
        let mut k: usize = 1;
        while k < ip
            invariant
                v@ == line@,
                spells(v@, toks@, ts),
                1 <= k <= ip,
                ip + 1 < toks@.len(),
                fields@.map_values(|o: Operand| o@) == ts.subrange(1, k as int).map_values(
                    |w: Seq<char>| operand_of(w),
                ),
            decreases ip - k,
        {
            let (a, b) = toks[k];
            assert(toks@[k as int] == (a, b));
            let o = operand_at(line, &v, a, b);
            let ghost before = fields@.map_values(|o: Operand| o@);
            fields.push(o);
            assert(fields@.map_values(|o: Operand| o@) =~= before.push(o@));
            assert(ts.subrange(1, k + 1).map_values(|w: Seq<char>| operand_of(w)) =~= ts.subrange(
                1,
                k as int,
            ).map_values(|w: Seq<char>| operand_of(w)).push(operand_of(ts[k as int])));
            k = k + 1;
        }
        let (da, db) = toks[ip + 1];
        assert(toks@[ip + 1] == (da, db));
        let dest = substring(line, da, db);
        let as_type = join_at(line, &v, &toks, g, ap + 1, toks.len(), ".");
        assert(ts.subrange(ap + 1, ts.len() as int) =~= ts.skip(ap + 1));
        Some(Instruction::Cast { fields, dest, as_type })
    } else if word_is(&v, &toks, g, 0, "get.or_use") {
        let n = toks.len();
        if n < 5 || !word_is(&v, &toks, g, n - 2, "into") {
            assert(ts.subrange(0, ts.len() as int) =~= ts);
            return Some(Instruction::Unknown(join_at(line, &v, &toks, g, 0, n, " ")));
        }
        let (a1, b1) = toks[1];
        let (a2, b2) = toks[2];
        let (al, bl) = toks[n - 1];
        assert(toks@[1] == (a1, b1) && toks@[2] == (a2, b2) && toks@[n - 1] == (al, bl));
        if !split_key_ok_at(&v, a1, b1) {
            assert(ts.subrange(0, ts.len() as int) =~= ts);
            return Some(Instruction::Unknown(join_at(line, &v, &toks, g, 0, n, " ")));
        }
        let (mapping, key) = split_key_at(line, &v, a1, b1);
        Some(
            Instruction::GetOrUse {
                mapping,
                key,
                default: substring(line, a2, b2),
                dest: substring(line, al, bl),
            },
        )
    } else if word_is(&v, &toks, g, 0, "set") {
        let n = toks.len();
        if n < 4 || !word_is(&v, &toks, g, 2, "into") {
            assert(ts.subrange(0, ts.len() as int) =~= ts);
            return Some(Instruction::Unknown(join_at(line, &v, &toks, g, 0, n, " ")));
        }
        let (a1, b1) = toks[1];
        let (a3, b3) = toks[3];
        assert(toks@[1] == (a1, b1) && toks@[3] == (a3, b3));
        if !split_key_ok_at(&v, a3, b3) {
            assert(ts.subrange(0, ts.len() as int) =~= ts);
            return Some(Instruction::Unknown(join_at(line, &v, &toks, g, 0, n, " ")));
        }
        let (mapping, key) = split_key_at(line, &v, a3, b3);
        Some(Instruction::MappingSet { value: substring(line, a1, b1), mapping, key })
    } else if word_is(&v, &toks, g, 0, "async") {
        let ip = match word_pos_at(&v, &toks, g, "into") {
            Some(i) => i,
            None => {
                return None;
            },
        };
        proof {
            lemma_word_pos(ts, "into"@);
        }
        if ip < 2 || ip + 1 >= toks.len() {
            assert(ts.subrange(0, ts.len() as int) =~= ts);
            return Some(Instruction::Unknown(join_at(line, &v, &toks, g, 0, toks.len(), " ")));
        }
        let (a1, b1) = toks[1];
        assert(toks@[1] == (a1, b1));
        let func = substring(line, a1, b1);
        let mut args: Vec<String> = Vec::new();
        let mut k: usize = 2;
        while k < ip
            invariant
                v@ == line@,
                spells(v@, toks@, ts),
                2 <= k <= ip,
                ip + 1 < toks@.len(),
                args@.map_values(|a: String| a@) == ts.subrange(2, k as int),
            decreases ip - k,
        {
            let (a, b) = toks[k];
            assert(toks@[k as int] == (a, b));
            let w = substring(line, a, b);
            let ghost before = args@.map_values(|a: String| a@);
            args.push(w);
            assert(args@.map_values(|a: String| a@) =~= before.push(ts[k as int]));
            assert(ts.subrange(2, k + 1) =~= ts.subrange(2, k as int).push(ts[k as int]));
            k = k + 1;
        }
        let (da, db) = toks[ip + 1];
        assert(toks@[ip + 1] == (da, db));
        Some(Instruction::Async { func, args, dest: substring(line, da, db) })
    } else if word_is(&v, &toks, g, 0, "assert.eq") || word_is(&v, &toks, g, 0, "assert.neq") {
        if toks.len() < 3 {
            assert(ts.subrange(0, ts.len() as int) =~= ts);
            return Some(Instruction::Unknown(join_at(line, &v, &toks, g, 0, toks.len(), " ")));
        }
        let (a1, b1) = toks[1];
        let (a2, b2) = toks[2];
        assert(toks@[1] == (a1, b1) && toks@[2] == (a2, b2));
        let lhs = operand_at(line, &v, a1, b1);
        let rhs = operand_at(line, &v, a2, b2);
        if word_is(&v, &toks, g, 0, "assert.eq") {
            Some(Instruction::AssertEq { lhs, rhs })
        } else {
            Some(Instruction::AssertNeq { lhs, rhs })
        }
    } else if word_is(&v, &toks, g, 0, "output") {
        if toks.len() < 4 || !word_is(&v, &toks, g, 2, "as") {
            assert(ts.subrange(0, ts.len() as int) =~= ts);
            return Some(Instruction::Unknown(join_at(line, &v, &toks, g, 0, toks.len(), " ")));
        }
        let (a1, b1) = toks[1];
        assert(toks@[1] == (a1, b1));
        let ty = join_at(line, &v, &toks, g, 3, toks.len(), ".");
        assert(ts.subrange(3, ts.len() as int) =~= ts.skip(3));
        Some(Instruction::Output { src: substring(line, a1, b1), ty })
    } else {
        Some(Instruction::Unknown(substring(line, ca, cb)))
    }
}

/// The strings of `items` joined with `sep` between them (`[String]::join`).
pub fn join_strings(items: &[String], sep: &str) -> (r: String)
    ensures
        r@ == join(items@.map_values(|s: String| s@), sep@),
{
    let ghost iv = items@.map_values(|s: String| s@);
    let mut out = String::new();
    let mut i: usize = 0;
    assert(iv.take(0) =~= Seq::<Seq<char>>::empty());
    while i < items.len()
        invariant
            i <= items@.len(),
            iv == items@.map_values(|s: String| s@),
            out@ == join(iv.take(i as int), sep@),
        decreases items@.len() - i,
    {
        assert(iv.take(i + 1).drop_last() =~= iv.take(i as int));
        assert(iv.take(i + 1).last() == items@[i as int]@);
        if i > 0 {
            out = out.concat(sep).concat(items[i].as_str());
        } else {
            out = items[i].clone();
        }
        i = i + 1;
    }
    assert(iv.take(items@.len() as int) =~= iv);
    out
}

/// Whether `split_key` is defined on `v[a..b]`.
fn split_key_ok_at(v: &[char], a: usize, b: usize) -> (r: bool)
    requires
        a <= b <= v@.len(),
    ensures
        r == split_key_ok(v@.subrange(a as int, b as int)),
{
    let ghost s = v@.subrange(a as int, b as int);
    let open = ['['];
    assert(open@ =~= seq!['[']);
    match find_at(v, a, b, &open) {
        Some(p) => {
            proof {
                text::lemma_find_from_bounds(s, seq!['['], 0);
            }
            assert(s.last() == v@[b - 1]);
            p - a < (b - a) - 1 && (v[b - 1] as u32) < 128
        },
        None => true,
    }
}

/// Parses an operand: `self.caller`, a field access `r0.amount`, a register
/// `r0`, or else a literal.
pub fn parse_operand(s: &str) -> (r: Operand)
    ensures
        r@ == operand_of(s@),
{
    let v = chars_of(s);
    assert(v@.subrange(0, v@.len() as int) =~= v@);
    operand_at(s, &v, 0, v.len())
}

} // verus!
