//! Parser for compiled Aleo programs (`.aleo` files).
//!
//! The format is line oriented: every statement stands on a line of its own,
//! a block starts with a header line such as `record token:` or
//! `function mint_private:`, and the fields and parameters of a block are
//! written `<name> as <type>.<visibility>`.
use vstd::prelude::*;
use crate::text;
use crate::text::{
    chars_of, eq_at, find_at, line_ranges, rfind_char_at, starts_with_at, substring, trim_at,
    trim_end_matches_at, trim_start_matches_at,
};

verus! {

// ============================================================================
// Data
// ============================================================================

/// A parsed Aleo program.
#[derive(Debug, Clone, PartialEq)]
pub struct Contract {
    /// Program name, such as `token.aleo` (from `program token.aleo;`).
    pub program: String,
    pub records: Vec<RecordDef>,
    pub mappings: Vec<MappingDef>,
    pub functions: Vec<FunctionDef>,
    pub finalizes: Vec<FunctionDef>,
}

/// A record definition, such as
/// ```text
/// record token:
///     owner as address.private;
///     amount as u64.private;
/// ```
#[derive(Debug, Clone, PartialEq)]
pub struct RecordDef {
    pub name: String,
    pub fields: Vec<RecordField>,
}

#[derive(Debug, Clone, PartialEq)]
pub struct RecordField {
    pub name: String,
    pub ty: String,
    pub visibility: Visibility,
}

/// A mapping definition (public on-chain state).
#[derive(Debug, Clone, PartialEq)]
pub struct MappingDef {
    pub name: String,
    pub key_type: String,
    pub value_type: String,
}

/// A `function` or `finalize` definition.
#[derive(Debug, Clone, PartialEq)]
pub struct FunctionDef {
    pub name: String,
    pub inputs: Vec<Param>,
    pub outputs: Vec<Param>,
}

#[derive(Debug, Clone, PartialEq)]
pub struct Param {
    /// Register name, such as `r0`.
    pub register: String,
    /// Type, such as `address`, `u64` or `token.record`.
    pub ty: String,
    pub visibility: Visibility,
}

/// Visibility of a field or parameter.
#[derive(Debug, Clone, Copy, PartialEq, Eq, Structural)]
pub enum Visibility {
    Public,
    Private,
    Constant,
    /// No visibility suffix (such as `token.record` or `xxx.future`).
    Unspecified,
}

#[derive(Debug)]
pub enum ParseError {
    Syntax { line: usize, msg: String },
    NoProgram,
}

// ============================================================================
// Mathematical views
// ============================================================================

#[verifier::ext_equal]
pub struct FieldView {
    pub name: Seq<char>,
    pub ty: Seq<char>,
    pub visibility: Visibility,
}

#[verifier::ext_equal]
pub struct ParamView {
    pub register: Seq<char>,
    pub ty: Seq<char>,
    pub visibility: Visibility,
}

#[verifier::ext_equal]
pub struct RecordView {
    pub name: Seq<char>,
    pub fields: Seq<FieldView>,
}

#[verifier::ext_equal]
pub struct MappingView {
    pub name: Seq<char>,
    pub key_type: Seq<char>,
    pub value_type: Seq<char>,
}

#[verifier::ext_equal]
pub struct FunctionView {
    pub name: Seq<char>,
    pub inputs: Seq<ParamView>,
    pub outputs: Seq<ParamView>,
}

#[verifier::ext_equal]
pub struct ContractView {
    pub program: Seq<char>,
    pub records: Seq<RecordView>,
    pub mappings: Seq<MappingView>,
    pub functions: Seq<FunctionView>,
    pub finalizes: Seq<FunctionView>,
}

pub enum ParseErrorView {
    Syntax { line: int, msg: Seq<char> },
    NoProgram,
}

impl View for RecordField {
    type V = FieldView;

    open spec fn view(&self) -> FieldView {
        FieldView { name: self.name@, ty: self.ty@, visibility: self.visibility }
    }
}

impl View for Param {
    type V = ParamView;

    open spec fn view(&self) -> ParamView {
        ParamView { register: self.register@, ty: self.ty@, visibility: self.visibility }
    }
}

impl View for RecordDef {
    type V = RecordView;

    open spec fn view(&self) -> RecordView {
        RecordView { name: self.name@, fields: self.fields@.map_values(|f: RecordField| f@) }
    }
}

impl View for MappingDef {
    type V = MappingView;

    open spec fn view(&self) -> MappingView {
        MappingView {
            name: self.name@,
            key_type: self.key_type@,
            value_type: self.value_type@,
        }
    }
}

impl View for FunctionDef {
    type V = FunctionView;

    open spec fn view(&self) -> FunctionView {
        FunctionView {
            name: self.name@,
            inputs: self.inputs@.map_values(|p: Param| p@),
            outputs: self.outputs@.map_values(|p: Param| p@),
        }
    }
}

impl View for Contract {
    type V = ContractView;

    open spec fn view(&self) -> ContractView {
        ContractView {
            program: self.program@,
            records: self.records@.map_values(|r: RecordDef| r@),
            mappings: self.mappings@.map_values(|m: MappingDef| m@),
            functions: self.functions@.map_values(|f: FunctionDef| f@),
            finalizes: self.finalizes@.map_values(|f: FunctionDef| f@),
        }
    }
}

impl View for ParseError {
    type V = ParseErrorView;

    open spec fn view(&self) -> ParseErrorView {
        match self {
            ParseError::Syntax { line, msg } => ParseErrorView::Syntax { line: *line as int, msg: msg@ },
            ParseError::NoProgram => ParseErrorView::NoProgram,
        }
    }
}

/// The view of a parse result.
pub open spec fn result_view<T: View>(r: Result<T, ParseError>) -> Result<T::V, ParseErrorView> {
    match r {
        Ok(x) => Ok(x@),
        Err(e) => Err(e@),
    }
}

// ============================================================================
// Specification of the format
// ============================================================================

/// A line that starts a block.
pub open spec fn is_header(t: Seq<char>) -> bool {
    ||| text::starts_with(t, "record "@)
    ||| text::starts_with(t, "mapping "@)
    ||| text::starts_with(t, "function "@)
    ||| text::starts_with(t, "finalize "@)
    ||| text::starts_with(t, "constructor"@)
    ||| text::starts_with(t, "interface "@)
}

/// A line kept for parsing: not empty and not a `//` comment.
pub open spec fn is_kept(t: Seq<char>) -> bool {
    t.len() > 0 && !text::starts_with(t, "//"@)
}

/// The kept lines of `ls`, trimmed and numbered from `first`.
pub open spec fn numbered_lines(ls: Seq<Seq<char>>, first: int) -> Seq<(int, Seq<char>)>
    decreases ls.len(),
{
    if ls.len() == 0 {
        seq![]
    } else {
        let t = text::trim(ls[0]);
        let rest = numbered_lines(ls.drop_first(), first + 1);
        if is_kept(t) {
            seq![(first, t)] + rest
        } else {
            rest
        }
    }
}

/// The lines a parse reads: trimmed, numbered from 1, without blank lines and comments.
pub open spec fn source_lines(s: Seq<char>) -> Seq<(int, Seq<char>)> {
    numbered_lines(text::lines(s), 1)
}

/// A line with its trailing `;`s removed, then trimmed.
pub open spec fn cleaned(t: Seq<char>) -> Seq<char> {
    text::trim(text::trim_end_matches(t, ";"@))
}

/// Splits a type annotation into type and visibility (`address.private`).
pub open spec fn type_visibility(s: Seq<char>) -> (Seq<char>, Visibility) {
    match text::rfind_char(s, '.') {
        Some(p) => {
            let vis = s.skip(p + 1);
            if vis == "public"@ {
                (s.take(p), Visibility::Public)
            } else if vis == "private"@ {
                (s.take(p), Visibility::Private)
            } else if vis == "constant"@ {
                (s.take(p), Visibility::Constant)
            } else {
                (s, Visibility::Unspecified)
            }
        },
        None => (s, Visibility::Unspecified),
    }
}

/// A type annotation as it is written: the type, then `.visibility` unless it is `None`.
pub open spec fn type_vis_text(ty: Seq<char>, vis: Visibility) -> Seq<char> {
    match vis {
        Visibility::Public => ty + "."@ + "public"@,
        Visibility::Private => ty + "."@ + "private"@,
        Visibility::Constant => ty + "."@ + "constant"@,
        Visibility::Unspecified => ty,
    }
}

/// A record field line `name as type.visibility`, numbered `no`.
pub open spec fn field_line(t: Seq<char>, no: int) -> Result<FieldView, ParseErrorView> {
    let c = cleaned(t);
    match text::find(c, " as "@) {
        Some(p) => {
            let tv = type_visibility(text::trim(c.skip(p + 4)));
            Ok(FieldView { name: text::trim(c.take(p)), ty: tv.0, visibility: tv.1 })
        },
        None => Err(
            ParseErrorView::Syntax {
                line: no,
                msg: "expected 'name as type.visibility', got: "@ + t,
            },
        ),
    }
}

/// A parameter `register as type.visibility` (what follows `input ` or `output `).
pub open spec fn param_text(rest: Seq<char>) -> Option<ParamView> {
    match text::find(rest, " as "@) {
        Some(p) => {
            let tv = type_visibility(text::trim(rest.skip(p + 4)));
            Some(ParamView { register: text::trim(rest.take(p)), ty: tv.0, visibility: tv.1 })
        },
        None => None,
    }
}

/// The number of consecutive lines from `i` on that are field lines of a record or mapping.
pub open spec fn field_run(ls: Seq<(int, Seq<char>)>, i: int) -> nat
    decreases ls.len() - i,
{
    if 0 <= i < ls.len() && !is_header(ls[i].1) && text::contains(ls[i].1, " as "@) {
        1 + field_run(ls, i + 1)
    } else {
        0
    }
}

/// The number of consecutive lines from `i` on that are not block headers.
pub open spec fn body_run(ls: Seq<(int, Seq<char>)>, i: int) -> nat
    decreases ls.len() - i,
{
    if 0 <= i < ls.len() && !is_header(ls[i].1) {
        1 + body_run(ls, i + 1)
    } else {
        0
    }
}

pub proof fn lemma_run_bounds(ls: Seq<(int, Seq<char>)>, j: int)
    requires
        0 <= j <= ls.len(),
    ensures
        j + field_run(ls, j) <= ls.len(),
        j + body_run(ls, j) <= ls.len(),
    decreases ls.len() - j,
{
    if j < ls.len() {
        lemma_run_bounds(ls, j + 1);
    }
}

/// Once a field line fails, every longer run of lines fails with the same error.
pub proof fn lemma_record_fields_err(ls: Seq<(int, Seq<char>)>, i: int, m: nat, n: nat)
    requires
        m <= n,
        record_fields(ls, i, m) is Err,
    ensures
        record_fields(ls, i, n) == record_fields(ls, i, m),
    decreases n - m,
{
    if m < n {
        lemma_record_fields_err(ls, i, m, (n - 1) as nat);
    }
}

/// The fields of the `n` lines from `i` on, or the first error among them.
pub open spec fn record_fields(ls: Seq<(int, Seq<char>)>, i: int, n: nat) -> Result<
    Seq<FieldView>,
    ParseErrorView,
>
    decreases n,
{
    if n == 0 {
        Ok(seq![])
    } else {
        match record_fields(ls, i, (n - 1) as nat) {
            Err(e) => Err(e),
            Ok(fs) => match field_line(ls[i + n - 1].1, ls[i + n - 1].0) {
                Err(e) => Err(e),
                Ok(f) => Ok(fs.push(f)),
            },
        }
    }
}

/// The name in a block header: `kind` removed from the front, `:` from the back.
pub open spec fn header_name(t: Seq<char>, kind: Seq<char>) -> Seq<char> {
    text::trim(text::trim_end_matches(text::trim(text::trim_start_matches(t, kind)), ":"@))
}

/// The record whose header is line `i`.
pub open spec fn record_at(ls: Seq<(int, Seq<char>)>, i: int) -> Result<RecordView, ParseErrorView> {
    let name = text::trim(text::trim_end_matches(text::trim_start_matches(ls[i].1, "record "@), ":"@));
    if name.len() == 0 {
        Err(ParseErrorView::Syntax { line: ls[i].0, msg: "record name is empty"@ })
    } else {
        match record_fields(ls, i + 1, field_run(ls, i + 1)) {
            Err(e) => Err(e),
            Ok(fs) => Ok(RecordView { name, fields: fs }),
        }
    }
}

/// Key and value types after the `n` lines from `i` on (a later line overrides an earlier one).
pub open spec fn mapping_types(ls: Seq<(int, Seq<char>)>, i: int, n: nat) -> (Seq<char>, Seq<char>)
    decreases n,
{
    if n == 0 {
        (seq![], seq![])
    } else {
        let kv = mapping_types(ls, i, (n - 1) as nat);
        let c = cleaned(ls[i + n - 1].1);
        if text::starts_with(c, "key as "@) {
            (text::trim(c.skip(7)), kv.1)
        } else if text::starts_with(c, "value as "@) {
            (kv.0, text::trim(c.skip(9)))
        } else {
            kv
        }
    }
}

/// The mapping whose header is line `i`.
pub open spec fn mapping_at(ls: Seq<(int, Seq<char>)>, i: int) -> Result<MappingView, ParseErrorView> {
    let name = text::trim(text::trim_end_matches(text::trim_start_matches(ls[i].1, "mapping "@), ":"@));
    if name.len() == 0 {
        Err(ParseErrorView::Syntax { line: ls[i].0, msg: "mapping name is empty"@ })
    } else {
        let kv = mapping_types(ls, i + 1, field_run(ls, i + 1));
        Ok(MappingView { name, key_type: kv.0, value_type: kv.1 })
    }
}

/// Inputs and outputs declared in the `n` body lines from `i` on.
pub open spec fn function_params(ls: Seq<(int, Seq<char>)>, i: int, n: nat) -> (
    Seq<ParamView>,
    Seq<ParamView>,
)
    decreases n,
{
    if n == 0 {
        (seq![], seq![])
    } else {
        let io = function_params(ls, i, (n - 1) as nat);
        let c = cleaned(ls[i + n - 1].1);
        if text::starts_with(c, "input "@) {
            match param_text(c.skip(6)) {
                Some(p) => (io.0.push(p), io.1),
                None => io,
            }
        } else if text::starts_with(c, "output "@) {
            match param_text(c.skip(7)) {
                Some(p) => (io.0, io.1.push(p)),
                None => io,
            }
        } else {
            io
        }
    }
}

/// The function or finalize block (by `kind`) whose header is line `i`.
pub open spec fn function_at(ls: Seq<(int, Seq<char>)>, i: int, kind: Seq<char>) -> Result<
    FunctionView,
    ParseErrorView,
> {
    let name = header_name(ls[i].1, kind);
    if name.len() == 0 {
        Err(ParseErrorView::Syntax { line: ls[i].0, msg: kind + " name is empty"@ })
    } else {
        let io = function_params(ls, i + 1, body_run(ls, i + 1));
        Ok(FunctionView { name, inputs: io.0, outputs: io.1 })
    }
}

/// The contract `c` extended with the blocks from line `i` on.
pub open spec fn parse_blocks(ls: Seq<(int, Seq<char>)>, i: int, c: ContractView) -> Result<
    ContractView,
    ParseErrorView,
>
    decreases ls.len() - i,
{
    if i < 0 || i >= ls.len() {
        Ok(c)
    } else {
        proof {
            lemma_run_bounds(ls, i + 1);
        }
        let t = ls[i].1;
        if text::starts_with(t, "record "@) {
            match record_at(ls, i) {
                Err(e) => Err(e),
                Ok(r) => parse_blocks(
                    ls,
                    i + 1 + field_run(ls, i + 1),
                    ContractView { records: c.records.push(r), ..c },
                ),
            }
        } else if text::starts_with(t, "mapping "@) {
            match mapping_at(ls, i) {
                Err(e) => Err(e),
                Ok(m) => parse_blocks(
                    ls,
                    i + 1 + field_run(ls, i + 1),
                    ContractView { mappings: c.mappings.push(m), ..c },
                ),
            }
        } else if text::starts_with(t, "function "@) {
            match function_at(ls, i, "function"@) {
                Err(e) => Err(e),
                Ok(f) => parse_blocks(
                    ls,
                    i + 1 + body_run(ls, i + 1),
                    ContractView { functions: c.functions.push(f), ..c },
                ),
            }
        } else if text::starts_with(t, "finalize "@) {
            match function_at(ls, i, "finalize"@) {
                Err(e) => Err(e),
                Ok(f) => parse_blocks(
                    ls,
                    i + 1 + body_run(ls, i + 1),
                    ContractView { finalizes: c.finalizes.push(f), ..c },
                ),
            }
        } else if text::starts_with(t, "constructor"@) || text::starts_with(t, "interface "@) {
            parse_blocks(ls, i + 1 + body_run(ls, i + 1), c)
        } else {
            parse_blocks(ls, i + 1, c)
        }
    }
}

/// The program name in the declaration `program xxx.aleo;`.
pub open spec fn program_name(t: Seq<char>) -> Seq<char> {
    text::trim(text::trim_end_matches(text::trim_start_matches(t, "program "@), ";"@))
}

/// A contract with the given name and no blocks.
pub open spec fn empty_contract(program: Seq<char>) -> ContractView {
    ContractView {
        program,
        records: seq![],
        mappings: seq![],
        functions: seq![],
        finalizes: seq![],
    }
}

/// The result of parsing the (numbered, kept) lines `ls`.
pub open spec fn parse_lines(ls: Seq<(int, Seq<char>)>) -> Result<ContractView, ParseErrorView> {
    if ls.len() == 0 {
        Err(ParseErrorView::NoProgram)
    } else if !text::starts_with(ls[0].1, "program "@) {
        Err(
            ParseErrorView::Syntax {
                line: ls[0].0,
                msg: "expected 'program xxx.aleo;', got: "@ + ls[0].1,
            },
        )
    } else {
        parse_blocks(ls, 1, empty_contract(program_name(ls[0].1)))
    }
}

/// The result of parsing the text `s` of an `.aleo` file.
pub open spec fn parse_spec(s: Seq<char>) -> Result<ContractView, ParseErrorView> {
    parse_lines(source_lines(s))
}


// ============================================================================
// Entry point
// ============================================================================

/// Parses the text of an `.aleo` file.
pub fn parse(content: &str) -> (r: Result<Contract, ParseError>)
    ensures
        result_view(r) == parse_spec(content@),
{
    let mut parser = Parser::new(content);
    parser.parse()
}

// ============================================================================
// Helpers on ranges of the source text
// ============================================================================

/// Splits the type annotation in `v[lo..hi]` into type and visibility.
fn type_visibility_at(src: &str, v: &[char], lo: usize, hi: usize) -> (r: (String, Visibility))
    requires
        v@ == src@,
        lo <= hi <= v@.len(),
    ensures
        (r.0@, r.1) == type_visibility(v@.subrange(lo as int, hi as int)),
{
    let ghost s = v@.subrange(lo as int, hi as int);
    match rfind_char_at(v, lo, hi, '.') {
        Some(p) => {
            let public = chars_of("public");
            let private = chars_of("private");
            let constant = chars_of("constant");
            assert(s.skip(p - lo + 1) =~= v@.subrange(p + 1, hi as int));
            assert(s.take(p - lo) =~= v@.subrange(lo as int, p as int));
            if eq_at(v, p + 1, hi, &public) {
                (substring(src, lo, p), Visibility::Public)
            } else if eq_at(v, p + 1, hi, &private) {
                (substring(src, lo, p), Visibility::Private)
            } else if eq_at(v, p + 1, hi, &constant) {
                (substring(src, lo, p), Visibility::Constant)
            } else {
                (substring(src, lo, hi), Visibility::Unspecified)
            }
        },
        None => (substring(src, lo, hi), Visibility::Unspecified),
    }
}

/// `"address.private"` gives `("address", Private)`; `"token.record"` gives
/// `("token.record", None)`.
pub fn parse_type_visibility(s: &str) -> (r: (String, Visibility))
    ensures
        (r.0@, r.1) == type_visibility(s@),
{
    let v = chars_of(s);
    assert(v@.subrange(0, v@.len() as int) =~= v@);
    type_visibility_at(s, &v, 0, v.len())
}

/// A type annotation as it is written (no suffix for `Visibility::Unspecified`).
pub fn format_type_vis(ty: &str, vis: Visibility) -> (r: String)
    ensures
        r@ == type_vis_text(ty@, vis),
{
    match vis {
        Visibility::Public => String::from_str(ty).concat(".").concat("public"),
        Visibility::Private => String::from_str(ty).concat(".").concat("private"),
        Visibility::Constant => String::from_str(ty).concat(".").concat("constant"),
        Visibility::Unspecified => String::from_str(ty),
    }
}

/// Whether `v[lo..hi]` is a block header.
fn is_header_at(v: &[char], lo: usize, hi: usize) -> (r: bool)
    requires
        lo <= hi <= v@.len(),
    ensures
        r == is_header(v@.subrange(lo as int, hi as int)),
{
    starts_with_at(v, lo, hi, &chars_of("record ")) || starts_with_at(
        v,
        lo,
        hi,
        &chars_of("mapping "),
    ) || starts_with_at(v, lo, hi, &chars_of("function ")) || starts_with_at(
        v,
        lo,
        hi,
        &chars_of("finalize "),
    ) || starts_with_at(v, lo, hi, &chars_of("constructor")) || starts_with_at(
        v,
        lo,
        hi,
        &chars_of("interface "),
    )
}

/// The range of the cleaned text of `v[lo..hi]`: trailing `;`s removed, then trimmed.
pub(crate) fn cleaned_at(v: &[char], lo: usize, hi: usize) -> (r: (usize, usize))
    requires
        lo <= hi <= v@.len(),
    ensures
        lo <= r.0 <= r.1 <= hi,
        v@.subrange(r.0 as int, r.1 as int) == cleaned(v@.subrange(lo as int, hi as int)),
{
    let e = trim_end_matches_at(v, lo, hi, &chars_of(";"));
    trim_at(v, lo, e)
}

proof fn lemma_sub_sub(s: Seq<char>, lo: int, hi: int, a: int, b: int)
    requires
        0 <= lo <= a <= b <= hi <= s.len(),
    ensures
        s.subrange(lo, hi).subrange(a - lo, b - lo) == s.subrange(a, b),
        s.subrange(lo, hi).take(a - lo) == s.subrange(lo, a),
        s.subrange(lo, hi).skip(a - lo) == s.subrange(a, hi),
{
    assert(s.subrange(lo, hi).subrange(a - lo, b - lo) =~= s.subrange(a, b));
    assert(s.subrange(lo, hi).take(a - lo) =~= s.subrange(lo, a));
    assert(s.subrange(lo, hi).skip(a - lo) =~= s.subrange(a, hi));
}

/// A parameter `register as type.visibility` written in `v[lo..hi]`.
fn param_at(src: &str, v: &[char], lo: usize, hi: usize) -> (r: Option<Param>)
    requires
        v@ == src@,
        lo <= hi <= v@.len(),
    ensures
        match r {
            Some(p) => param_text(v@.subrange(lo as int, hi as int)) == Some(p@),
            None => param_text(v@.subrange(lo as int, hi as int)) is None,
        },
{
    let sep = chars_of(" as ");
    proof {
        reveal_strlit(" as ");
    }
    match find_at(v, lo, hi, &sep) {
        Some(p) => {
            proof {
                text::lemma_find_from_bounds(v@.subrange(lo as int, hi as int), sep@, 0);
                lemma_sub_sub(v@, lo as int, hi as int, p as int, p + 4);
                lemma_sub_sub(v@, lo as int, hi as int, p + 4, hi as int);
            }
            let (ra, rb) = trim_at(v, lo, p);
            let (ta, tb) = trim_at(v, p + 4, hi);
            let (ty, visibility) = type_visibility_at(src, v, ta, tb);
            Some(Param { register: substring(src, ra, rb), ty, visibility })
        },
        None => None,
    }
}

// ============================================================================
// The parser
// ============================================================================

/// A kept source line: its number and the char range of its trimmed text.
#[derive(Clone, Copy)]
struct Line {
    no: usize,
    lo: usize,
    hi: usize,
}

/// Line-by-line parser over the kept lines of a text.
pub struct Parser<'a> {
    src: &'a str,
    chars: Vec<char>,
    lines: Vec<Line>,
    pos: usize,
}

impl<'a> Parser<'a> {
    /// The kept lines, numbered, as the parse sees them.
    pub closed spec fn lines_view(&self) -> Seq<(int, Seq<char>)> {
        Seq::new(
            self.lines@.len(),
            |k: int|
                (
                    self.lines@[k].no as int,
                    self.chars@.subrange(self.lines@[k].lo as int, self.lines@[k].hi as int),
                ),
        )
    }

    pub closed spec fn position(&self) -> int {
        self.pos as int
    }

    pub closed spec fn wf(&self) -> bool {
        &&& self.chars@ == self.src@
        &&& self.pos <= self.lines@.len()
        &&& forall|k: int|
            0 <= k < self.lines@.len() ==> (#[trigger] self.lines@[k]).lo <= self.lines@[k].hi
                <= self.chars@.len()
    }

    fn new(content: &'a str) -> (p: Self)
        ensures
            p.wf(),
            p.position() == 0,
            p.lines_view() == source_lines(content@),
    {
        let chars = chars_of(content);
        let ranges = line_ranges(&chars);
        let ghost ls = text::lines(chars@);
        let comment = chars_of("//");
        let mut lines: Vec<Line> = Vec::new();
        let ghost mut kept: Seq<(int, Seq<char>)> = seq![];
        let mut k: usize = 0;
        assert(ls.skip(0) =~= ls);
        while k < ranges.len()
            invariant
                chars@ == content@,
                ls == text::lines(chars@),
                comment@ == "//"@,
                ranges@.len() == ls.len(),
                ranges@.len() <= chars@.len(),
                forall|j: int|
                    0 <= j < ranges@.len() ==> (#[trigger] ranges@[j]).0 <= ranges@[j].1
                        <= chars@.len() && chars@.subrange(ranges@[j].0 as int, ranges@[j].1 as int)
                        == ls[j],
                k <= ranges@.len(),
                source_lines(content@) == kept + numbered_lines(ls.skip(k as int), k + 1),
                lines@.len() == kept.len(),
                forall|j: int|
                    0 <= j < lines@.len() ==> (#[trigger] lines@[j]).lo <= lines@[j].hi
                        <= chars@.len() && (lines@[j].no as int, chars@.subrange(
                        lines@[j].lo as int,
                        lines@[j].hi as int,
                    )) == kept[j],
            decreases ranges@.len() - k,
        {
            let (lo, hi) = ranges[k];
            assert(chars@.subrange(lo as int, hi as int) == ls[k as int]);
            let (a, b) = trim_at(&chars, lo, hi);
            proof {
                lemma_sub_sub(chars@, lo as int, hi as int, a as int, b as int);
            }
            let ghost t = chars@.subrange(a as int, b as int);
            assert(ls.skip(k as int)[0] == ls[k as int]);
            assert(ls.skip(k as int).drop_first() =~= ls.skip(k + 1));
            if a < b && !starts_with_at(&chars, a, b, &comment) {
                proof {
                    kept = kept.push((k + 1, t));
                }
                lines.push(Line { no: k + 1, lo: a, hi: b });
                assert(source_lines(content@) =~= kept + numbered_lines(ls.skip(k + 1), k + 2));
            }
            k = k + 1;
        }
        assert(ls.skip(k as int) =~= Seq::<Seq<char>>::empty());
        assert(kept + numbered_lines(ls.skip(k as int), k + 1) =~= kept);
        let p = Parser { src: content, chars, lines, pos: 0 };
        assert(p.lines_view() =~= source_lines(content@));
        p
    }

    fn peek(&self) -> (r: Option<Line>)
        requires
            self.wf(),
        ensures
            self.pos < self.lines@.len() ==> r == Some(self.lines@[self.pos as int]),
            self.pos >= self.lines@.len() ==> r is None,
    {
        if self.pos < self.lines.len() {
            Some(self.lines[self.pos])
        } else {
            None
        }
    }

    fn next(&mut self) -> (r: Option<Line>)
        requires
            old(self).wf(),
        ensures
            final(self).wf(),
            final(self).src == old(self).src,
            final(self).chars == old(self).chars,
            final(self).lines == old(self).lines,
            old(self).pos < old(self).lines@.len() ==> r == Some(
                old(self).lines@[old(self).pos as int],
            ) && final(self).pos == old(self).pos + 1,
            old(self).pos >= old(self).lines@.len() ==> r is None && final(self).pos == old(
                self,
            ).pos,
    {
        if self.pos < self.lines.len() {
            let r = self.lines[self.pos];
            self.pos = self.pos + 1;
            Some(r)
        } else {
            None
        }
    }


    /// `owner as address.private` on line `line` gives a field.
    fn parse_field_line(&self, line: Line) -> (r: Result<RecordField, ParseError>)
        requires
            self.wf(),
            line.lo <= line.hi <= self.chars@.len(),
        ensures
            result_view(r) == field_line(
                self.chars@.subrange(line.lo as int, line.hi as int),
                line.no as int,
            ),
    {
        let v = &self.chars;
        let ghost t = v@.subrange(line.lo as int, line.hi as int);
        let (a, b) = cleaned_at(v, line.lo, line.hi);
        let ghost c = v@.subrange(a as int, b as int);
        let sep = chars_of(" as ");
        proof {
            reveal_strlit(" as ");
        }
        match find_at(v, a, b, &sep) {
            Some(p) => {
                proof {
                    text::lemma_find_from_bounds(c, sep@, 0);
                    lemma_sub_sub(v@, a as int, b as int, p as int, p + 4);
                    lemma_sub_sub(v@, a as int, b as int, p + 4, b as int);
                }
                let (na, nb) = trim_at(v, a, p);
                let (ta, tb) = trim_at(v, p + 4, b);
                let (ty, visibility) = type_visibility_at(self.src, v, ta, tb);
                Ok(RecordField { name: substring(self.src, na, nb), ty, visibility })
            },
            None => {
                let msg = String::from_str("expected 'name as type.visibility', got: ").concat(
                    substring(self.src, line.lo, line.hi).as_str(),
                );
                Err(ParseError::Syntax { line: line.no, msg })
            },
        }
    }

    /// Whether line `l` belongs to the field list of a record or mapping.
    fn is_field_line(&self, l: Line) -> (r: bool)
        requires
            l.lo <= l.hi <= self.chars@.len(),
        ensures
            r == (!is_header(self.chars@.subrange(l.lo as int, l.hi as int)) && text::contains(
                self.chars@.subrange(l.lo as int, l.hi as int),
                " as "@,
            )),
    {
        if is_header_at(&self.chars, l.lo, l.hi) {
            false
        } else {
            find_at(&self.chars, l.lo, l.hi, &chars_of(" as ")).is_some()
        }
    }

    /// Parses `record token:` and its field lines.
    fn parse_record(&mut self) -> (r: Result<RecordDef, ParseError>)
        requires
            old(self).wf(),
            old(self).pos < old(self).lines@.len(),
        ensures
            final(self).wf(),
            final(self).src == old(self).src,
            final(self).chars == old(self).chars,
            final(self).lines == old(self).lines,
            result_view(r) == record_at(old(self).lines_view(), old(self).pos as int),
            r is Ok ==> final(self).pos == old(self).pos + 1 + field_run(
                old(self).lines_view(),
                old(self).pos + 1,
            ),
    {
        let ghost ls = self.lines_view();
        let ghost start = self.pos + 1;
        let header = self.next().unwrap();
        assert(ls[start - 1] == (header.no as int, self.chars@.subrange(header.lo as int, header.hi as int)));
        let a = trim_start_matches_at(&self.chars, header.lo, header.hi, &chars_of("record "));
        let b = trim_end_matches_at(&self.chars, a, header.hi, &chars_of(":"));
        let (x, y) = trim_at(&self.chars, a, b);
        if x == y {
            return Err(ParseError::Syntax { line: header.no, msg: String::from_str("record name is empty") });
        }
        let name = substring(self.src, x, y);
        let ghost spec_name = text::trim(
            text::trim_end_matches(text::trim_start_matches(ls[start - 1].1, "record "@), ":"@),
        );
        assert(name@ == spec_name);
        let mut fields: Vec<RecordField> = Vec::new();
        assert(fields@.map_values(|f: RecordField| f@) =~= Seq::<FieldView>::empty());
        loop
            invariant
                self.wf(),
                self.lines_view() == ls,
                self.src == old(self).src,
                self.chars == old(self).chars,
                self.lines == old(self).lines,
                ls == old(self).lines_view(),
                start == old(self).pos + 1,
                start <= self.pos <= ls.len(),
                start >= 1,
                name@ == spec_name,
                spec_name.len() > 0,
                spec_name == text::trim(
                    text::trim_end_matches(text::trim_start_matches(ls[start - 1].1, "record "@), ":"@),
                ),
                field_run(ls, start) == (self.pos - start) + field_run(ls, self.pos as int),
                record_fields(ls, start, (self.pos - start) as nat) == Ok::<
                    Seq<FieldView>,
                    ParseErrorView,
                >(fields@.map_values(|f: RecordField| f@)),
            ensures
                self.wf(),
                self.lines_view() == ls,
                self.src == old(self).src,
                self.chars == old(self).chars,
                self.lines == old(self).lines,
                ls == old(self).lines_view(),
                start == old(self).pos + 1,
                start <= self.pos <= ls.len(),
                start >= 1,
                name@ == spec_name,
                spec_name.len() > 0,
                spec_name == text::trim(
                    text::trim_end_matches(text::trim_start_matches(ls[start - 1].1, "record "@), ":"@),
                ),
                field_run(ls, start) == (self.pos - start) + field_run(ls, self.pos as int),
                record_fields(ls, start, (self.pos - start) as nat) == Ok::<
                    Seq<FieldView>,
                    ParseErrorView,
                >(fields@.map_values(|f: RecordField| f@)),
                field_run(ls, self.pos as int) == 0,
            decreases ls.len() - self.pos,
        {
            let l = match self.peek() {
                Some(l) => l,
                None => {
                    break;
                },
            };
            assert(ls[self.pos as int] == (l.no as int, self.chars@.subrange(l.lo as int, l.hi as int)));
            if !self.is_field_line(l) {
                break;
            }
            let ghost k = (self.pos - start) as nat;
            let ghost p0 = self.pos as int;
            assert(field_run(ls, p0) == 1 + field_run(ls, p0 + 1));
            self.next();
            match self.parse_field_line(l) {
                Ok(f) => {
                    let ghost old_fields = fields@.map_values(|f: RecordField| f@);
                    fields.push(f);
                    assert(fields@.map_values(|f: RecordField| f@) =~= old_fields.push(f@));
                },
                Err(e) => {
                    assert(start + k == p0);
                    assert(record_fields(ls, start, k + 1) == Err::<Seq<FieldView>, ParseErrorView>(e@));
                    proof {
                        lemma_record_fields_err(ls, start, k + 1, field_run(ls, start));
                    }
                    assert(record_fields(ls, start, field_run(ls, start)) == Err::<Seq<FieldView>, ParseErrorView>(e@));
                    assert(spec_name.len() > 0);
                    assert(record_at(ls, start - 1) == Err::<RecordView, ParseErrorView>(e@));
                    return Err(e);
                },
            }
        }
        Ok(RecordDef { name, fields })
    }


    /// Parses `mapping account:` and its `key as ...` / `value as ...` lines.
    fn parse_mapping(&mut self) -> (r: Result<MappingDef, ParseError>)
        requires
            old(self).wf(),
            old(self).pos < old(self).lines@.len(),
        ensures
            final(self).wf(),
            final(self).src == old(self).src,
            final(self).chars == old(self).chars,
            final(self).lines == old(self).lines,
            result_view(r) == mapping_at(old(self).lines_view(), old(self).pos as int),
            r is Ok ==> final(self).pos == old(self).pos + 1 + field_run(
                old(self).lines_view(),
                old(self).pos + 1,
            ),
    {
        let ghost ls = self.lines_view();
        let ghost start = self.pos + 1;
        let header = self.next().unwrap();
        assert(ls[start - 1] == (header.no as int, self.chars@.subrange(header.lo as int, header.hi as int)));
        let a = trim_start_matches_at(&self.chars, header.lo, header.hi, &chars_of("mapping "));
        let b = trim_end_matches_at(&self.chars, a, header.hi, &chars_of(":"));
        let (x, y) = trim_at(&self.chars, a, b);
        if x == y {
            return Err(ParseError::Syntax { line: header.no, msg: String::from_str("mapping name is empty") });
        }
        let name = substring(self.src, x, y);
        let mut key_type = String::new();
        let mut value_type = String::new();
        let key_as = chars_of("key as ");
        let value_as = chars_of("value as ");
        proof {
            reveal_strlit("key as ");
            reveal_strlit("value as ");
        }
        loop
            invariant
                self.wf(),
                self.lines_view() == ls,
                self.src == old(self).src,
                self.chars == old(self).chars,
                self.lines == old(self).lines,
                key_as@ == "key as "@,
                value_as@ == "value as "@,
                key_as@.len() == 7,
                value_as@.len() == 9,
                start <= self.pos <= ls.len(),
                field_run(ls, start) == (self.pos - start) + field_run(ls, self.pos as int),
                mapping_types(ls, start, (self.pos - start) as nat) == (key_type@, value_type@),
            ensures
                self.wf(),
                self.lines_view() == ls,
                self.src == old(self).src,
                self.chars == old(self).chars,
                self.lines == old(self).lines,
                key_as@ == "key as "@,
                value_as@ == "value as "@,
                key_as@.len() == 7,
                value_as@.len() == 9,
                start <= self.pos <= ls.len(),
                field_run(ls, start) == (self.pos - start) + field_run(ls, self.pos as int),
                mapping_types(ls, start, (self.pos - start) as nat) == (key_type@, value_type@),
                field_run(ls, self.pos as int) == 0,
            decreases ls.len() - self.pos,
        {
            let l = match self.peek() {
                Some(l) => l,
                None => {
                    break;
                },
            };
            assert(ls[self.pos as int] == (l.no as int, self.chars@.subrange(l.lo as int, l.hi as int)));
            if !self.is_field_line(l) {
                break;
            }
            self.next();
            let (ca, cb) = cleaned_at(&self.chars, l.lo, l.hi);
            if starts_with_at(&self.chars, ca, cb, &key_as) {
                proof {
                    lemma_sub_sub(self.chars@, ca as int, cb as int, ca + 7, cb as int);
                }
                let (ra, rb) = trim_at(&self.chars, ca + 7, cb);
                key_type = substring(self.src, ra, rb);
            } else if starts_with_at(&self.chars, ca, cb, &value_as) {
                proof {
                    lemma_sub_sub(self.chars@, ca as int, cb as int, ca + 9, cb as int);
                }
                let (ra, rb) = trim_at(&self.chars, ca + 9, cb);
                value_type = substring(self.src, ra, rb);
            }
        }
        Ok(MappingDef { name, key_type, value_type })
    }

    /// Parses a `function` or `finalize` block (named by `kind`).
    fn parse_function(&mut self, kind: &str) -> (r: Result<FunctionDef, ParseError>)
        requires
            old(self).wf(),
            old(self).pos < old(self).lines@.len(),
        ensures
            final(self).wf(),
            final(self).src == old(self).src,
            final(self).chars == old(self).chars,
            final(self).lines == old(self).lines,
            result_view(r) == function_at(old(self).lines_view(), old(self).pos as int, kind@),
            r is Ok ==> final(self).pos == old(self).pos + 1 + body_run(
                old(self).lines_view(),
                old(self).pos + 1,
            ),
    {
        let ghost ls = self.lines_view();
        let ghost start = self.pos + 1;
        let header = self.next().unwrap();
        assert(ls[start - 1] == (header.no as int, self.chars@.subrange(header.lo as int, header.hi as int)));
        let a = trim_start_matches_at(&self.chars, header.lo, header.hi, &chars_of(kind));
        let (a2, b2) = trim_at(&self.chars, a, header.hi);
        let e = trim_end_matches_at(&self.chars, a2, b2, &chars_of(":"));
        let (x, y) = trim_at(&self.chars, a2, e);
        if x == y {
            return Err(ParseError::Syntax { line: header.no, msg: String::from_str(kind).concat(" name is empty") });
        }
        let name = substring(self.src, x, y);
        let mut inputs: Vec<Param> = Vec::new();
        let mut outputs: Vec<Param> = Vec::new();
        let input = chars_of("input ");
        let output = chars_of("output ");
        proof {
            reveal_strlit("input ");
            reveal_strlit("output ");
        }
        loop
            invariant
                self.wf(),
                self.lines_view() == ls,
                self.src == old(self).src,
                self.chars == old(self).chars,
                self.lines == old(self).lines,
                input@ == "input "@,
                output@ == "output "@,
                input@.len() == 6,
                output@.len() == 7,
                start <= self.pos <= ls.len(),
                body_run(ls, start) == (self.pos - start) + body_run(ls, self.pos as int),
                function_params(ls, start, (self.pos - start) as nat) == (
                    inputs@.map_values(|p: Param| p@),
                    outputs@.map_values(|p: Param| p@),
                ),
            ensures
                self.wf(),
                self.lines_view() == ls,
                self.src == old(self).src,
                self.chars == old(self).chars,
                self.lines == old(self).lines,
                input@ == "input "@,
                output@ == "output "@,
                input@.len() == 6,
                output@.len() == 7,
                start <= self.pos <= ls.len(),
                body_run(ls, start) == (self.pos - start) + body_run(ls, self.pos as int),
                function_params(ls, start, (self.pos - start) as nat) == (
                    inputs@.map_values(|p: Param| p@),
                    outputs@.map_values(|p: Param| p@),
                ),
                body_run(ls, self.pos as int) == 0,
            decreases ls.len() - self.pos,
        {
            let l = match self.peek() {
                Some(l) => l,
                None => {
                    break;
                },
            };
            assert(ls[self.pos as int] == (l.no as int, self.chars@.subrange(l.lo as int, l.hi as int)));
            if is_header_at(&self.chars, l.lo, l.hi) {
                break;
            }
            self.next();
            let (ca, cb) = cleaned_at(&self.chars, l.lo, l.hi);
            let ghost old_in = inputs@.map_values(|p: Param| p@);
            let ghost old_out = outputs@.map_values(|p: Param| p@);
            if starts_with_at(&self.chars, ca, cb, &input) {
                proof {
                    lemma_sub_sub(self.chars@, ca as int, cb as int, ca + 6, cb as int);
                }
                if let Some(p) = param_at(self.src, &self.chars, ca + 6, cb) {
                    inputs.push(p);
                    assert(inputs@.map_values(|p: Param| p@) =~= old_in.push(p@));
                }
            } else if starts_with_at(&self.chars, ca, cb, &output) {
                proof {
                    lemma_sub_sub(self.chars@, ca as int, cb as int, ca + 7, cb as int);
                }
                if let Some(p) = param_at(self.src, &self.chars, ca + 7, cb) {
                    outputs.push(p);
                    assert(outputs@.map_values(|p: Param| p@) =~= old_out.push(p@));
                }
            }
        }
        Ok(FunctionDef { name, inputs, outputs })
    }

    /// Skips a block that is not parsed (`constructor`, `interface`).
    fn skip_block(&mut self)
        requires
            old(self).wf(),
            old(self).pos < old(self).lines@.len(),
        ensures
            final(self).wf(),
            final(self).src == old(self).src,
            final(self).chars == old(self).chars,
            final(self).lines == old(self).lines,
            final(self).pos == old(self).pos + 1 + body_run(old(self).lines_view(), old(self).pos + 1),
    {
        let ghost ls = self.lines_view();
        let ghost start = self.pos + 1;
        self.next();
        loop
            invariant
                self.wf(),
                self.lines_view() == ls,
                self.src == old(self).src,
                self.chars == old(self).chars,
                self.lines == old(self).lines,
                ls == old(self).lines_view(),
                start == old(self).pos + 1,
                start <= self.pos <= ls.len(),
                body_run(ls, start) == (self.pos - start) + body_run(ls, self.pos as int),
            ensures
                self.wf(),
                self.lines_view() == ls,
                self.src == old(self).src,
                self.chars == old(self).chars,
                self.lines == old(self).lines,
                ls == old(self).lines_view(),
                start == old(self).pos + 1,
                start <= self.pos <= ls.len(),
                body_run(ls, start) == (self.pos - start) + body_run(ls, self.pos as int),
                body_run(ls, self.pos as int) == 0,
            decreases ls.len() - self.pos,
        {
            let l = match self.peek() {
                Some(l) => l,
                None => {
                    break;
                },
            };
            assert(ls[self.pos as int] == (l.no as int, self.chars@.subrange(l.lo as int, l.hi as int)));
            if is_header_at(&self.chars, l.lo, l.hi) {
                break;
            }
            self.next();
        }
    }

    /// Parses the whole text: the `program` declaration, then block after block.
    #[verifier::rlimit(60)]
    fn parse(&mut self) -> (r: Result<Contract, ParseError>)
        requires
            old(self).wf(),
            old(self).pos == 0,
        ensures
            result_view(r) == parse_lines(old(self).lines_view()),
    {
        let ghost ls = self.lines_view();
        let first = match self.next() {
            Some(l) => l,
            None => {
                return Err(ParseError::NoProgram);
            },
        };
        assert(ls[0] == (first.no as int, self.chars@.subrange(first.lo as int, first.hi as int)));
        if !starts_with_at(&self.chars, first.lo, first.hi, &chars_of("program ")) {
            let msg = String::from_str("expected 'program xxx.aleo;', got: ").concat(
                substring(self.src, first.lo, first.hi).as_str(),
            );
            return Err(ParseError::Syntax { line: first.no, msg });
        }
        let a = trim_start_matches_at(&self.chars, first.lo, first.hi, &chars_of("program "));
        let b = trim_end_matches_at(&self.chars, a, first.hi, &chars_of(";"));
        let (x, y) = trim_at(&self.chars, a, b);
        let mut contract = Contract {
            program: substring(self.src, x, y),
            records: Vec::new(),
            mappings: Vec::new(),
            functions: Vec::new(),
            finalizes: Vec::new(),
        };
        assert(contract@ =~= empty_contract(program_name(ls[0].1)));
        let record = chars_of("record ");
        let mapping = chars_of("mapping ");
        let function = chars_of("function ");
        let finalize = chars_of("finalize ");
        let constructor = chars_of("constructor");
        let interface = chars_of("interface ");
        loop
            invariant
                self.wf(),
                self.lines_view() == ls,
                ls == old(self).lines_view(),
                1 <= self.pos <= ls.len(),
                record@ == "record "@,
                mapping@ == "mapping "@,
                function@ == "function "@,
                finalize@ == "finalize "@,
                constructor@ == "constructor"@,
                interface@ == "interface "@,
                parse_lines(ls) == parse_blocks(ls, self.pos as int, contract@),
            ensures
                self.wf(),
                self.lines_view() == ls,
                ls == old(self).lines_view(),
                1 <= self.pos <= ls.len(),
                record@ == "record "@,
                mapping@ == "mapping "@,
                function@ == "function "@,
                finalize@ == "finalize "@,
                constructor@ == "constructor"@,
                interface@ == "interface "@,
                parse_lines(ls) == parse_blocks(ls, self.pos as int, contract@),
                self.pos == ls.len(),
            decreases ls.len() - self.pos,
        {
            let l = match self.peek() {
                Some(l) => l,
                None => {
                    break;
                },
            };
            let ghost i = self.pos as int;
            assert(ls[i] == (l.no as int, self.chars@.subrange(l.lo as int, l.hi as int)));
            if starts_with_at(&self.chars, l.lo, l.hi, &record) {
                match self.parse_record() {
                    Ok(rd) => {
                        let ghost c0 = contract@;
                        contract.records.push(rd);
                        assert(contract@ =~= ContractView { records: c0.records.push(rd@), ..c0 });
                    },
                    Err(e) => {
                                                assert(parse_blocks(ls, i, contract@) == Err::<ContractView, ParseErrorView>(e@));
                        return Err(e);
                    },
                }
            } else if starts_with_at(&self.chars, l.lo, l.hi, &mapping) {
                match self.parse_mapping() {
                    Ok(m) => {
                        let ghost c0 = contract@;
                        contract.mappings.push(m);
                        assert(contract@ =~= ContractView { mappings: c0.mappings.push(m@), ..c0 });
                    },
                    Err(e) => {
                        assert(parse_blocks(ls, i, contract@) == Err::<ContractView, ParseErrorView>(e@));
                        return Err(e);
                    },
                }
            } else if starts_with_at(&self.chars, l.lo, l.hi, &function) {
                match self.parse_function("function") {
                    Ok(f) => {
                        let ghost c0 = contract@;
                        contract.functions.push(f);
                        assert(contract@ =~= ContractView { functions: c0.functions.push(f@), ..c0 });
                    },
                    Err(e) => {
                        assert(parse_blocks(ls, i, contract@) == Err::<ContractView, ParseErrorView>(e@));
                        return Err(e);
                    },
                }
            } else if starts_with_at(&self.chars, l.lo, l.hi, &finalize) {
                match self.parse_function("finalize") {
                    Ok(f) => {
                        let ghost c0 = contract@;
                        contract.finalizes.push(f);
                        assert(contract@ =~= ContractView { finalizes: c0.finalizes.push(f@), ..c0 });
                    },
                    Err(e) => {
                        assert(parse_blocks(ls, i, contract@) == Err::<ContractView, ParseErrorView>(e@));
                        return Err(e);
                    },
                }
            } else if starts_with_at(&self.chars, l.lo, l.hi, &constructor) || starts_with_at(
                &self.chars,
                l.lo,
                l.hi,
                &interface,
            ) {
                self.skip_block();
            } else {
                self.next();
            }
        }
        Ok(contract)
    }

    /// Whether a line starts a block.
    pub fn is_block_header(line: &str) -> (r: bool)
        ensures
            r == is_header(line@),
    {
        let v = chars_of(line);
        assert(v@.subrange(0, v@.len() as int) =~= v@);
        is_header_at(&v, 0, v.len())
    }
}

/// A record field line such as `owner as address.private;`, on line `line_no`.
pub fn parse_field_line(line: &str, line_no: usize) -> (r: Result<RecordField, ParseError>)
    ensures
        result_view(r) == field_line(line@, line_no as int),
{
    let v = chars_of(line);
    assert(v@.subrange(0, v@.len() as int) =~= v@);
    let (a, b) = cleaned_at(&v, 0, v.len());
    let ghost c = v@.subrange(a as int, b as int);
    let sep = chars_of(" as ");
    proof {
        reveal_strlit(" as ");
    }
    match find_at(&v, a, b, &sep) {
        Some(p) => {
            proof {
                text::lemma_find_from_bounds(c, sep@, 0);
                lemma_sub_sub(v@, a as int, b as int, p as int, p + 4);
                lemma_sub_sub(v@, a as int, b as int, p + 4, b as int);
            }
            let (na, nb) = trim_at(&v, a, p);
            let (ta, tb) = trim_at(&v, p + 4, b);
            let (ty, visibility) = type_visibility_at(line, &v, ta, tb);
            Ok(RecordField { name: substring(line, na, nb), ty, visibility })
        },
        None => {
            let msg = String::from_str("expected 'name as type.visibility', got: ").concat(line);
            Err(ParseError::Syntax { line: line_no, msg })
        },
    }
}

/// A parameter such as `r0 as address.public` (what follows `input` or `output`).
pub fn parse_param(rest: &str) -> (r: Option<Param>)
    ensures
        match r {
            Some(p) => param_text(rest@) == Some(p@),
            None => param_text(rest@) is None,
        },
{
    let v = chars_of(rest);
    assert(v@.subrange(0, v@.len() as int) =~= v@);
    param_at(rest, &v, 0, v.len())
}

/// How a parse error reads.
pub open spec fn error_text(e: ParseErrorView) -> Seq<char> {
    match e {
        ParseErrorView::Syntax { line, msg } => "line "@ + text::decimal(line as nat) + ": "@ + msg,
        ParseErrorView::NoProgram => "missing program declaration"@,
    }
}

impl ParseError {
    /// The message of the error: `line N: ...` or `missing program declaration`.
    pub fn message(&self) -> (r: String)
        ensures
            r@ == error_text(self@),
    {
        match self {
            ParseError::Syntax { line, msg } => String::from_str("line ").concat(
                crate::text::u128_text(*line as u128).as_str(),
            ).concat(": ").concat(msg.as_str()),
            ParseError::NoProgram => String::from_str("missing program declaration"),
        }
    }
}

/// How a visibility is written after the type (empty when unspecified).
pub open spec fn visibility_text(v: Visibility) -> Seq<char> {
    match v {
        Visibility::Public => "public"@,
        Visibility::Private => "private"@,
        Visibility::Constant => "constant"@,
        Visibility::Unspecified => ""@,
    }
}

impl Visibility {
    /// The visibility as written after the type: `public`, `private`,
    /// `constant`, or nothing.
    pub fn name(&self) -> (r: String)
        ensures
            r@ == visibility_text(*self),
    {
        match self {
            Visibility::Public => String::from_str("public"),
            Visibility::Private => String::from_str("private"),
            Visibility::Constant => String::from_str("constant"),
            Visibility::Unspecified => String::from_str(""),
        }
    }
}

// ============================================================================
// Properties
// ============================================================================

/// The kept lines of `ls` are, from the first kept one on, numbered by
/// their position (plus `first`); there are none exactly when no line of
/// `ls` is kept.
proof fn lemma_numbered_first(ls: Seq<Seq<char>>, first: int)
    ensures
        numbered_lines(ls, first).len() == 0 <==> forall|k: int|
            0 <= k < ls.len() ==> !is_kept(#[trigger] text::trim(ls[k])),
        numbered_lines(ls, first).len() > 0 ==> exists|k: int|
            0 <= k < ls.len() && is_kept(#[trigger] text::trim(ls[k])) && numbered_lines(ls, first)[0] == (
                first + k,
                text::trim(ls[k]),
            ) && forall|j: int| 0 <= j < k ==> !is_kept(#[trigger] text::trim(ls[j])),
    decreases ls.len(),
{
    if ls.len() > 0 {
        let rest = ls.drop_first();
        lemma_numbered_first(rest, first + 1);
        assert(forall|k: int| 0 <= k < rest.len() ==> rest[k] == ls[k + 1]);
        if is_kept(text::trim(ls[0])) {
            assert(numbered_lines(ls, first)[0] == (first + 0, text::trim(ls[0])));
        } else {
            assert(numbered_lines(ls, first) == numbered_lines(rest, first + 1));
            if numbered_lines(rest, first + 1).len() > 0 {
                let k = choose|k: int|
                    0 <= k < rest.len() && is_kept(#[trigger] text::trim(rest[k])) && numbered_lines(rest, first + 1)[0]
                        == (first + 1 + k, text::trim(rest[k])) && forall|j: int|
                        0 <= j < k ==> !is_kept(#[trigger] text::trim(rest[j]));
                assert(is_kept(text::trim(ls[k + 1])));
                assert forall|j: int| 0 <= j < k + 1 implies !is_kept(#[trigger] text::trim(ls[j])) by {
                    if j > 0 {
                        assert(ls[j] == rest[j - 1]);
                    }
                }
            } else {
                assert forall|k: int| 0 <= k < ls.len() implies !is_kept(#[trigger] text::trim(ls[k])) by {
                    if k > 0 {
                        assert(ls[k] == rest[k - 1]);
                    }
                }
            }
        }
    }
}

/// The fields of a record never fail with `NoProgram`.
proof fn lemma_fields_syntax_only(ls: Seq<(int, Seq<char>)>, i: int, n: nat)
    ensures
        record_fields(ls, i, n) != Err::<Seq<FieldView>, ParseErrorView>(ParseErrorView::NoProgram),
    decreases n,
{
    if n > 0 {
        lemma_fields_syntax_only(ls, i, (n - 1) as nat);
    }
}

/// Reading the blocks never fails with `NoProgram`.
proof fn lemma_blocks_syntax_only(ls: Seq<(int, Seq<char>)>, i: int, c: ContractView)
    ensures
        parse_blocks(ls, i, c) != Err::<ContractView, ParseErrorView>(ParseErrorView::NoProgram),
    decreases ls.len() - i,
{
    if 0 <= i < ls.len() {
        lemma_run_bounds(ls, i + 1);
        let t = ls[i].1;
        lemma_fields_syntax_only(ls, i + 1, field_run(ls, i + 1));
        if text::starts_with(t, "record "@) {
            if let Ok(r) = record_at(ls, i) {
                lemma_blocks_syntax_only(ls, i + 1 + field_run(ls, i + 1), ContractView { records: c.records.push(r), ..c });
            }
        } else if text::starts_with(t, "mapping "@) {
            if let Ok(m) = mapping_at(ls, i) {
                lemma_blocks_syntax_only(ls, i + 1 + field_run(ls, i + 1), ContractView { mappings: c.mappings.push(m), ..c });
            }
        } else if text::starts_with(t, "function "@) {
            if let Ok(f) = function_at(ls, i, "function"@) {
                lemma_blocks_syntax_only(ls, i + 1 + body_run(ls, i + 1), ContractView { functions: c.functions.push(f), ..c });
            }
        } else if text::starts_with(t, "finalize "@) {
            if let Ok(f) = function_at(ls, i, "finalize"@) {
                lemma_blocks_syntax_only(ls, i + 1 + body_run(ls, i + 1), ContractView { finalizes: c.finalizes.push(f), ..c });
            }
        } else if text::starts_with(t, "constructor"@) || text::starts_with(t, "interface "@) {
            lemma_blocks_syntax_only(ls, i + 1 + body_run(ls, i + 1), c);
        } else {
            lemma_blocks_syntax_only(ls, i + 1, c);
        }
    }
}

/// The name a `record` or `mapping` header gives (`kw` is the keyword
/// with its space).
pub open spec fn field_block_name(t: Seq<char>, kw: Seq<char>) -> Seq<char> {
    text::trim(text::trim_end_matches(text::trim_start_matches(t, kw), ":"@))
}

/// The names of the blocks of a contract: records, mappings, functions,
/// finalizes.
pub open spec fn block_names(c: ContractView) -> (Seq<Seq<char>>, Seq<Seq<char>>, Seq<Seq<char>>, Seq<Seq<char>>) {
    (
        c.records.map_values(|r: RecordView| r.name),
        c.mappings.map_values(|m: MappingView| m.name),
        c.functions.map_values(|f: FunctionView| f.name),
        c.finalizes.map_values(|f: FunctionView| f.name),
    )
}

/// The names given by the header lines from line `i` on, by kind: lines
/// starting with `record `, `mapping `, `function `, `finalize `.
pub open spec fn header_names(ls: Seq<(int, Seq<char>)>, i: int) -> (
    Seq<Seq<char>>,
    Seq<Seq<char>>,
    Seq<Seq<char>>,
    Seq<Seq<char>>,
)
    decreases ls.len() - i,
{
    if i < 0 || i >= ls.len() {
        (seq![], seq![], seq![], seq![])
    } else {
        let t = ls[i].1;
        let rest = header_names(ls, i + 1);
        if text::starts_with(t, "record "@) {
            (seq![field_block_name(t, "record "@)] + rest.0, rest.1, rest.2, rest.3)
        } else if text::starts_with(t, "mapping "@) {
            (rest.0, seq![field_block_name(t, "mapping "@)] + rest.1, rest.2, rest.3)
        } else if text::starts_with(t, "function "@) {
            (rest.0, rest.1, seq![header_name(t, "function"@)] + rest.2, rest.3)
        } else if text::starts_with(t, "finalize "@) {
            (rest.0, rest.1, rest.2, seq![header_name(t, "finalize"@)] + rest.3)
        } else {
            rest
        }
    }
}

/// The four name lists joined pairwise.
pub open spec fn names_concat(
    a: (Seq<Seq<char>>, Seq<Seq<char>>, Seq<Seq<char>>, Seq<Seq<char>>),
    b: (Seq<Seq<char>>, Seq<Seq<char>>, Seq<Seq<char>>, Seq<Seq<char>>),
) -> (Seq<Seq<char>>, Seq<Seq<char>>, Seq<Seq<char>>, Seq<Seq<char>>) {
    (a.0 + b.0, a.1 + b.1, a.2 + b.2, a.3 + b.3)
}

/// Every name of the blocks of `c` is non-empty.
pub open spec fn names_non_empty(c: ContractView) -> bool {
    &&& forall|j: int| 0 <= j < c.records.len() ==> (#[trigger] c.records[j]).name.len() > 0
    &&& forall|j: int| 0 <= j < c.mappings.len() ==> (#[trigger] c.mappings[j]).name.len() > 0
    &&& forall|j: int| 0 <= j < c.functions.len() ==> (#[trigger] c.functions[j]).name.len() > 0
    &&& forall|j: int| 0 <= j < c.finalizes.len() ==> (#[trigger] c.finalizes[j]).name.len() > 0
}

/// Lines that are not block headers add no header names.
proof fn lemma_skip_non_headers(ls: Seq<(int, Seq<char>)>, i: int, j: int)
    requires
        0 <= i <= j <= ls.len(),
        forall|k: int| i <= k < j ==> !is_header(#[trigger] ls[k].1),
    ensures
        header_names(ls, i) == header_names(ls, j),
    decreases j - i,
{
    if i < j {
        lemma_skip_non_headers(ls, i + 1, j);
        assert(!is_header(ls[i].1));
    }
}

/// The lines of a field run are not block headers.
proof fn lemma_field_run_lines(ls: Seq<(int, Seq<char>)>, j: int)
    requires
        0 <= j <= ls.len(),
    ensures
        forall|k: int| j <= k < j + field_run(ls, j) ==> !is_header(#[trigger] ls[k].1),
    decreases ls.len() - j,
{
    if j < ls.len() && field_run(ls, j) > 0 {
        lemma_field_run_lines(ls, j + 1);
    }
}

/// The lines of a body run are not block headers.
proof fn lemma_body_run_lines(ls: Seq<(int, Seq<char>)>, j: int)
    requires
        0 <= j <= ls.len(),
    ensures
        forall|k: int| j <= k < j + body_run(ls, j) ==> !is_header(#[trigger] ls[k].1),
    decreases ls.len() - j,
{
    if j < ls.len() && body_run(ls, j) > 0 {
        lemma_body_run_lines(ls, j + 1);
    }
}

proof fn lemma_blocks_names(ls: Seq<(int, Seq<char>)>, i: int, c: ContractView)
    requires
        0 <= i,
        names_non_empty(c),
    ensures
        parse_blocks(ls, i, c) matches Ok(d) ==> block_names(d) == names_concat(block_names(c), header_names(ls, i))
            && names_non_empty(d),
    decreases ls.len() - i,
{
    if i >= ls.len() {
        assert(names_concat(block_names(c), header_names(ls, i)) =~~= block_names(c));
    } else {
        lemma_run_bounds(ls, i + 1);
        lemma_field_run_lines(ls, i + 1);
        lemma_body_run_lines(ls, i + 1);
        let t = ls[i].1;
        let fr = i + 1 + field_run(ls, i + 1);
        let br = i + 1 + body_run(ls, i + 1);
        if text::starts_with(t, "record "@) {
            lemma_skip_non_headers(ls, i + 1, fr);
            if let Ok(r) = record_at(ls, i) {
                let c2 = ContractView { records: c.records.push(r), ..c };
                lemma_blocks_names(ls, fr, c2);
                assert(block_names(c2).0 =~= block_names(c).0.push(r.name));
                assert(names_concat(block_names(c2), header_names(ls, fr)) =~~= names_concat(
                    block_names(c),
                    header_names(ls, i),
                ));
            }
        } else if text::starts_with(t, "mapping "@) {
            lemma_skip_non_headers(ls, i + 1, fr);
            if let Ok(m) = mapping_at(ls, i) {
                let c2 = ContractView { mappings: c.mappings.push(m), ..c };
                lemma_blocks_names(ls, fr, c2);
                assert(block_names(c2).1 =~= block_names(c).1.push(m.name));
                assert(names_concat(block_names(c2), header_names(ls, fr)) =~~= names_concat(
                    block_names(c),
                    header_names(ls, i),
                ));
            }
        } else if text::starts_with(t, "function "@) {
            lemma_skip_non_headers(ls, i + 1, br);
            if let Ok(f) = function_at(ls, i, "function"@) {
                let c2 = ContractView { functions: c.functions.push(f), ..c };
                lemma_blocks_names(ls, br, c2);
                assert(block_names(c2).2 =~= block_names(c).2.push(f.name));
                assert(names_concat(block_names(c2), header_names(ls, br)) =~~= names_concat(
                    block_names(c),
                    header_names(ls, i),
                ));
            }
        } else if text::starts_with(t, "finalize "@) {
            lemma_skip_non_headers(ls, i + 1, br);
            if let Ok(f) = function_at(ls, i, "finalize"@) {
                let c2 = ContractView { finalizes: c.finalizes.push(f), ..c };
                lemma_blocks_names(ls, br, c2);
                assert(block_names(c2).3 =~= block_names(c).3.push(f.name));
                assert(names_concat(block_names(c2), header_names(ls, br)) =~~= names_concat(
                    block_names(c),
                    header_names(ls, i),
                ));
            }
        } else if text::starts_with(t, "constructor"@) || text::starts_with(t, "interface "@) {
            lemma_skip_non_headers(ls, i + 1, br);
            lemma_blocks_names(ls, br, c);
        } else {
            lemma_blocks_names(ls, i + 1, c);
        }
    }
}

/// A parsed contract has one record, mapping, function and finalize per
/// line after the program declaration that starts with `record `,
/// `mapping `, `function ` or `finalize `, in the order of those lines,
/// each named by its header line; and every such name is non-empty.
pub proof fn blocks_follow_headers(s: Seq<char>)
    ensures
        parse_spec(s) matches Ok(c) ==> block_names(c) == header_names(source_lines(s), 1) && names_non_empty(c),
{
    let ls = source_lines(s);
    if ls.len() > 0 && text::starts_with(ls[0].1, "program "@) {
        let c0 = empty_contract(program_name(ls[0].1));
        lemma_blocks_names(ls, 1, c0);
        assert(block_names(c0).0 =~= Seq::<Seq<char>>::empty());
        assert(block_names(c0).1 =~= Seq::<Seq<char>>::empty());
        assert(block_names(c0).2 =~= Seq::<Seq<char>>::empty());
        assert(block_names(c0).3 =~= Seq::<Seq<char>>::empty());
        assert(names_concat(block_names(c0), header_names(ls, 1)) =~~= header_names(ls, 1));
    }
}

/// `r` is a syntax error on line `n`.
pub open spec fn syntax_error_on(r: Result<ContractView, ParseErrorView>, n: int) -> bool {
    match r {
        Err(ParseErrorView::Syntax { line, .. }) => line == n,
        _ => false,
    }
}

/// A text fails with `NoProgram` exactly when every line is blank or a
/// `//` comment. Otherwise, when its first such line (line `k + 1`) does
/// not start with `program `, it fails with a syntax error on that line.
pub proof fn missing_program_declaration(s: Seq<char>)
    ensures
        parse_spec(s) == Err::<ContractView, ParseErrorView>(ParseErrorView::NoProgram) <==> forall|k: int|
            0 <= k < text::lines(s).len() ==> !is_kept(#[trigger] text::trim(text::lines(s)[k])),
        forall|k: int|
            0 <= k < text::lines(s).len() && is_kept(#[trigger] text::trim(text::lines(s)[k])) && (forall|j: int|
                0 <= j < k ==> !is_kept(#[trigger] text::trim(text::lines(s)[j]))) && !text::starts_with(
                text::trim(text::lines(s)[k]),
                "program "@,
            ) ==> syntax_error_on(parse_spec(s), k + 1),
{
    let ls = text::lines(s);
    lemma_numbered_first(ls, 1);
    let sl = source_lines(s);
    if sl.len() > 0 {
        let k0 = choose|k: int|
            0 <= k < ls.len() && is_kept(#[trigger] text::trim(ls[k])) && sl[0] == (1 + k, text::trim(ls[k]))
                && forall|j: int| 0 <= j < k ==> !is_kept(#[trigger] text::trim(ls[j]));
        if text::starts_with(sl[0].1, "program "@) {
            lemma_blocks_syntax_only(sl, 1, empty_contract(program_name(sl[0].1)));
        }
        assert forall|k: int|
            0 <= k < ls.len() && is_kept(#[trigger] text::trim(ls[k])) && (forall|j: int|
                0 <= j < k ==> !is_kept(#[trigger] text::trim(ls[j]))) && !text::starts_with(
                text::trim(ls[k]),
                "program "@,
            ) implies syntax_error_on(parse_spec(s), k + 1) by {
            if k < k0 {
                assert(!is_kept(text::trim(ls[k])));
            } else if k > k0 {
                assert(!is_kept(text::trim(ls[k0])));
            }
        }
    }
}

/// The last `c` of `s` is at `p` when `s[p]` is `c` and no later char is.
proof fn lemma_rfind_char_at(s: Seq<char>, c: char, p: int)
    requires
        0 <= p < s.len(),
        s[p] == c,
        forall|i: int| p < i < s.len() ==> s[i] != c,
    ensures
        text::rfind_char(s, c) == Some(p),
    decreases s.len(),
{
    if s.len() - 1 != p {
        lemma_rfind_char_at(s.drop_last(), c, p);
    }
}

/// What `rfind_char` finds is the char searched for.
proof fn lemma_rfind_char_found(s: Seq<char>, c: char)
    ensures
        text::rfind_char(s, c) matches Some(p) ==> 0 <= p < s.len() && s[p] == c,
    decreases s.len(),
{
    if s.len() > 0 && s.last() != c {
        lemma_rfind_char_found(s.drop_last(), c);
    }
}

/// Splitting a type annotation into type and visibility and writing
/// them back gives the annotation.
pub proof fn type_visibility_roundtrip(s: Seq<char>)
    ensures
        type_vis_text(type_visibility(s).0, type_visibility(s).1) == s,
{
    reveal_strlit(".");
    lemma_rfind_char_found(s, '.');
    match text::rfind_char(s, '.') {
        Some(p) => {
            let vis = s.skip(p + 1);
            if vis == "public"@ || vis == "private"@ || vis == "constant"@ {
                assert(s =~= s.take(p) + "."@ + vis);
            }
        },
        None => {},
    }
}

/// A type written with a visibility suffix reads back as that type
/// and visibility; so does a type written without one, provided the type
/// itself does not end in a visibility.
pub proof fn type_visibility_reads_back(ty: Seq<char>, vis: Visibility)
    requires
        vis != Visibility::Unspecified || type_visibility(ty).1 == Visibility::Unspecified,
    ensures
        type_visibility(type_vis_text(ty, vis)) == (ty, vis),
{
    reveal_strlit(".");
    reveal_strlit("public");
    reveal_strlit("private");
    reveal_strlit("constant");
    if vis != Visibility::Unspecified {
        let name = visibility_text(vis);
        let t = type_vis_text(ty, vis);
        assert(t =~= ty + "."@ + name);
        assert forall|i: int| ty.len() < i < t.len() implies t[i] != '.' by {
            assert(t[i] == name[i - ty.len() - 1]);
        }
        lemma_rfind_char_at(t, '.', ty.len() as int);
        assert(t.skip(ty.len() as int + 1) =~= name);
        assert(t.take(ty.len() as int) =~= ty);
    }
}

} // verus!
