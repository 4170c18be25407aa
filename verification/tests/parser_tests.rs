use leo_zap::parser::{format_type_vis, parse, parse_field_line, parse_param, parse_type_visibility, ParseError, Parser, Visibility};

const SAMPLE: &str = r#"program token.aleo;

record token:
    owner as address.private;
    amount as u64.private;

mapping account:
    key as address.public;
    value as u64.public;

function mint_public:
    input r0 as address.public;
    input r1 as u64.public;
    async mint_public r0 r1 into r2;
    output r2 as token.aleo/mint_public.future;

finalize mint_public:
    input r0 as address.public;
    input r1 as u64.public;
    get.or_use account[r0] 0u64 into r2;
    add r2 r1 into r3;
    set r3 into account[r0];

function mint_private:
    input r0 as address.private;
    input r1 as u64.private;
    cast r0 r1 into r2 as token.record;
    output r2 as token.record;
"#;

#[test]
fn test_parse_program_name() {
    let c = parse(SAMPLE).unwrap();
    assert_eq!(c.program, "token.aleo");
}

#[test]
fn test_empty_contract() {
    let c = parse("program empty.aleo;\n").unwrap();
    assert_eq!(c.program, "empty.aleo");
    assert!(c.records.is_empty());
    assert!(c.mappings.is_empty());
    assert!(c.functions.is_empty());
    assert!(c.finalizes.is_empty());
}

#[test]
fn test_parse_record() {
    let c = parse(SAMPLE).unwrap();
    assert_eq!(c.records.len(), 1);

    let r = &c.records[0];
    assert_eq!(r.name, "token");
    assert_eq!(r.fields.len(), 2);

    assert_eq!(r.fields[0].name, "owner");
    assert_eq!(r.fields[0].ty, "address");
    assert_eq!(r.fields[0].visibility, Visibility::Private);

    assert_eq!(r.fields[1].name, "amount");
    assert_eq!(r.fields[1].ty, "u64");
    assert_eq!(r.fields[1].visibility, Visibility::Private);
}

#[test]
fn test_parse_mapping() {
    let c = parse(SAMPLE).unwrap();
    assert_eq!(c.mappings.len(), 1);

    let m = &c.mappings[0];
    assert_eq!(m.name, "account");
    assert_eq!(m.key_type, "address.public");
    assert_eq!(m.value_type, "u64.public");
}

#[test]
fn test_parse_functions() {
    let c = parse(SAMPLE).unwrap();
    assert_eq!(c.functions.len(), 2);

    let f0 = &c.functions[0];
    assert_eq!(f0.name, "mint_public");
    assert_eq!(f0.inputs.len(), 2);
    assert_eq!(f0.inputs[0].register, "r0");
    assert_eq!(f0.inputs[0].ty, "address");
    assert_eq!(f0.inputs[0].visibility, Visibility::Public);
    assert_eq!(f0.outputs.len(), 1);
    assert_eq!(f0.outputs[0].ty, "token.aleo/mint_public.future");
    assert_eq!(f0.outputs[0].visibility, Visibility::Unspecified);

    let f1 = &c.functions[1];
    assert_eq!(f1.name, "mint_private");
    assert_eq!(f1.inputs.len(), 2);
    assert_eq!(f1.inputs[0].visibility, Visibility::Private);
    assert_eq!(f1.outputs.len(), 1);
    assert_eq!(f1.outputs[0].ty, "token.record");
}

#[test]
fn test_parse_finalizes() {
    let c = parse(SAMPLE).unwrap();
    assert_eq!(c.finalizes.len(), 1);

    let f = &c.finalizes[0];
    assert_eq!(f.name, "mint_public");
    assert_eq!(f.inputs.len(), 2);
    assert_eq!(f.outputs.len(), 0);
}

#[test]
fn test_parse_type_visibility() {
    assert_eq!(
        parse_type_visibility("address.private"),
        ("address".to_string(), Visibility::Private)
    );
    assert_eq!(
        parse_type_visibility("u64.public"),
        ("u64".to_string(), Visibility::Public)
    );
    assert_eq!(
        parse_type_visibility("u8.constant"),
        ("u8".to_string(), Visibility::Constant)
    );
    assert_eq!(
        parse_type_visibility("token.record"),
        ("token.record".to_string(), Visibility::Unspecified)
    );
    assert_eq!(
        parse_type_visibility("token.aleo/mint_public.future"),
        ("token.aleo/mint_public.future".to_string(), Visibility::Unspecified)
    );
    assert_eq!(
        parse_type_visibility("address"),
        ("address".to_string(), Visibility::Unspecified)
    );
}

#[test]
fn test_error_no_program() {
    let result = parse("");
    assert!(result.is_err());
    assert!(matches!(result.unwrap_err(), ParseError::NoProgram));
}

#[test]
fn test_error_missing_program_keyword() {
    let result = parse("not a program declaration;\n");
    assert!(result.is_err());
}

#[test]
fn test_parse_full_token_contract() {
    let full = r#"program token.aleo;

record token:
    owner as address.private;
    amount as u64.private;

mapping account:
    key as address.public;
    value as u64.public;

function mint_public:
    input r0 as address.public;
    input r1 as u64.public;
    async mint_public r0 r1 into r2;
    output r2 as token.aleo/mint_public.future;

finalize mint_public:
    input r0 as address.public;
    input r1 as u64.public;
    get.or_use account[r0] 0u64 into r2;
    add r2 r1 into r3;
    set r3 into account[r0];

function mint_private:
    input r0 as address.private;
    input r1 as u64.private;
    cast r0 r1 into r2 as token.record;
    output r2 as token.record;

function transfer_public:
    input r0 as address.public;
    input r1 as u64.public;
    async transfer_public self.caller r0 r1 into r2;
    output r2 as token.aleo/transfer_public.future;

finalize transfer_public:
    input r0 as address.public;
    input r1 as address.public;
    input r2 as u64.public;
    get.or_use account[r0] 0u64 into r3;
    sub r3 r2 into r4;
    set r4 into account[r0];
    get.or_use account[r1] 0u64 into r5;
    add r5 r2 into r6;
    set r6 into account[r1];

function transfer_private:
    input r0 as token.record;
    input r1 as address.private;
    input r2 as u64.private;
    sub r0.amount r2 into r3;
    cast r0.owner r3 into r4 as token.record;
    cast r1 r2 into r5 as token.record;
    output r4 as token.record;
    output r5 as token.record;

function transfer_private_to_public:
    input r0 as token.record;
    input r1 as address.public;
    input r2 as u64.public;
    sub r0.amount r2 into r3;
    cast r0.owner r3 into r4 as token.record;
    async transfer_private_to_public r1 r2 into r5;
    output r4 as token.record;
    output r5 as token.aleo/transfer_private_to_public.future;

finalize transfer_private_to_public:
    input r0 as address.public;
    input r1 as u64.public;
    get.or_use account[r0] 0u64 into r2;
    add r2 r1 into r3;
    set r3 into account[r0];

function transfer_public_to_private:
    input r0 as address.public;
    input r1 as u64.public;
    cast r0 r1 into r2 as token.record;
    async transfer_public_to_private self.caller r1 into r3;
    output r2 as token.record;
    output r3 as token.aleo/transfer_public_to_private.future;

finalize transfer_public_to_private:
    input r0 as address.public;
    input r1 as u64.public;
    get.or_use account[r0] 0u64 into r2;
    sub r2 r1 into r3;
    set r3 into account[r0];

constructor:
    assert.eq edition 0u16;
"#;

    let c = parse(full).unwrap();

    assert_eq!(c.program, "token.aleo");
    assert_eq!(c.records.len(), 1);
    assert_eq!(c.mappings.len(), 1);
    assert_eq!(c.functions.len(), 6);
    assert_eq!(c.finalizes.len(), 4);

    let transfer_priv = c
        .functions
        .iter()
        .find(|f| f.name == "transfer_private")
        .unwrap();
    assert_eq!(transfer_priv.outputs.len(), 2);
    assert_eq!(transfer_priv.outputs[0].ty, "token.record");
    assert_eq!(transfer_priv.outputs[1].ty, "token.record");
}

// ---------------------------------------------------------------------------
// Further cases
// ---------------------------------------------------------------------------

#[test]
fn type_visibility_writes_back() {
    for s in ["address.private", "u64.public", "u8.constant", "token.record", "address", "a.b.public"] {
        let (ty, vis) = parse_type_visibility(s);
        assert_eq!(format_type_vis(&ty, vis), s);
    }
}

#[test]
fn type_visibility_reads_back() {
    assert_eq!(
        parse_type_visibility(&format_type_vis("u64", Visibility::Public)),
        ("u64".to_string(), Visibility::Public)
    );
    assert_eq!(
        parse_type_visibility(&format_type_vis("token.record", Visibility::Unspecified)),
        ("token.record".to_string(), Visibility::Unspecified)
    );
    // a type that itself ends in a visibility does not read back
    assert_eq!(
        parse_type_visibility(&format_type_vis("x.public", Visibility::Unspecified)),
        ("x".to_string(), Visibility::Public)
    );
}

#[test]
fn syntax_error_names_the_line() {
    let src = "program t.aleo;\n\nrecord :\n    owner as address.private;\n";
    match parse(src) {
        Err(e) => {
            assert!(matches!(e, ParseError::Syntax { line: 3, .. }));
            assert_eq!(e.message(), "line 3: record name is empty");
        }
        Ok(_) => panic!("expected a syntax error"),
    }
    let header = parse("module x;\n").unwrap_err();
    assert_eq!(header.message(), "line 1: expected 'program xxx.aleo;', got: module x;");
    assert_eq!(ParseError::NoProgram.message(), "missing program declaration");
}

#[test]
fn field_and_param_lines() {
    let f = parse_field_line("owner as address.private;", 3).unwrap();
    assert_eq!(f.name, "owner");
    assert_eq!(f.ty, "address");
    assert_eq!(f.visibility, Visibility::Private);
    assert!(matches!(parse_field_line("owner address", 7), Err(ParseError::Syntax { line: 7, .. })));

    let p = parse_param("r0 as token.record").unwrap();
    assert_eq!(p.register, "r0");
    assert_eq!(p.ty, "token.record");
    assert_eq!(p.visibility, Visibility::Unspecified);
    assert!(parse_param("r0 token").is_none());
}

#[test]
fn block_headers() {
    assert!(Parser::is_block_header("record token:"));
    assert!(Parser::is_block_header("function mint:"));
    assert!(Parser::is_block_header("constructor:"));
    assert!(!Parser::is_block_header("input r0 as u64.public;"));
    assert_eq!(Visibility::Private.name(), "private");
    assert_eq!(Visibility::Unspecified.name(), "");
}
