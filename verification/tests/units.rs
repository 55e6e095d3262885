//! Component-level tests: cursor, environments, type mapper, signature
//! parser, and the error taxonomy.

use tinylang::compile::{compile, ty_str_to_ty};
use tinylang::diag::CompileError;
use tinylang::env::{get_var, Binding, Env};
use tinylang::ir::{IrType, Ty, Val};
use tinylang::sig::fn_sig;
use tinylang::token::{Cursor, Lit, Span, Token, TokenKind};

fn sp() -> Span {
    Span { lo: 0, hi: 0 }
}

fn ident(s: &str) -> Token {
    Token { kind: TokenKind::Ident(s.to_string()), span: sp() }
}

fn lit_int(n: i128) -> Token {
    Token { kind: TokenKind::Literal(Lit::Int(n)), span: sp() }
}

fn idents(src: &str) -> Vec<Token> {
    src.split_whitespace().map(ident).collect()
}

#[test]
fn cursor_peek_advance_rewind() {
    let mut c = Cursor::new(idents("a b"));
    assert_eq!(c.this().unwrap().kind, TokenKind::Ident("a".to_string()));
    c.next();
    assert_eq!(c.this().unwrap().kind, TokenKind::Ident("b".to_string()));
    c.rewind();
    assert_eq!(c.this().unwrap().kind, TokenKind::Ident("a".to_string()));
    c.next();
    c.next();
    assert!(matches!(c.this(), Err(CompileError::UnexpectedEof)));
}

#[test]
fn type_mapper_closed_set() {
    assert_eq!(ty_str_to_ty("void").unwrap(), IrType::Void);
    assert_eq!(ty_str_to_ty("bool").unwrap(), IrType::I1);
    assert_eq!(ty_str_to_ty("ptr").unwrap(), IrType::Ptr);
    assert_eq!(ty_str_to_ty("i8").unwrap(), IrType::I8);
    assert_eq!(ty_str_to_ty("i32").unwrap(), IrType::I32);
    assert_eq!(ty_str_to_ty("i64").unwrap(), IrType::I64);
    assert_eq!(ty_str_to_ty("i128").unwrap(), IrType::I128);
    assert!(matches!(
        ty_str_to_ty("f32"),
        Err(CompileError::UnknownType { .. })
    ));
}

#[test]
fn environment_lookup_prefers_local_and_latest() {
    let mut globals = Env::new();
    let mut locals = Env::new();
    globals.insert(
        "x".to_string(),
        Binding::Direct { ty: Ty::Scalar(IrType::I32), val: Val::Global(0) },
    );
    assert!(matches!(
        get_var("x", sp(), &globals, &locals),
        Ok(Binding::Direct { val: Val::Global(0), .. })
    ));
    locals.insert(
        "x".to_string(),
        Binding::Slot { ty: IrType::I32, addr: Val::Reg(1) },
    );
    assert!(matches!(
        get_var("x", sp(), &globals, &locals),
        Ok(Binding::Slot { addr: Val::Reg(1), .. })
    ));
    locals.insert(
        "x".to_string(),
        Binding::Slot { ty: IrType::I64, addr: Val::Reg(2) },
    );
    assert!(matches!(
        get_var("x", sp(), &globals, &locals),
        Ok(Binding::Slot { addr: Val::Reg(2), .. })
    ));
    assert!(matches!(
        get_var("y", sp(), &globals, &locals),
        Err(CompileError::UndefinedVariable { .. })
    ));
}

#[test]
fn signature_bare() {
    let mut c = Cursor::new(idents("fn f do"));
    let (name, ret, params, vararg) = fn_sig(&mut c).unwrap();
    assert_eq!(name, "f");
    assert_eq!(ret, None);
    assert!(params.is_empty());
    assert!(!vararg);
    assert_eq!(c.index, 3);
}

#[test]
fn signature_with_return_type() {
    let mut c = Cursor::new(idents("fn f i32 end"));
    let (name, ret, params, vararg) = fn_sig(&mut c).unwrap();
    assert_eq!(name, "f");
    assert_eq!(ret.as_deref(), Some("i32"));
    assert!(params.is_empty());
    assert!(!vararg);
}

#[test]
fn signature_with_params() {
    let mut c = Cursor::new(idents("fn add i32 with i32 a i32 b do"));
    let (name, ret, params, vararg) = fn_sig(&mut c).unwrap();
    assert_eq!(name, "add");
    assert_eq!(ret.as_deref(), Some("i32"));
    assert_eq!(
        params,
        vec![
            ("i32".to_string(), "a".to_string()),
            ("i32".to_string(), "b".to_string())
        ]
    );
    assert!(!vararg);
}

#[test]
fn signature_vararg() {
    let mut c = Cursor::new(idents("fn printf i32 with vararg ptr fmt do"));
    let (name, ret, params, vararg) = fn_sig(&mut c).unwrap();
    assert_eq!(name, "printf");
    assert_eq!(ret.as_deref(), Some("i32"));
    assert_eq!(params, vec![("ptr".to_string(), "fmt".to_string())]);
    assert!(vararg);
}

#[test]
fn signature_rejects_missing_name() {
    let mut c = Cursor::new(idents("fn"));
    assert!(matches!(fn_sig(&mut c), Err(CompileError::UnexpectedEof)));
    let mut c2 = Cursor::new(vec![ident("fn"), lit_int(3)]);
    assert!(matches!(
        fn_sig(&mut c2),
        Err(CompileError::ParseMismatch { .. })
    ));
}

#[test]
fn missing_entry_point_is_fatal() {
    let r = compile(&mut Cursor::new(idents("extern fn puts with ptr p do")), "m");
    assert!(matches!(r, Err(CompileError::MissingEntryPoint)));
    let r2 = compile(&mut Cursor::new(Vec::new()), "m");
    assert!(matches!(r2, Err(CompileError::MissingEntryPoint)));
}

#[test]
fn unknown_type_in_var_is_fatal() {
    let toks = idents("fn main do var f32 x is literal i32 0 end");
    assert!(matches!(
        compile(&mut Cursor::new(toks), "m"),
        Err(CompileError::UnknownType { .. })
    ));
}

#[test]
fn undefined_variable_is_fatal() {
    let toks = idents("fn main do update nope to literal i32 0 end");
    assert!(matches!(
        compile(&mut Cursor::new(toks), "m"),
        Err(CompileError::UndefinedVariable { .. })
    ));
}

#[test]
fn char_and_float_literals_are_unimplemented() {
    let toks = vec![
        ident("fn"),
        ident("main"),
        ident("do"),
        ident("let"),
        ident("i8"),
        ident("c"),
        ident("be"),
        ident("literal"),
        ident("i8"),
        Token { kind: TokenKind::Literal(Lit::Char('x')), span: sp() },
        ident("end"),
    ];
    assert!(matches!(
        compile(&mut Cursor::new(toks), "m"),
        Err(CompileError::Unimplemented { .. })
    ));
    let toks2 = vec![
        ident("fn"),
        ident("main"),
        ident("do"),
        ident("let"),
        ident("i8"),
        ident("c"),
        ident("be"),
        ident("literal"),
        ident("i8"),
        Token { kind: TokenKind::Literal(Lit::Float), span: sp() },
        ident("end"),
    ];
    assert!(matches!(
        compile(&mut Cursor::new(toks2), "m"),
        Err(CompileError::Unimplemented { .. })
    ));
}

#[test]
fn malformed_literal_is_fatal() {
    // `literal` followed by an identifier instead of a literal token
    let toks = idents("fn main do let i32 x be literal i32 oops end");
    assert!(matches!(
        compile(&mut Cursor::new(toks), "m"),
        Err(CompileError::MalformedLiteral { .. })
    ));
}

#[test]
fn const_requires_string_literal() {
    let mut toks = idents("const i32 n is");
    toks.push(lit_int(5));
    toks.extend(idents("fn main do end"));
    assert!(matches!(
        compile(&mut Cursor::new(toks), "m"),
        Err(CompileError::ParseMismatch { .. })
    ));
}

#[test]
fn top_level_rejects_stray_tokens() {
    assert!(matches!(
        compile(&mut Cursor::new(idents("blah")), "m"),
        Err(CompileError::ParseMismatch { .. })
    ));
    assert!(matches!(
        compile(&mut Cursor::new(vec![lit_int(1)]), "m"),
        Err(CompileError::ParseMismatch { .. })
    ));
}

#[test]
fn unterminated_body_is_eof() {
    let toks = idents("fn main do");
    assert!(matches!(
        compile(&mut Cursor::new(toks), "m"),
        Err(CompileError::UnexpectedEof)
    ));
}

#[test]
fn bool_literal_token_lowers_to_one_bit() {
    let toks = vec![
        ident("fn"),
        ident("main"),
        ident("do"),
        ident("let"),
        ident("bool"),
        ident("b"),
        ident("be"),
        ident("literal"),
        ident("i32"), // the keyword is required but ignored for bools
        Token { kind: TokenKind::Literal(Lit::Bool(true)), span: sp() },
        ident("end"),
    ];
    let m = compile(&mut Cursor::new(toks), "m").unwrap();
    assert_eq!(m.functions.len(), 2);
}

#[test]
fn bound_names_can_shadow_in_inner_scopes() {
    // a fresh `var x` inside the loop body shadows the outer binding only
    // inside the body
    let src = idents(
        "fn main do var i32 x is literal i32 0 \
         while literal bool 1 do var i32 x is literal i32 1 end \
         update x to literal i32 2 end",
    );
    // the number words need integer tokens, not identifiers
    let mut toks = Vec::new();
    for t in src {
        match &t.kind {
            TokenKind::Ident(w) if w.chars().all(|c| c.is_ascii_digit()) => {
                toks.push(lit_int(w.parse().unwrap()));
            }
            _ => toks.push(t),
        }
    }
    assert!(compile(&mut Cursor::new(toks), "m").is_ok());
}

#[test]
fn unknown_operator_spelling_is_unimplemented() {
    // `%` is grammatically a callee but has no lowering
    let toks = vec![
        ident("fn"),
        ident("main"),
        ident("do"),
        ident("call"),
        Token { kind: TokenKind::Particle('%', false), span: sp() },
        ident("with"),
        ident("literal"),
        ident("i32"),
        lit_int(1),
        ident("literal"),
        ident("i32"),
        lit_int(2),
        ident("end"),
        ident("end"),
    ];
    assert!(matches!(
        compile(&mut Cursor::new(toks), "m"),
        Err(CompileError::Unimplemented { .. })
    ));
}

#[test]
fn operator_with_missing_operands_is_rejected() {
    let toks = vec![
        ident("fn"),
        ident("main"),
        ident("do"),
        ident("call"),
        Token { kind: TokenKind::Particle('+', false), span: sp() },
        ident("end"),
        ident("end"),
    ];
    assert!(matches!(
        compile(&mut Cursor::new(toks), "m"),
        Err(CompileError::ParseMismatch { .. })
    ));
}

#[test]
fn parse_errors_split_by_position() {
    // a bad continuator with a following token is a mismatch...
    let mut c = Cursor::new(idents("fn f i32 foo bar"));
    assert!(matches!(
        fn_sig(&mut c),
        Err(CompileError::ParseMismatch { .. })
    ));
    // ...while a grammar stall at the end of the stream is end-of-input
    // (the diagnostic location comes from the token after the offender)
    let mut c2 = Cursor::new(idents("fn f i32 foo"));
    assert!(matches!(fn_sig(&mut c2), Err(CompileError::UnexpectedEof)));
    let mut c3 = Cursor::new(idents("fn f i32 with i32"));
    assert!(matches!(fn_sig(&mut c3), Err(CompileError::UnexpectedEof)));
}

#[test]
fn const_at_stream_end_is_eof() {
    let toks = idents("const ptr s is");
    assert!(matches!(
        compile(&mut Cursor::new(toks), "m"),
        Err(CompileError::UnexpectedEof)
    ));
}
