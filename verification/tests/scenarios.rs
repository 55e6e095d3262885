//! End-to-end scenarios: source text in, emitted module inspected.

use tinylang::compile::compile;
use tinylang::ir::{BinOp, BlockTag, Instr, IrType, Module, Pred, Ty, Val};
use tinylang::token::{Cursor, Lit, Span, Token, TokenKind};

/// A minimal lexer for the test sources: identifiers, integer literals,
/// double-quoted strings, and punctuation particles whose flag says the next
/// character is adjacent punctuation.
fn lex(src: &str) -> Vec<Token> {
    let bytes: Vec<char> = src.chars().collect();
    let mut out = Vec::new();
    let mut i = 0;
    while i < bytes.len() {
        let c = bytes[i];
        if c.is_whitespace() {
            i += 1;
            continue;
        }
        let lo = i;
        if c.is_alphabetic() || c == '_' {
            let mut s = String::new();
            while i < bytes.len() && (bytes[i].is_alphanumeric() || bytes[i] == '_') {
                s.push(bytes[i]);
                i += 1;
            }
            out.push(Token { kind: TokenKind::Ident(s), span: Span { lo, hi: i } });
        } else if c.is_ascii_digit() {
            let mut n: i128 = 0;
            while i < bytes.len() && bytes[i].is_ascii_digit() {
                n = n * 10 + (bytes[i] as i128 - '0' as i128);
                i += 1;
            }
            out.push(Token { kind: TokenKind::Literal(Lit::Int(n)), span: Span { lo, hi: i } });
        } else if c == '"' {
            let mut s = String::new();
            i += 1;
            while i < bytes.len() && bytes[i] != '"' {
                s.push(bytes[i]);
                i += 1;
            }
            i += 1;
            out.push(Token { kind: TokenKind::Literal(Lit::Str(s)), span: Span { lo, hi: i } });
        } else {
            let joined = i + 1 < bytes.len() && !bytes[i + 1].is_whitespace()
                && !bytes[i + 1].is_alphanumeric() && bytes[i + 1] != '"' && bytes[i + 1] != '_';
            out.push(Token { kind: TokenKind::Particle(c, joined), span: Span { lo, hi: i + 1 } });
            i += 1;
        }
    }
    out
}

fn compile_src(src: &str) -> Module {
    compile(&mut Cursor::new(lex(src)), "m").expect("program should compile")
}

fn user_main(m: &Module) -> &tinylang::ir::FnDef {
    m.functions
        .iter()
        .find(|f| f.name == "__user_main")
        .expect("user main should be in the module")
}

#[test]
fn empty_main_module_shape() {
    let m = compile_src("fn main do end");
    // the synthesized entry owns the IR name `main`
    assert_eq!(m.functions[0].name, "main");
    assert_eq!(
        m.functions.iter().filter(|f| f.name == "main").count(),
        1
    );
    // entry: one block, a call to the user main, ret-void
    assert_eq!(m.functions[0].blocks.len(), 1);
    let entry = &m.functions[0].blocks[0].instrs;
    assert_eq!(entry.len(), 2);
    match &entry[0] {
        Instr::Call { callee, args, .. } => {
            assert_eq!(args.len(), 0);
            match callee {
                Val::Func(u) => assert_eq!(m.functions[*u].name, "__user_main"),
                other => panic!("entry should call a function handle, got {other:?}"),
            }
        }
        other => panic!("expected a call, got {other:?}"),
    }
    assert_eq!(entry[1], Instr::RetVoid);
    // the user main: void, one block holding a single ret-void
    let um = user_main(&m);
    assert_eq!(um.blocks.len(), 1);
    assert_eq!(um.blocks[0].instrs, vec![Instr::RetVoid]);
}

#[test]
fn const_extern_and_call() {
    let m = compile_src(
        "const ptr s is \"hi\" extern fn puts with ptr p do fn main do call puts with s end end",
    );
    assert_eq!(m.globals.len(), 1);
    assert_eq!(m.globals[0].name, "s");
    assert_eq!(m.globals[0].text, "hi");
    let puts = m.functions.iter().find(|f| f.name == "puts").expect("puts declared");
    assert!(!puts.defined);
    assert_eq!(puts.ty.ret, IrType::Void);
    assert_eq!(puts.ty.params, vec![IrType::Ptr]);
    let um = user_main(&m);
    let instrs = &um.blocks[0].instrs;
    assert_eq!(instrs.len(), 2);
    match &instrs[0] {
        Instr::Call { ty, callee, args } => {
            assert_eq!(args.as_slice(), &[Val::Global(0)]);
            match ty {
                Ty::Fn(ft) => assert_eq!(ft.params, vec![IrType::Ptr]),
                other => panic!("call should carry a function type, got {other:?}"),
            }
            let puts_idx = m.functions.iter().position(|f| f.name == "puts").unwrap();
            assert_eq!(*callee, Val::Func(puts_idx));
        }
        other => panic!("expected a call, got {other:?}"),
    }
    assert_eq!(instrs[1], Instr::RetVoid);
}

#[test]
fn max_with_early_return() {
    let m = compile_src(
        "fn max i32 with i32 a i32 b do if call > with a b end do return a end return b end \
         fn main do end",
    );
    let max = m.functions.iter().find(|f| f.name == "max").unwrap();
    assert_eq!(max.ty.ret, IrType::I32);
    assert_eq!(max.blocks.len(), 4);
    let entry = &max.blocks[0].instrs;
    let a = Val::Param { func: 1, index: 0 };
    let b = Val::Param { func: 1, index: 1 };
    assert_eq!(entry[0], Instr::Cmp { pred: Pred::Sgt, lhs: a, rhs: b });
    assert_eq!(entry[1], Instr::CondBr { cond: Val::Reg(0), if_true: 1, if_false: 2 });
    // the then arm returns `a` and, having diverged, gets no join edge
    assert_eq!(max.blocks[1].tag, BlockTag::Then);
    assert_eq!(max.blocks[1].instrs, vec![Instr::Ret { val: a }]);
    // the empty else arm falls through to the continuation
    assert_eq!(max.blocks[2].tag, BlockTag::Else);
    assert_eq!(max.blocks[2].instrs, vec![Instr::Br { target: 3 }]);
    // which returns `b`
    assert_eq!(max.blocks[3].tag, BlockTag::IfCont);
    assert_eq!(max.blocks[3].instrs, vec![Instr::Ret { val: b }]);
}

#[test]
fn while_loop_block_layout() {
    let m = compile_src(
        "fn main do var i32 i is literal i32 0 \
         while call < with i literal i32 10 end do \
         update i to call + with i literal i32 1 end end end",
    );
    let um = user_main(&m);
    assert_eq!(um.blocks.len(), 4);
    let entry = &um.blocks[0].instrs;
    // alloca, store 0, br cond
    assert_eq!(entry[0], Instr::Alloca { ty: IrType::I32 });
    let slot = Val::Reg(0);
    assert_eq!(
        entry[1],
        Instr::Store { val: Val::ConstInt { ty: IrType::I32, value: 0 }, addr: slot }
    );
    assert_eq!(entry[2], Instr::Br { target: 1 });
    // cond: load, icmp slt 10, condbr body/cont
    let cond = &um.blocks[1].instrs;
    assert_eq!(um.blocks[1].tag, BlockTag::Cond);
    assert_eq!(cond[0], Instr::Load { ty: IrType::I32, addr: slot });
    assert_eq!(
        cond[1],
        Instr::Cmp {
            pred: Pred::Slt,
            lhs: Val::Reg(1),
            rhs: Val::ConstInt { ty: IrType::I32, value: 10 },
        }
    );
    assert_eq!(cond[2], Instr::CondBr { cond: Val::Reg(2), if_true: 2, if_false: 3 });
    // body: load, add 1, store, back-edge to cond
    let body = &um.blocks[2].instrs;
    assert_eq!(um.blocks[2].tag, BlockTag::Body);
    assert_eq!(body[0], Instr::Load { ty: IrType::I32, addr: slot });
    assert_eq!(
        body[1],
        Instr::Bin {
            op: BinOp::Add,
            lhs: Val::Reg(3),
            rhs: Val::ConstInt { ty: IrType::I32, value: 1 },
        }
    );
    assert_eq!(body[2], Instr::Store { val: Val::Reg(4), addr: slot });
    assert_eq!(body[3], Instr::Br { target: 1 });
    // cont: the implicit void return
    assert_eq!(um.blocks[3].tag, BlockTag::WhileCont);
    assert_eq!(um.blocks[3].instrs, vec![Instr::RetVoid]);
}

#[test]
fn bool_condition_and_empty_arms() {
    let m = compile_src("fn main do let bool b be literal bool 1 if b do else end end");
    let um = user_main(&m);
    assert_eq!(um.blocks.len(), 4);
    let c = Val::ConstInt { ty: IrType::I1, value: 1 };
    // the let emitted nothing; the branch condition is the constant itself
    assert_eq!(
        um.blocks[0].instrs,
        vec![Instr::CondBr { cond: c, if_true: 1, if_false: 2 }]
    );
    // both arms branch to the continuation; the empty else holds only that
    assert_eq!(um.blocks[1].instrs, vec![Instr::Br { target: 3 }]);
    assert_eq!(um.blocks[2].instrs, vec![Instr::Br { target: 3 }]);
    assert_eq!(um.blocks[3].instrs, vec![Instr::RetVoid]);
}

#[test]
fn typed_return_in_void_function_passes_through() {
    let m = compile_src("fn main do return call + with literal i32 2 literal i32 3 end end");
    let um = user_main(&m);
    let instrs = &um.blocks[0].instrs;
    // the add and the typed return, unchecked against the void declaration;
    // the block already ends in a terminator, so no void return is appended
    assert_eq!(
        instrs[0],
        Instr::Bin {
            op: BinOp::Add,
            lhs: Val::ConstInt { ty: IrType::I32, value: 2 },
            rhs: Val::ConstInt { ty: IrType::I32, value: 3 },
        }
    );
    assert_eq!(instrs[1], Instr::Ret { val: Val::Reg(0) });
    assert_eq!(instrs.len(), 2);
}

#[test]
fn elif_chain_nests_conditional_pairs() {
    let m = compile_src(
        "fn main do if literal bool 1 do elif literal bool 1 do elif literal bool 1 do end end",
    );
    let um = user_main(&m);
    let condbrs: usize = um
        .blocks
        .iter()
        .map(|bl| {
            bl.instrs
                .iter()
                .filter(|i| matches!(i, Instr::CondBr { .. }))
                .count()
        })
        .sum();
    assert_eq!(condbrs, 3);
    // each level contributes its then/else/continuation triple
    assert_eq!(
        um.blocks.iter().filter(|bl| bl.tag == BlockTag::Then).count(),
        3
    );
    assert_eq!(
        um.blocks.iter().filter(|bl| bl.tag == BlockTag::IfCont).count(),
        3
    );
}

#[test]
fn both_arms_returning_suppress_join_edges() {
    let m = compile_src(
        "fn sign i32 with i32 x do \
         if call < with x literal i32 0 end do return literal i32 0 end \
         return literal i32 1 end \
         fn main do end",
    );
    let f = m.functions.iter().find(|f| f.name == "sign").unwrap();
    // then arm returns; the else arm is empty and branches to the
    // continuation, which holds the trailing return
    assert_eq!(f.blocks[1].instrs.len(), 1);
    assert!(matches!(f.blocks[1].instrs[0], Instr::Ret { .. }));
    let m2 = compile_src(
        "fn pick i32 with i32 x do \
         if call < with x literal i32 0 end do return literal i32 0 \
         else return literal i32 1 end end \
         fn main do end",
    );
    let f2 = m2.functions.iter().find(|f| f.name == "pick").unwrap();
    // both arms end in return: no unconditional branch targets the
    // continuation block anywhere
    let cont = 3;
    assert_eq!(f2.blocks[cont].tag, BlockTag::IfCont);
    for bl in &f2.blocks {
        for i in &bl.instrs {
            assert!(!matches!(i, Instr::Br { target } if *target == cont));
        }
    }
}

#[test]
fn unused_declarations_stay_in_module() {
    let m = compile_src(
        "const ptr unused_text is \"x\" extern fn unused_fn do fn main do end",
    );
    assert_eq!(m.globals.len(), 1);
    assert_eq!(m.globals[0].name, "unused_text");
    assert!(m.functions.iter().any(|f| f.name == "unused_fn" && !f.defined));
}

#[test]
fn compiling_twice_yields_identical_modules() {
    let src = "const ptr s is \"hi\" extern fn puts with ptr p do \
               fn main do var i32 i is literal i32 0 \
               while call < with i literal i32 3 end do \
               call puts with s end update i to call + with i literal i32 1 end end end";
    let m1 = compile(&mut Cursor::new(lex(src)), "m").unwrap();
    let m2 = compile(&mut Cursor::new(lex(src)), "m").unwrap();
    assert_eq!(m1, m2);
}

#[test]
fn var_reads_load_and_let_reads_do_not() {
    let m = compile_src(
        "extern fn sink with i32 v do \
         fn main do var i32 x is literal i32 7 call sink with x end end",
    );
    let um = user_main(&m);
    let loads = um.blocks[0]
        .instrs
        .iter()
        .filter(|i| matches!(i, Instr::Load { .. }))
        .count();
    assert_eq!(loads, 1);
    let m2 = compile_src(
        "extern fn sink with i32 v do \
         fn main do let i32 x be literal i32 7 call sink with x end end",
    );
    let um2 = user_main(&m2);
    assert!(um2.blocks[0].instrs.iter().all(|i| !matches!(
        i,
        Instr::Load { .. } | Instr::Alloca { .. } | Instr::Store { .. }
    )));
    match &um2.blocks[0].instrs[0] {
        Instr::Call { args, .. } => {
            assert_eq!(args.as_slice(), &[Val::ConstInt { ty: IrType::I32, value: 7 }])
        }
        other => panic!("expected the call, got {other:?}"),
    }
}

#[test]
fn every_operator_lowers_to_one_instruction() {
    let cases: Vec<(&str, Instr)> = vec![
        ("+", Instr::Bin { op: BinOp::Add, lhs: one(), rhs: two() }),
        ("-", Instr::Bin { op: BinOp::Sub, lhs: one(), rhs: two() }),
        ("*", Instr::Bin { op: BinOp::Mul, lhs: one(), rhs: two() }),
        ("/", Instr::Bin { op: BinOp::SDiv, lhs: one(), rhs: two() }),
        ("&", Instr::Bin { op: BinOp::And, lhs: one(), rhs: two() }),
        ("|", Instr::Bin { op: BinOp::Or, lhs: one(), rhs: two() }),
        (">", Instr::Cmp { pred: Pred::Sgt, lhs: one(), rhs: two() }),
        (">=", Instr::Cmp { pred: Pred::Sge, lhs: one(), rhs: two() }),
        ("<", Instr::Cmp { pred: Pred::Slt, lhs: one(), rhs: two() }),
        ("<=", Instr::Cmp { pred: Pred::Sle, lhs: one(), rhs: two() }),
        ("==", Instr::Cmp { pred: Pred::Ieq, lhs: one(), rhs: two() }),
        ("!=", Instr::Cmp { pred: Pred::Ine, lhs: one(), rhs: two() }),
    ];
    for (op, expected) in cases {
        let src = format!(
            "fn main do let i32 x be call {op} with literal i32 1 literal i32 2 end end"
        );
        let m = compile_src(&src);
        let um = user_main(&m);
        assert_eq!(um.blocks[0].instrs[0], expected, "operator {op}");
        // exactly one instruction of the operator, then the void return
        assert_eq!(um.blocks[0].instrs.len(), 2, "operator {op}");
    }
}

fn one() -> Val {
    Val::ConstInt { ty: IrType::I32, value: 1 }
}

fn two() -> Val {
    Val::ConstInt { ty: IrType::I32, value: 2 }
}

#[test]
fn string_literal_makes_unnamed_global() {
    let m = compile_src(
        "extern fn puts with ptr p do fn main do call puts with literal ptr \"yo\" end end",
    );
    assert_eq!(m.globals.len(), 1);
    assert_eq!(m.globals[0].name, "");
    assert_eq!(m.globals[0].text, "yo");
}

#[test]
fn integer_literal_truncates_into_low_bits() {
    // a narrow constant keeps only the requested width: 300 mod 256 == 44
    let m = compile_src("fn f i8 do return literal i8 300 end fn main do end");
    let f = m.functions.iter().find(|f| f.name == "f").unwrap();
    assert_eq!(
        f.blocks[0].instrs[0],
        Instr::Ret { val: Val::ConstInt { ty: IrType::I8, value: 44 } }
    );
    // a wide literal first wraps into the 64-bit immediate
    let m2 = compile_src("fn g i64 do return literal i64 18446744073709551617 end fn main do end");
    let g = m2.functions.iter().find(|f| f.name == "g").unwrap();
    assert_eq!(
        g.blocks[0].instrs[0],
        Instr::Ret { val: Val::ConstInt { ty: IrType::I64, value: 1 } }
    );
}

#[test]
fn branch_local_bindings_do_not_escape() {
    // `y` is declared inside the arm; reading it after the join fails
    let r = compile(
        &mut Cursor::new(lex(
            "fn main do if literal bool 1 do let i32 y be literal i32 1 end update z to y end",
        )),
        "m",
    );
    assert!(r.is_err());
}

#[test]
fn mutation_through_slots_survives_branches() {
    // updating an outer `var` inside an arm stores to the same slot
    let m = compile_src(
        "fn main do var i32 x is literal i32 0 \
         if literal bool 1 do update x to literal i32 1 end end",
    );
    let um = user_main(&m);
    let slot = Val::Reg(0);
    // the then arm stores through the outer slot
    assert_eq!(
        um.blocks[1].instrs[0],
        Instr::Store { val: Val::ConstInt { ty: IrType::I32, value: 1 }, addr: slot }
    );
}

#[test]
fn nested_control_flow_keeps_outer_blocks_intact() {
    let m = compile_src(
        "fn main do var i32 i is literal i32 0 \
         while call < with i literal i32 4 end do \
         if call == with i literal i32 2 end do \
         update i to literal i32 4 \
         else update i to call + with i literal i32 1 end end end end",
    );
    let um = user_main(&m);
    // entry, cond, body, whilecont, then, else, ifcont
    assert_eq!(um.blocks.len(), 7);
    // the loop's back-edge leaves the inner join block, not the body block
    assert_eq!(um.blocks[6].tag, BlockTag::IfCont);
    assert_eq!(um.blocks[6].instrs.last(), Some(&Instr::Br { target: 1 }));
    // the condition block still ends in its conditional branch
    assert!(matches!(
        um.blocks[1].instrs.last(),
        Some(Instr::CondBr { if_true: 2, if_false: 3, .. })
    ));
}

#[test]
fn return_inside_loop_body_suppresses_back_edge() {
    let m = compile_src(
        "fn main do while literal bool 1 do return end end end",
    );
    let um = user_main(&m);
    // body: just the return; no unconditional branch back to the condition
    assert_eq!(um.blocks[2].tag, BlockTag::Body);
    assert_eq!(um.blocks[2].instrs, vec![Instr::RetVoid]);
}

#[test]
fn globals_appear_in_emission_order() {
    // a named constant, then a body string literal, then another constant
    let m = compile_src(
        "const ptr a is \"x\" \
         extern fn puts with ptr p do \
         fn main do call puts with literal ptr \"y\" end end \
         const ptr b is \"z\"",
    );
    let names: Vec<&str> = m.globals.iter().map(|g| g.name.as_str()).collect();
    let texts: Vec<&str> = m.globals.iter().map(|g| g.text.as_str()).collect();
    assert_eq!(names, vec!["a", "", "b"]);
    assert_eq!(texts, vec!["x", "y", "z"]);
}
