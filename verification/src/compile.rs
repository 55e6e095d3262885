//! The single-pass recursive-descent parser/code-generator.
//!
//! Tokens in, IR out: each procedure consumes part of the token stream and
//! appends to the module under construction through the builder.  Contracts
//! are stated over the mathematical views of the cursor, the builder and the
//! environments.
//!
//! Two relations thread through everything the compiler emits:
//! `expr_frame` (expressions append only non-terminator instructions to the
//! current block, and possibly global constants) and `stmt_frame`
//! (statements grow only the current block and freshly created blocks, and
//! every branch they emit targets a block created at or after their own
//! entry).  The second is what makes join-edge suppression provable: nothing
//! compiled inside a construct can branch to a block older than the
//! construct.

use crate::diag::CompileError;
use crate::env::{get_var, Binding, BindingV, Env};
use crate::ir::{
    branch_targets_at_least, fn_extended, is_terminator, lemma_module_extended_grow,
    lemma_module_extended_refl, lemma_new_branches_bounded_trans, module_extended,
    new_branches_bounded, same_except_cur, BinOp, BlockTag, BlockV, Builder, FnTyV, FnType, FnV,
    GlobalV, Instr, InstrV, IrType, Module, ModuleV, Pred, Ty, TyV, Val,
};
use crate::sig::fn_sig;
use crate::token::{
    ident_at, lemma_strs_in_concat, lemma_strs_in_one, str_eq, strs_in, Cursor, Lit, Token,
    TokenKind,
};
use vstd::prelude::*;
use vstd::seq_lib::*;
use vstd::string::StringExecFns;

verus! {

// ---------------------------------------------------------------------------
// The type mapper
// ---------------------------------------------------------------------------
/// The closed set of type keywords and their IR types.
pub open spec fn spec_ty_of(s: Seq<char>) -> Option<IrType> {
    if s == "void"@ {
        Some(IrType::Void)
    } else if s == "bool"@ {
        Some(IrType::I1)
    } else if s == "ptr"@ {
        Some(IrType::Ptr)
    } else if s == "i8"@ {
        Some(IrType::I8)
    } else if s == "i32"@ {
        Some(IrType::I32)
    } else if s == "i64"@ {
        Some(IrType::I64)
    } else if s == "i128"@ {
        Some(IrType::I128)
    } else {
        None
    }
}

/// Map a type keyword to its IR type; any keyword outside the closed set is
/// an `UnknownType` error.
pub fn ty_str_to_ty(ty: &str) -> (r: Result<IrType, CompileError>)
    ensures
        r is Ok <==> spec_ty_of(ty@) is Some,
        r is Ok ==> Some(r->Ok_0) == spec_ty_of(ty@),
        r is Err ==> (r->Err_0 matches CompileError::UnknownType { keyword } && keyword@ == ty@),
{
    if str_eq(ty, "void") {
        Ok(IrType::Void)
    } else if str_eq(ty, "bool") {
        Ok(IrType::I1)
    } else if str_eq(ty, "ptr") {
        Ok(IrType::Ptr)
    } else if str_eq(ty, "i8") {
        Ok(IrType::I8)
    } else if str_eq(ty, "i32") {
        Ok(IrType::I32)
    } else if str_eq(ty, "i64") {
        Ok(IrType::I64)
    } else if str_eq(ty, "i128") {
        Ok(IrType::I128)
    } else {
        Err(CompileError::UnknownType { keyword: String::from_str(ty) })
    }
}

// ---------------------------------------------------------------------------
// Operator lowering
// ---------------------------------------------------------------------------
/// How an operator spelling lowers: to arithmetic/bitwise, or to a signed
/// comparison.
#[derive(Debug, Clone, Copy, PartialEq, Eq, Structural)]
pub enum OpKind {
    Arith(BinOp),
    Compare(Pred),
}

/// The recognized operator spellings.
pub open spec fn spec_op_of(s: Seq<char>) -> Option<OpKind> {
    if s == "+"@ {
        Some(OpKind::Arith(BinOp::Add))
    } else if s == "-"@ {
        Some(OpKind::Arith(BinOp::Sub))
    } else if s == "*"@ {
        Some(OpKind::Arith(BinOp::Mul))
    } else if s == "/"@ {
        Some(OpKind::Arith(BinOp::SDiv))
    } else if s == "&"@ {
        Some(OpKind::Arith(BinOp::And))
    } else if s == "|"@ {
        Some(OpKind::Arith(BinOp::Or))
    } else if s == ">"@ {
        Some(OpKind::Compare(Pred::Sgt))
    } else if s == ">="@ {
        Some(OpKind::Compare(Pred::Sge))
    } else if s == "<"@ {
        Some(OpKind::Compare(Pred::Slt))
    } else if s == "<="@ {
        Some(OpKind::Compare(Pred::Sle))
    } else if s == "=="@ {
        Some(OpKind::Compare(Pred::Ieq))
    } else if s == "!="@ {
        Some(OpKind::Compare(Pred::Ine))
    } else {
        None
    }
}

/// The single instruction an operator lowers to, applied to its two
/// operands.
pub open spec fn op_instr(k: OpKind, a: Val, b: Val) -> InstrV {
    match k {
        OpKind::Arith(op) => InstrV::Bin { op, lhs: a, rhs: b },
        OpKind::Compare(pred) => InstrV::Cmp { pred, lhs: a, rhs: b },
    }
}

/// Decide an operator spelling, collected as characters.
fn op_of(op: &Vec<char>) -> (r: Option<OpKind>)
    ensures
        r == spec_op_of(op@),
{
    proof {
        reveal_strlit("+");
        reveal_strlit("-");
        reveal_strlit("*");
        reveal_strlit("/");
        reveal_strlit("&");
        reveal_strlit("|");
        reveal_strlit(">");
        reveal_strlit(">=");
        reveal_strlit("<");
        reveal_strlit("<=");
        reveal_strlit("==");
        reveal_strlit("!=");
    }
    if op.len() == 1 {
        let c = op[0];
        proof {
            assert(op@ =~= seq![op@[0]]);
        }
        if c == '+' {
            proof { assert(op@ =~= "+"@); }
            return Some(OpKind::Arith(BinOp::Add));
        }
        if c == '-' {
            proof { assert(op@ =~= "-"@); }
            return Some(OpKind::Arith(BinOp::Sub));
        }
        if c == '*' {
            proof { assert(op@ =~= "*"@); }
            return Some(OpKind::Arith(BinOp::Mul));
        }
        if c == '/' {
            proof { assert(op@ =~= "/"@); }
            return Some(OpKind::Arith(BinOp::SDiv));
        }
        if c == '&' {
            proof { assert(op@ =~= "&"@); }
            return Some(OpKind::Arith(BinOp::And));
        }
        if c == '|' {
            proof { assert(op@ =~= "|"@); }
            return Some(OpKind::Arith(BinOp::Or));
        }
        if c == '>' {
            proof { assert(op@ =~= ">"@); }
            return Some(OpKind::Compare(Pred::Sgt));
        }
        if c == '<' {
            proof { assert(op@ =~= "<"@); }
            return Some(OpKind::Compare(Pred::Slt));
        }
        None
    } else if op.len() == 2 {
        let c0 = op[0];
        let c1 = op[1];
        proof {
            assert(op@ =~= seq![op@[0], op@[1]]);
        }
        if c0 == '>' && c1 == '=' {
            proof { assert(op@ =~= ">="@); }
            return Some(OpKind::Compare(Pred::Sge));
        }
        if c0 == '<' && c1 == '=' {
            proof { assert(op@ =~= "<="@); }
            return Some(OpKind::Compare(Pred::Sle));
        }
        if c0 == '=' && c1 == '=' {
            proof { assert(op@ =~= "=="@); }
            return Some(OpKind::Compare(Pred::Ieq));
        }
        if c0 == '!' && c1 == '=' {
            proof { assert(op@ =~= "!="@); }
            return Some(OpKind::Compare(Pred::Ine));
        }
        None
    } else {
        None
    }
}

/// Build the instruction an operator lowers to.
fn make_op_instr(k: OpKind, a: Val, bv: Val) -> (r: Instr)
    ensures
        r@ == op_instr(k, a, bv),
{
    match k {
        OpKind::Arith(op) => Instr::Bin { op, lhs: a, rhs: bv },
        OpKind::Compare(pred) => Instr::Cmp { pred, lhs: a, rhs: bv },
    }
}

// ---------------------------------------------------------------------------
// Operator spelling reassembly
// ---------------------------------------------------------------------------
/// Extend an operator spelling: while the preceding particle was flagged as
/// adjacent and the next token is a particle, its character joins the
/// spelling.
pub open spec fn spec_op_str_ext(toks: Seq<Token>, k: int, joined: bool, acc: Seq<char>) -> (
    Seq<char>,
    int,
)
    decreases toks.len() - k,
{
    if joined && 0 <= k < toks.len() {
        match toks[k].kind {
            TokenKind::Particle(c, j) => spec_op_str_ext(toks, k + 1, j, acc.push(c)),
            _ => (acc, k),
        }
    } else {
        (acc, k)
    }
}

/// The operator spelling starting at token `i`, which must be a particle:
/// the particle's character followed by every adjacent particle.
pub open spec fn spec_op_str(toks: Seq<Token>, i: int) -> Option<(Seq<char>, int)> {
    if 0 <= i < toks.len() {
        match toks[i].kind {
            TokenKind::Particle(c, j) => Some(spec_op_str_ext(toks, i + 1, j, seq![c])),
            _ => None,
        }
    } else {
        None
    }
}

// ---------------------------------------------------------------------------
// Name resolution, and the entry-point renaming
// ---------------------------------------------------------------------------
/// Two-level lookup: the local environment first, then the global one.
pub open spec fn lookup2(
    g: Map<Seq<char>, BindingV>,
    l: Map<Seq<char>, BindingV>,
    k: Seq<char>,
) -> Option<BindingV> {
    if l.contains_key(k) {
        Some(l[k])
    } else if g.contains_key(k) {
        Some(g[k])
    } else {
        None
    }
}

/// The name a source-level function carries in the emitted module.  The
/// synthesized entry point owns the name `main` in IR, so the user-defined
/// `main` is emitted as `__user_main`; every other name is kept.
pub open spec fn ir_name_spec(k: Seq<char>) -> Seq<char> {
    if k == "main"@ {
        "__user_main"@
    } else {
        k
    }
}

fn ir_name(name: String) -> (r: String)
    ensures
        r@ == ir_name_spec(name@),
{
    if str_eq(name.as_str(), "main") {
        String::from_str("__user_main")
    } else {
        name
    }
}

/// No source-level function is ever emitted under the IR name `main`.
pub proof fn lemma_ir_name_not_main(k: Seq<char>)
    ensures
        ir_name_spec(k) != "main"@,
{
    reveal_strlit("main");
    reveal_strlit("__user_main");
    if k == "main"@ {
        assert(ir_name_spec(k).len() == 11);
    }
}

/// Every global binding that holds a function handle points at a function of
/// the module carrying the IR name of the bound source name.
pub open spec fn binding_fn_ok(m: ModuleV, k: Seq<char>, bv: BindingV) -> bool {
    match crate::compile::sym_val_of(bv) {
        Val::Func(u) => u < m.functions.len() && m.functions[u as int].name == ir_name_spec(k),
        _ => true,
    }
}

/// The value a symbol stores: the direct SSA value, or the slot address.
pub open spec fn sym_val_of(bv: BindingV) -> Val {
    match bv {
        BindingV::Direct { ty: _, val } => val,
        BindingV::Slot { ty: _, addr } => addr,
    }
}

pub open spec fn env_funcs_valid(m: ModuleV, e: Map<Seq<char>, BindingV>) -> bool {
    forall|k: Seq<char>| e.contains_key(k) ==> binding_fn_ok(m, k, #[trigger] e[k])
}

// ---------------------------------------------------------------------------
// Emission frames
// ---------------------------------------------------------------------------
/// What compiling an expression may do to the builder: append non-terminator
/// instructions to the current block, add global constants, and use up
/// result handles.  Position, block layout and everything already emitted
/// stay as they were.
pub open spec fn expr_frame(b0: Builder, b1: Builder) -> bool {
    &&& b1.func == b0.func
    &&& b1.block == b0.block
    &&& b1.next_reg >= b0.next_reg
    &&& b1.module@.name == b0.module@.name
    &&& b0.module@.globals.is_prefix_of(b1.module@.globals)
    &&& b1.module@.functions.len() == b0.module@.functions.len()
    &&& (forall|i: int|
        0 <= i < b0.module@.functions.len() && i != b0.func ==> #[trigger] b1.module@.functions[i]
            == b0.module@.functions[i])
    &&& b1.module@.functions[b0.func as int].name == b0.module@.functions[b0.func as int].name
    &&& b1.module@.functions[b0.func as int].ty == b0.module@.functions[b0.func as int].ty
    &&& b1.module@.functions[b0.func as int].defined == b0.module@.functions[b0.func as int].defined
    &&& b1.cur_blocks().len() == b0.cur_blocks().len()
    &&& (forall|j: int|
        0 <= j < b0.cur_blocks().len() && j != b0.block ==> #[trigger] b1.cur_blocks()[j]
            == b0.cur_blocks()[j])
    &&& b1.cur_blocks()[b0.block as int].tag == b0.cur_blocks()[b0.block as int].tag
    &&& b0.cur_instrs().is_prefix_of(b1.cur_instrs())
    &&& (forall|k: int|
        b0.cur_instrs().len() <= k < b1.cur_instrs().len() ==> !is_terminator(
            #[trigger] b1.cur_instrs()[k],
        ))
}

pub proof fn lemma_expr_frame_refl(b: Builder)
    requires
        b.wf(),
    ensures
        expr_frame(b, b),
{
    assert(b.cur_instrs().is_prefix_of(b.cur_instrs())) by {
        assert(b.cur_instrs().subrange(0, b.cur_instrs().len() as int) =~= b.cur_instrs());
    }
}

pub proof fn lemma_expr_frame_trans(b0: Builder, b1: Builder, b2: Builder)
    requires
        b0.wf(),
        expr_frame(b0, b1),
        expr_frame(b1, b2),
    ensures
        expr_frame(b0, b2),
{
    assert(b0.module@.globals.is_prefix_of(b2.module@.globals)) by {
        assert(b0.module@.globals =~= b2.module@.globals.subrange(
            0,
            b0.module@.globals.len() as int,
        ));
    }
    assert(b0.cur_instrs().is_prefix_of(b2.cur_instrs())) by {
        assert(b0.cur_instrs() =~= b2.cur_instrs().subrange(0, b0.cur_instrs().len() as int));
    }
    assert forall|k: int|
        b0.cur_instrs().len() <= k < b2.cur_instrs().len() implies !is_terminator(
        #[trigger] b2.cur_instrs()[k],
    ) by {
        if k < b1.cur_instrs().len() {
            assert(b2.cur_instrs()[k] == b1.cur_instrs()[k]);
        }
    }
}

/// Appending one non-terminator instruction at the insertion point is within
/// the expression frame.
pub proof fn lemma_expr_frame_emit(b0: Builder, b1: Builder, iv: InstrV)
    requires
        b0.wf(),
        same_except_cur(b0, b1),
        b1.cur_instrs() == b0.cur_instrs().push(iv),
        !is_terminator(iv),
        b1.next_reg >= b0.next_reg,
    ensures
        expr_frame(b0, b1),
{
    assert(b0.cur_instrs().is_prefix_of(b1.cur_instrs())) by {
        assert(b0.cur_instrs() =~= b1.cur_instrs().subrange(0, b0.cur_instrs().len() as int));
    }
    assert(b0.module@.globals.is_prefix_of(b1.module@.globals)) by {
        assert(b0.module@.globals =~= b1.module@.globals.subrange(
            0,
            b0.module@.globals.len() as int,
        ));
    }
}

/// What compiling a statement may do to the builder: everything an
/// expression may, plus creating blocks, appending to the current block
/// (terminators included), and moving the insertion point to a block it
/// created.  Blocks other than the entry one and the fresh ones are
/// untouched, and every emitted branch targets a fresh block.
pub open spec fn stmt_frame(b0: Builder, b1: Builder) -> bool {
    let f0 = b0.module@.functions[b0.func as int];
    let f1 = b1.module@.functions[b0.func as int];
    &&& b1.func == b0.func
    &&& b1.next_reg >= b0.next_reg
    &&& b1.module@.name == b0.module@.name
    &&& b0.module@.globals.is_prefix_of(b1.module@.globals)
    &&& b1.module@.functions.len() == b0.module@.functions.len()
    &&& (forall|i: int|
        0 <= i < b0.module@.functions.len() && i != b0.func ==> #[trigger] b1.module@.functions[i]
            == b0.module@.functions[i])
    &&& fn_extended(f0, f1)
    &&& new_branches_bounded(f0, f1, f0.blocks.len() as int)
    &&& (forall|j: int|
        0 <= j < f0.blocks.len() && j != b0.block ==> #[trigger] f1.blocks[j] == f0.blocks[j])
    &&& (b1.block == b0.block || b1.block >= f0.blocks.len())
    &&& b1.block < f1.blocks.len()
}

pub proof fn lemma_stmt_frame_refl(b: Builder)
    requires
        b.wf(),
    ensures
        stmt_frame(b, b),
{
    let f = b.module@.functions[b.func as int];
    assert(b.module@.globals.is_prefix_of(b.module@.globals)) by {
        assert(b.module@.globals =~= b.module@.globals.subrange(0, b.module@.globals.len() as int));
    }
    assert forall|j: int| 0 <= j < f.blocks.len() implies f.blocks[j].instrs.is_prefix_of(
        (#[trigger] f.blocks[j]).instrs,
    ) by {
        assert(f.blocks[j].instrs =~= f.blocks[j].instrs.subrange(
            0,
            f.blocks[j].instrs.len() as int,
        ));
    }
}

pub proof fn lemma_stmt_frame_trans(b0: Builder, b1: Builder, b2: Builder)
    requires
        b0.wf(),
        stmt_frame(b0, b1),
        stmt_frame(b1, b2),
    ensures
        stmt_frame(b0, b2),
{
    let f0 = b0.module@.functions[b0.func as int];
    let f1 = b1.module@.functions[b0.func as int];
    let f2 = b2.module@.functions[b0.func as int];
    assert(b0.module@.globals.is_prefix_of(b2.module@.globals)) by {
        assert(b0.module@.globals =~= b2.module@.globals.subrange(
            0,
            b0.module@.globals.len() as int,
        ));
    }
    assert forall|j: int| 0 <= j < f0.blocks.len() implies {
        &&& (#[trigger] f2.blocks[j]).tag == f0.blocks[j].tag
        &&& f0.blocks[j].instrs.is_prefix_of(f2.blocks[j].instrs)
    } by {
        assert(fn_extended(f0, f1));
        assert(fn_extended(f1, f2));
        assert(f0.blocks[j].instrs.is_prefix_of(f1.blocks[j].instrs));
        assert(f1.blocks[j].instrs.is_prefix_of(f2.blocks[j].instrs));
        assert(f0.blocks[j].instrs =~= f2.blocks[j].instrs.subrange(
            0,
            f0.blocks[j].instrs.len() as int,
        ));
    }
    lemma_new_branches_bounded_trans(
        f0,
        f1,
        f2,
        f0.blocks.len() as int,
        f1.blocks.len() as int,
    );
    assert forall|j: int|
        0 <= j < f0.blocks.len() && j != b0.block implies #[trigger] f2.blocks[j] == f0.blocks[j] by {
        if j != b1.block {
            assert(f2.blocks[j] == f1.blocks[j]);
        } else {
            assert(b1.block == b0.block || b1.block >= f0.blocks.len());
            assert(false);
        }
    }
}

/// An expression frame is a statement frame.
pub proof fn lemma_expr_to_stmt_frame(b0: Builder, b1: Builder)
    requires
        b0.wf(),
        expr_frame(b0, b1),
    ensures
        stmt_frame(b0, b1),
{
    let f0 = b0.module@.functions[b0.func as int];
    let f1 = b1.module@.functions[b0.func as int];
    assert forall|j: int| 0 <= j < f0.blocks.len() implies {
        &&& (#[trigger] f1.blocks[j]).tag == f0.blocks[j].tag
        &&& f0.blocks[j].instrs.is_prefix_of(f1.blocks[j].instrs)
    } by {
        if j != b0.block {
            assert(f1.blocks[j] == f0.blocks[j]);
            assert(f0.blocks[j].instrs =~= f1.blocks[j].instrs.subrange(
                0,
                f0.blocks[j].instrs.len() as int,
            ));
        }
    }
    assert forall|j: int, k: int|
        0 <= j < f1.blocks.len() && 0 <= k < f1.blocks[j].instrs.len() && (j >= f0.blocks.len()
            || k >= f0.blocks[j].instrs.len()) implies branch_targets_at_least(
        #[trigger] f1.blocks[j].instrs[k],
        f0.blocks.len() as int,
    ) by {
        if j == b0.block {
            assert(!is_terminator(f1.blocks[j].instrs[k]));
        } else {
            assert(f1.blocks[j] == f0.blocks[j]);
        }
    }
}

// ---------------------------------------------------------------------------
// Literals
// ---------------------------------------------------------------------------
/// The payload a native IR builder keeps for an integer constant of type
/// `ty` built from the 64-bit immediate `n`: the immediate reduced into the
/// type's width (types of 64 bits and up, and the non-integer types the
/// grammar lets through unchecked, keep all 64 bits).
pub open spec fn spec_const_payload(ty: IrType, n: u64) -> u64 {
    match ty {
        IrType::I1 => n % 2,
        IrType::I8 => n % 0x100,
        IrType::I32 => n % 0x100000000,
        _ => n,
    }
}

/// Reduce a 64-bit immediate into the width of `ty`.
fn const_payload(ty: IrType, n: u64) -> (r: u64)
    ensures
        r == spec_const_payload(ty, n),
{
    match ty {
        IrType::I1 => n % 2,
        IrType::I8 => n % 0x100,
        IrType::I32 => n % 0x100000000,
        _ => n,
    }
}

/// What a `literal` expression denotes.
#[verifier::ext_equal]
pub enum LitV {
    /// A fresh module-level string constant with this text.
    Text(Seq<char>),
    /// An integer constant: the requested width, and the literal's low 64
    /// bits.
    Int { ty: IrType, value: u64 },
    /// A 1-bit constant; the requested type keyword is ignored.
    Boolean(bool),
}

/// The `literal <type> <literal-token>` production starting at token `i`.
/// `None` covers every failure: a bad type keyword, a non-literal token, and
/// the reserved char and float literals.
pub open spec fn spec_literal(toks: Seq<Token>, i: int) -> Option<(LitV, int)> {
    match ident_at(toks, i) {
        Option::Some(k) => match spec_ty_of(k) {
            Option::Some(ty) => if 0 <= i + 1 < toks.len() {
                match toks[i + 1].kind {
                    TokenKind::Literal(l) => match l {
                        Lit::Str(s) => Some((LitV::Text(s@), i + 2)),
                        Lit::Int(n) => Some(
                            (LitV::Int { ty, value: spec_const_payload(ty, n as u64) }, i + 2),
                        ),
                        Lit::Bool(v) => Some((LitV::Boolean(v), i + 2)),
                        _ => None,
                    },
                    _ => None,
                }
            } else {
                None
            },
            Option::None => None,
        },
        Option::None => None,
    }
}

/// Lower a `literal` expression.  A string becomes a module-level constant
/// and yields its address; an integer is truncated (or zero-extended) into
/// the requested width; a bool is a 1-bit constant.  No instruction is
/// emitted.
/// Char and float literals are reserved and fail as unimplemented.
pub fn compile_literal(tokens: &mut Cursor, b: &mut Builder) -> (r: Result<Val, CompileError>)
    requires
        old(tokens).wf(),
        old(b).wf(),
    ensures
        final(tokens).wf(),
        final(tokens).tokens == old(tokens).tokens,
        final(tokens).index >= old(tokens).index,
        final(b).wf(),
        expr_frame(*old(b), *final(b)),
        final(b).cur_instrs() == old(b).cur_instrs(),
        r is Ok <==> spec_literal(old(tokens).tokens@, old(tokens).index as int) is Some,
        r is Ok ==> final(b).module@.globals =~= old(b).module@.globals + strs_in(
            old(tokens).tokens@,
            old(tokens).index as int,
            final(tokens).index as int,
        ),
        r is Ok ==> {
            let (lv, j) = spec_literal(old(tokens).tokens@, old(tokens).index as int)->0;
            &&& final(tokens).index as int == j
            &&& match lv {
                LitV::Text(s) => {
                    &&& final(b).module@.globals =~= old(b).module@.globals.push(
                        GlobalV { name: ""@, text: s },
                    )
                    &&& r->Ok_0 == Val::Global(old(b).module@.globals.len() as usize)
                },
                LitV::Int { ty, value } => *final(b) == *old(b) && r->Ok_0 == Val::ConstInt {
                    ty,
                    value,
                },
                LitV::Boolean(v) => *final(b) == *old(b) && r->Ok_0 == Val::ConstInt {
                    ty: IrType::I1,
                    value: if v {
                        1u64
                    } else {
                        0u64
                    },
                },
            }
        },
        r is Err ==> {
            let toks = old(tokens).tokens@;
            let i0 = old(tokens).index as int;
            &&& (i0 >= toks.len() ==> r->Err_0 is UnexpectedEof)
            &&& (i0 < toks.len() && ident_at(toks, i0) is None ==> r->Err_0 is ParseMismatch)
            &&& (ident_at(toks, i0) is Some && spec_ty_of(ident_at(toks, i0)->0) is None
                ==> r->Err_0 is UnknownType)
            &&& (ident_at(toks, i0) is Some && spec_ty_of(ident_at(toks, i0)->0) is Some && i0 + 1
                >= toks.len() ==> r->Err_0 is UnexpectedEof)
            &&& (ident_at(toks, i0) is Some && spec_ty_of(ident_at(toks, i0)->0) is Some && i0 + 1
                < toks.len() ==> match toks[i0 + 1].kind {
                TokenKind::Literal(l) => (l is Char || l is Float) && r->Err_0 is Unimplemented,
                _ => r->Err_0 is MalformedLiteral,
            })
        },
{
    let ghost pre = *b;
    let tk = tokens.ident_next("type")?;
    let ty = ty_str_to_ty(tk.as_str())?;
    let tok = match tokens.this() {
        Ok(t) => t,
        Err(e) => {
            proof {
                lemma_expr_frame_refl(pre);
            }
            return Err(e);
        },
    };
    let span = tok.span;
    match &tok.kind {
        TokenKind::Literal(l) => match l {
            Lit::Str(s) => {
                let text = s.clone();
                tokens.next();
                let gi = b.add_global(String::from_str(""), text);
                proof {
                    lemma_expr_frame_refl(pre);
                    assert(expr_frame(pre, *b)) by {
                        assert(pre.module@.globals.is_prefix_of(b.module@.globals)) by {
                            assert(pre.module@.globals =~= b.module@.globals.subrange(
                                0,
                                pre.module@.globals.len() as int,
                            ));
                        }
                    }
                    let toks = old(tokens).tokens@;
                    let i0 = old(tokens).index as int;
                    lemma_strs_in_concat(toks, i0, i0 + 1, i0 + 2);
                    lemma_strs_in_one(toks, i0);
                    lemma_strs_in_one(toks, i0 + 1);
                    assert(b.module@.globals =~= pre.module@.globals + strs_in(toks, i0, i0 + 2));
                }
                Ok(Val::Global(gi))
            },
            Lit::Char(_) => Err(
                CompileError::Unimplemented { feature: String::from_str("char literal"), span },
            ),
            Lit::Float => Err(
                CompileError::Unimplemented { feature: String::from_str("float literal"), span },
            ),
            Lit::Int(n) => {
                let value = *n;
                tokens.next();
                proof {
                    let toks = old(tokens).tokens@;
                    let i0 = old(tokens).index as int;
                    lemma_strs_in_concat(toks, i0, i0 + 1, i0 + 2);
                    lemma_strs_in_one(toks, i0);
                    lemma_strs_in_one(toks, i0 + 1);
                }
                Ok(
                    Val::ConstInt {
                        ty,
                        value: const_payload(ty, #[verifier::truncate] (value as u64)),
                    },
                )
            },
            Lit::Bool(v) => {
                let value = *v;
                tokens.next();
                proof {
                    let toks = old(tokens).tokens@;
                    let i0 = old(tokens).index as int;
                    lemma_strs_in_concat(toks, i0, i0 + 1, i0 + 2);
                    lemma_strs_in_one(toks, i0);
                    lemma_strs_in_one(toks, i0 + 1);
                }
                Ok(
                    Val::ConstInt {
                        ty: IrType::I1,
                        value: if value {
                            1
                        } else {
                            0
                        },
                    },
                )
            },
        },
        _ => Err(CompileError::MalformedLiteral { span }),
    }
}

// ---------------------------------------------------------------------------
// Success of the expression productions
// ---------------------------------------------------------------------------
// Whether a production compiles is a function of the token stream and of
// which names are bound (never of what they are bound to), so each
// production below decides success and yields the position just past what
// it consumed.  The executable compilers are proved to decide exactly these
// productions.
//
// A recursive call whose start position is not known, at definition time,
// to advance is guarded (`i < j`); the executable equivalence proofs only
// ever reach the guards with the true, advancing positions.
/// The `call` production: the cursor stands on the callee.  An operator
/// callee needs a known spelling and at least two arguments; a named callee
/// must be bound, and the token after the call must exist (the unresolved
/// -callee diagnostic takes its location from it).
pub open spec fn spec_call(toks: Seq<Token>, i: int, dom: Set<Seq<char>>) -> Option<int>
    decreases toks.len() - i, 1int,
{
    if 0 <= i < toks.len() {
        match toks[i].kind {
            TokenKind::Particle(c, j0) => {
                let (op, k) = spec_op_str(toks, i)->0;
                match ident_at(toks, k) {
                    Option::Some(w) => if i < k + 1 {
                        let argr = if w == "with"@ {
                            spec_args(toks, k + 1, dom)
                        } else {
                            Some((0int, k + 1))
                        };
                        match argr {
                            Option::Some((n, j)) => if spec_op_of(op) is Some && n >= 2 {
                                Some(j)
                            } else {
                                None
                            },
                            Option::None => None,
                        }
                    } else {
                        None
                    },
                    Option::None => None,
                }
            },
            TokenKind::Ident(nm) => {
                match ident_at(toks, i + 1) {
                    Option::Some(w) => {
                        let argr = if w == "with"@ {
                            spec_args(toks, i + 2, dom)
                        } else {
                            Some((0int, i + 2))
                        };
                        match argr {
                            Option::Some((n, j)) => if j < toks.len() && dom.contains(nm@) {
                                Some(j)
                            } else {
                                None
                            },
                            Option::None => None,
                        }
                    },
                    Option::None => None,
                }
            },
            _ => None,
        }
    } else {
        None
    }
}

/// The call-argument list: expressions up to the closing `end`, with their
/// count.
pub open spec fn spec_args(toks: Seq<Token>, i: int, dom: Set<Seq<char>>) -> Option<(int, int)>
    decreases toks.len() - i, 2int,
{
    match ident_at(toks, i) {
        Option::Some(w) => if w == "end"@ {
            Some((0, i + 1))
        } else {
            match spec_expr(toks, i, dom) {
                Option::Some(j) => if i < j && j <= toks.len() {
                    match spec_args(toks, j, dom) {
                        Option::Some((n, jj)) => Some((n + 1, jj)),
                        Option::None => None,
                    }
                } else {
                    None
                },
                Option::None => None,
            }
        },
        Option::None => None,
    }
}

/// The expression production: `call`, `literal`, or a bound variable whose
/// following token exists (the unresolved-variable diagnostic takes its
/// location from it).
pub open spec fn spec_expr(toks: Seq<Token>, i: int, dom: Set<Seq<char>>) -> Option<int>
    decreases toks.len() - i, 0int,
{
    match ident_at(toks, i) {
        Option::Some(v) => if v == "call"@ {
            spec_call(toks, i + 1, dom)
        } else if v == "literal"@ {
            match spec_literal(toks, i + 1) {
                Option::Some((_, j)) => Some(j),
                Option::None => None,
            }
        } else {
            if i + 1 < toks.len() && dom.contains(v) {
                Some(i + 1)
            } else {
                None
            }
        },
        Option::None => None,
    }
}

// ---------------------------------------------------------------------------
// Expressions
// ---------------------------------------------------------------------------
/// The function type a call site uses: the callee symbol's recorded type.
/// A stack-slot symbol contributes its scalar type unchecked, exactly as the
/// symbol table hands it out.
pub open spec fn callee_ty(bv: BindingV) -> TyV {
    match bv {
        BindingV::Direct { ty, val: _ } => ty,
        BindingV::Slot { ty, addr: _ } => TyV::Scalar(ty),
    }
}

/// The value an expression yields when the tokens and the environments
/// alone determine it: an integer or bool literal's constant, or a direct
/// symbol's stored value.  String literals, slot reads and calls yield
/// fresh handles that depend on the builder's state, and have no
/// token-determined value.
pub open spec fn spec_simple_val(
    toks: Seq<Token>,
    i: int,
    g: Map<Seq<char>, BindingV>,
    l: Map<Seq<char>, BindingV>,
) -> Option<Val> {
    match ident_at(toks, i) {
        Option::Some(v) => if v == "call"@ {
            None
        } else if v == "literal"@ {
            match spec_literal(toks, i + 1) {
                Option::Some((lv, _)) => match lv {
                    LitV::Int { ty, value } => Some(Val::ConstInt { ty, value }),
                    LitV::Boolean(bv) => Some(
                        Val::ConstInt {
                            ty: IrType::I1,
                            value: if bv {
                                1
                            } else {
                                0
                            },
                        },
                    ),
                    LitV::Text(_) => None,
                },
                Option::None => None,
            }
        } else {
            match lookup2(g, l, v) {
                Option::Some(bv) => match bv {
                    BindingV::Direct { ty: _, val } => Some(val),
                    BindingV::Slot { .. } => None,
                },
                Option::None => None,
            }
        },
        Option::None => None,
    }
}

/// A leading identifier that selects the variable-reference production.
pub open spec fn is_var_ref(toks: Seq<Token>, i: int) -> bool {
    match ident_at(toks, i) {
        Option::Some(v) => v != "call"@ && v != "literal"@,
        Option::None => false,
    }
}

/// The token-determined values of a call's arguments, in source order: one
/// entry per argument, `Some` where the tokens and environments determine
/// the value.  Follows the same walk as the argument-list production.
pub open spec fn spec_simple_args(
    toks: Seq<Token>,
    i: int,
    g: Map<Seq<char>, BindingV>,
    l: Map<Seq<char>, BindingV>,
) -> Seq<Option<Val>>
    decreases toks.len() - i,
{
    match ident_at(toks, i) {
        Option::Some(w) => if w == "end"@ {
            Seq::empty()
        } else {
            match spec_expr(toks, i, g.dom().union(l.dom())) {
                Option::Some(j) => if i < j <= toks.len() {
                    seq![spec_simple_val(toks, i, g, l)] + spec_simple_args(toks, j, g, l)
                } else {
                    Seq::empty()
                },
                Option::None => Seq::empty(),
            }
        },
        Option::None => Seq::empty(),
    }
}

/// Gather the adjacent particles that continue an operator spelling.
fn collect_op(tokens: &mut Cursor, op: &mut Vec<char>, joined: bool)
    requires
        old(tokens).wf(),
    ensures
        final(tokens).wf(),
        final(tokens).tokens == old(tokens).tokens,
        final(tokens).index >= old(tokens).index,
        (final(op)@, final(tokens).index as int) == spec_op_str_ext(
            old(tokens).tokens@,
            old(tokens).index as int,
            joined,
            old(op)@,
        ),
        strs_in(old(tokens).tokens@, old(tokens).index as int, final(tokens).index as int)
            =~= Seq::<GlobalV>::empty(),
    decreases old(tokens).remaining(),
{
    if !joined {
        return ;
    }
    let tok = match tokens.this() {
        Ok(t) => t,
        Err(_) => {
            return ;
        },
    };
    match &tok.kind {
        TokenKind::Particle(c, j) => {
            let c = *c;
            let j = *j;
            tokens.next();
            op.push(c);
            collect_op(tokens, op, j);
            proof {
                let toks = old(tokens).tokens@;
                let i0 = old(tokens).index as int;
                lemma_strs_in_concat(toks, i0, i0 + 1, tokens.index as int);
                lemma_strs_in_one(toks, i0);
            }
        },
        _ => {},
    }
}

/// Collect call arguments: expressions up to the closing `end`.
fn collect_args(
    tokens: &mut Cursor,
    b: &mut Builder,
    varmap: &Env,
    local_varmap: &Env,
    args: &mut Vec<Val>,
) -> (r: Result<(), CompileError>)
    requires
        old(tokens).wf(),
        old(b).wf(),
    ensures
        final(tokens).wf(),
        final(tokens).tokens == old(tokens).tokens,
        final(tokens).index >= old(tokens).index,
        r is Ok ==> final(tokens).index > old(tokens).index,
        final(b).wf(),
        expr_frame(*old(b), *final(b)),
        r is Ok <==> spec_args(
            old(tokens).tokens@,
            old(tokens).index as int,
            varmap@.dom().union(local_varmap@.dom()),
        ) is Some,
        r is Ok ==> {
            let (n, j) = spec_args(
                old(tokens).tokens@,
                old(tokens).index as int,
                varmap@.dom().union(local_varmap@.dom()),
            )->0;
            let svs = spec_simple_args(
                old(tokens).tokens@,
                old(tokens).index as int,
                varmap@,
                local_varmap@,
            );
            &&& final(tokens).index as int == j
            &&& final(args)@.len() == old(args)@.len() + n
            &&& old(args)@.is_prefix_of(final(args)@)
            &&& svs.len() == n
            &&& (forall|k: int|
                0 <= k < n && (#[trigger] svs[k]) is Some ==> final(args)@[old(args)@.len() + k]
                    == svs[k]->0)
        },
        r is Ok ==> final(b).module@.globals =~= old(b).module@.globals + strs_in(
            old(tokens).tokens@,
            old(tokens).index as int,
            final(tokens).index as int,
        ),
        r is Err ==> !(r->Err_0 is MissingEntryPoint),
    decreases old(tokens).remaining(), 1int,
{
    let ghost pre = *b;
    proof {
        lemma_expr_frame_refl(pre);
    }
    let ghost toks = tokens.tokens@;
    let ghost i0 = tokens.index as int;
    let ghost args0 = args@;
    let i = tokens.ident_next("[<arg>|end]")?;
    if str_eq(i.as_str(), "end") {
        proof {
            assert(args@.is_prefix_of(args@)) by {
                assert(args@.subrange(0, args@.len() as int) =~= args@);
            }
            lemma_strs_in_one(toks, i0);
        }
        return Ok(());
    }
    tokens.rewind();
    let v = compile_expression(tokens, b, varmap, local_varmap, "")?;
    let ghost mid = *b;
    args.push(v);
    let ghost args1 = args@;
    let r = collect_args(tokens, b, varmap, local_varmap, args);
    proof {
        lemma_expr_frame_trans(pre, mid, *b);
        if r is Ok {
            let dom = varmap@.dom().union(local_varmap@.dom());
            let j1 = spec_expr(toks, i0, dom)->0;
            let svs = spec_simple_args(toks, i0, varmap@, local_varmap@);
            let rest = spec_simple_args(toks, j1, varmap@, local_varmap@);
            assert(svs =~= seq![spec_simple_val(toks, i0, varmap@, local_varmap@)] + rest);
            assert(args0.is_prefix_of(args@)) by {
                assert(args0.is_prefix_of(args1)) by {
                    assert(args0 =~= args1.subrange(0, args0.len() as int));
                }
                assert(args0 =~= args@.subrange(0, args0.len() as int));
            }
            assert forall|k: int| 0 <= k < svs.len() && (#[trigger] svs[k]) is Some implies args@[args0.len() + k]
                == svs[k]->0 by {
                if k == 0 {
                    assert(args@[args0.len() as int] == args1[args0.len() as int]);
                    assert(args1[args0.len() as int] == v);
                } else {
                    assert(svs[k] == rest[k - 1]);
                    assert(args@[args1.len() + (k - 1)] == rest[k - 1]->0);
                }
            }
            lemma_strs_in_concat(toks, i0, j1, tokens.index as int);
        }
    }
    r
}

/// Lower a call-or-operator expression; the cursor stands just past the
/// consumed `call` keyword.  `ret_name` would only label the result in
/// printed IR; it has no semantic effect and the model does not record it.
///
/// If the next token is a particle, the coalesced spelling must be a known
/// operator; its two operands are the last two argument expressions (the
/// last parsed is the right-hand one) and exactly one instruction of the
/// operator's opcode is appended after the operand expressions' own
/// instructions.  Otherwise the callee is an identifier resolved in the
/// environments, and the emitted call carries that symbol's recorded type
/// and value exactly.
pub fn compile_fn_call(
    tokens: &mut Cursor,
    b: &mut Builder,
    varmap: &Env,
    local_varmap: &Env,
    ret_name: &str,
) -> (r: Result<Val, CompileError>)
    requires
        old(tokens).wf(),
        old(b).wf(),
    ensures
        final(tokens).wf(),
        final(tokens).tokens == old(tokens).tokens,
        final(tokens).index >= old(tokens).index,
        r is Ok ==> final(tokens).index > old(tokens).index,
        final(b).wf(),
        expr_frame(*old(b), *final(b)),
        r is Ok ==> r->Ok_0 is Reg,
        r is Ok && spec_op_str(old(tokens).tokens@, old(tokens).index as int) is Some ==> {
            let (op, _) = spec_op_str(old(tokens).tokens@, old(tokens).index as int)->0;
            &&& spec_op_of(op) is Some
            &&& final(b).cur_instrs().len() > old(b).cur_instrs().len()
            &&& (exists|x: Val, y: Val|
                final(b).cur_instrs().last() == op_instr(spec_op_of(op)->0, x, y))
        },
        r is Ok && ident_at(old(tokens).tokens@, old(tokens).index as int) is Some ==> {
            let nm = ident_at(old(tokens).tokens@, old(tokens).index as int)->0;
            &&& lookup2(varmap@, local_varmap@, nm) is Some
            &&& final(b).cur_instrs().len() > old(b).cur_instrs().len()
            &&& (final(b).cur_instrs().last() matches InstrV::Call { ty, callee, args } && ty
                == callee_ty(lookup2(varmap@, local_varmap@, nm)->0) && callee == sym_val_of(
                lookup2(varmap@, local_varmap@, nm)->0,
            ))
            &&& (ident_at(old(tokens).tokens@, old(tokens).index + 1) == Some("with"@) ==> {
                let svs = spec_simple_args(
                    old(tokens).tokens@,
                    old(tokens).index + 2,
                    varmap@,
                    local_varmap@,
                );
                final(b).cur_instrs().last() matches InstrV::Call { ty: _, callee: _, args }
                    && args.len() == svs.len() && (forall|q: int|
                    0 <= q < svs.len() && (#[trigger] svs[q]) is Some ==> args[q] == svs[q]->0)
            })
            &&& (ident_at(old(tokens).tokens@, old(tokens).index + 1) is Some && ident_at(
                old(tokens).tokens@,
                old(tokens).index + 1,
            ) != Some("with"@) ==> (final(b).cur_instrs().last() matches InstrV::Call {
                ty: _,
                callee: _,
                args,
            } && args.len() == 0))
        },
        r is Ok && spec_op_str(old(tokens).tokens@, old(tokens).index as int) is Some && ident_at(
            old(tokens).tokens@,
            (spec_op_str(old(tokens).tokens@, old(tokens).index as int)->0).1,
        ) == Some("with"@) ==> {
            // the operands are the last two argument values, the last parsed
            // being the right-hand one
            let (op, k) = spec_op_str(old(tokens).tokens@, old(tokens).index as int)->0;
            let svs = spec_simple_args(old(tokens).tokens@, k + 1, varmap@, local_varmap@);
            let n = svs.len() as int;
            &&& n >= 2
            &&& (svs[n - 2] is Some && svs[n - 1] is Some ==> final(b).cur_instrs().last()
                == op_instr(spec_op_of(op)->0, svs[n - 2]->0, svs[n - 1]->0))
        },
        r is Ok <==> spec_call(
            old(tokens).tokens@,
            old(tokens).index as int,
            varmap@.dom().union(local_varmap@.dom()),
        ) is Some,
        r is Ok ==> final(tokens).index as int == spec_call(
            old(tokens).tokens@,
            old(tokens).index as int,
            varmap@.dom().union(local_varmap@.dom()),
        )->0,
        r is Ok ==> final(b).module@.globals =~= old(b).module@.globals + strs_in(
            old(tokens).tokens@,
            old(tokens).index as int,
            final(tokens).index as int,
        ),
        r is Err ==> {
            // an unresolved named callee, once its arguments parsed and the
            // following token exists, is exactly the undefined-name error
            let toks = old(tokens).tokens@;
            let i0 = old(tokens).index as int;
            let dom = varmap@.dom().union(local_varmap@.dom());
            (ident_at(toks, i0) is Some && spec_op_str(toks, i0) is None && ident_at(
                toks,
                i0 + 1,
            ) is Some && {
                let argr = if ident_at(toks, i0 + 1) == Some("with"@) {
                    spec_args(toks, i0 + 2, dom)
                } else {
                    Some((0int, i0 + 2))
                };
                argr is Some && (argr->0).1 < toks.len() && !dom.contains(ident_at(toks, i0)->0)
            }) ==> r->Err_0 is UndefinedVariable
        },
        r is Err ==> !(r->Err_0 is MissingEntryPoint),
    decreases old(tokens).remaining(), 0int,
{
    let ghost pre = *b;
    proof {
        lemma_expr_frame_refl(pre);
    }
    let ghost toks0 = tokens.tokens@;
    let ghost i0 = tokens.index as int;
    let tok = match tokens.this() {
        Ok(t) => t,
        Err(e) => {
            return Err(e);
        },
    };
    let callee_span = tok.span;
    match &tok.kind {
        TokenKind::Particle(c, j) => {
            let c = *c;
            let j = *j;
            tokens.next();
            let mut op: Vec<char> = Vec::new();
            op.push(c);
            proof {
                assert(op@ =~= seq![c]);
            }
            collect_op(tokens, &mut op, j);
            let ghost k = tokens.index as int;
            let n = tokens.ident_next("[with|end]")?;
            let mut args: Vec<Val> = Vec::new();
            if str_eq(n.as_str(), "with") {
                collect_args(tokens, b, varmap, local_varmap, &mut args)?;
            }
            proof {
                lemma_strs_in_one(toks0, i0);
                lemma_strs_in_one(toks0, k);
                lemma_strs_in_concat(toks0, i0, i0 + 1, tokens.index as int);
                lemma_strs_in_concat(toks0, i0 + 1, k, tokens.index as int);
                lemma_strs_in_concat(toks0, k, k + 1, tokens.index as int);
                assert(b.module@.globals =~= pre.module@.globals + strs_in(
                    toks0,
                    i0,
                    tokens.index as int,
                ));
            }
            let kind = match op_of(&op) {
                Some(k) => k,
                None => {
                    return Err(
                        CompileError::Unimplemented {
                            feature: String::from_str("operator"),
                            span: callee_span,
                        },
                    );
                },
            };
            let y = match args.pop() {
                Some(v) => v,
                None => {
                    return Err(
                        CompileError::ParseMismatch {
                            expected: String::from_str("operand"),
                            found: TokenKind::Ident(n),
                            span: callee_span,
                        },
                    );
                },
            };
            let x = match args.pop() {
                Some(v) => v,
                None => {
                    return Err(
                        CompileError::ParseMismatch {
                            expected: String::from_str("operand"),
                            found: TokenKind::Ident(n),
                            span: callee_span,
                        },
                    );
                },
            };
            let ghost mid = *b;
            let instr = make_op_instr(kind, x, y);
            let v = b.emit_value(instr);
            proof {
                lemma_expr_frame_emit(mid, *b, op_instr(kind, x, y));
                lemma_expr_frame_trans(pre, mid, *b);
            }
            Ok(v)
        },
        TokenKind::Ident(_) => {
            let name = tokens.ident_next("name")?;
            let n = tokens.ident_next("[with|end]")?;
            let mut args: Vec<Val> = Vec::new();
            if str_eq(n.as_str(), "with") {
                collect_args(tokens, b, varmap, local_varmap, &mut args)?;
            }
            proof {
                lemma_strs_in_one(toks0, i0);
                lemma_strs_in_one(toks0, i0 + 1);
                lemma_strs_in_concat(toks0, i0, i0 + 1, tokens.index as int);
                lemma_strs_in_concat(toks0, i0 + 1, i0 + 2, tokens.index as int);
                assert(b.module@.globals =~= pre.module@.globals + strs_in(
                    toks0,
                    i0,
                    tokens.index as int,
                ));
            }
            // The diagnostic location for an unresolved callee is taken from
            // the token after the call, which must therefore exist.
            let loc = match tokens.this() {
                Ok(t) => t.span,
                Err(e) => {
                    return Err(e);
                },
            };
            let bind = get_var(name.as_str(), loc, varmap, local_varmap)?;
            let (cty, cval) = match bind {
                Binding::Direct { ty, val } => (ty, val),
                Binding::Slot { ty, addr } => (Ty::Scalar(ty), addr),
            };
            let ghost mid = *b;
            let instr = Instr::Call { ty: cty, callee: cval, args };
            let ghost iv = instr@;
            let v = b.emit_value(instr);
            proof {
                lemma_expr_frame_emit(mid, *b, iv);
                lemma_expr_frame_trans(pre, mid, *b);
            }
            Ok(v)
        },
        _ => Err(
            CompileError::ParseMismatch {
                expected: String::from_str("name"),
                found: tok.kind.clone(),
                span: callee_span,
            },
        ),
    }
}

/// Lower one expression; the single leading token selects the production:
/// `call`, `literal`, or a variable reference.  `ret_name` is threaded
/// through as the symbolic name of the result and has no semantic effect.
///
/// A variable reference consumes exactly one token.  If its symbol is
/// addressable, exactly one load from its slot is emitted and the fresh
/// handle is returned; otherwise nothing at all is emitted and the stored
/// value itself is returned.
pub fn compile_expression(
    tokens: &mut Cursor,
    b: &mut Builder,
    varmap: &Env,
    local_varmap: &Env,
    ret_name: &str,
) -> (r: Result<Val, CompileError>)
    requires
        old(tokens).wf(),
        old(b).wf(),
    ensures
        final(tokens).wf(),
        final(tokens).tokens == old(tokens).tokens,
        final(tokens).index >= old(tokens).index,
        r is Ok ==> final(tokens).index > old(tokens).index,
        final(b).wf(),
        expr_frame(*old(b), *final(b)),
        r is Ok && ident_at(old(tokens).tokens@, old(tokens).index as int) == Some("call"@)
            && spec_op_str(old(tokens).tokens@, old(tokens).index + 1) is Some ==> {
            let (op, _) = spec_op_str(old(tokens).tokens@, old(tokens).index + 1)->0;
            &&& spec_op_of(op) is Some
            &&& final(b).cur_instrs().len() > old(b).cur_instrs().len()
            &&& (exists|x: Val, y: Val|
                final(b).cur_instrs().last() == op_instr(spec_op_of(op)->0, x, y))
        },
        is_var_ref(old(tokens).tokens@, old(tokens).index as int) ==> {
            let nm = ident_at(old(tokens).tokens@, old(tokens).index as int)->0;
            &&& (r is Ok ==> final(tokens).index == old(tokens).index + 1)
            &&& (r is Ok ==> lookup2(varmap@, local_varmap@, nm) is Some)
            &&& (r is Ok ==> match lookup2(varmap@, local_varmap@, nm)->0 {
                BindingV::Direct { ty: _, val } => *final(b) == *old(b) && r->Ok_0 == val,
                BindingV::Slot { ty, addr } => {
                    &&& final(b).cur_instrs() =~= old(b).cur_instrs().push(
                        InstrV::Load { ty, addr },
                    )
                    &&& r->Ok_0 == Val::Reg(old(b).next_reg as usize)
                },
            })
            &&& (old(tokens).index + 1 < old(tokens).tokens@.len() ==> (r is Ok <==> lookup2(
                varmap@,
                local_varmap@,
                nm,
            ) is Some))
        },
        r is Ok <==> spec_expr(
            old(tokens).tokens@,
            old(tokens).index as int,
            varmap@.dom().union(local_varmap@.dom()),
        ) is Some,
        r is Ok ==> final(tokens).index as int == spec_expr(
            old(tokens).tokens@,
            old(tokens).index as int,
            varmap@.dom().union(local_varmap@.dom()),
        )->0,
        r is Ok && spec_simple_val(
            old(tokens).tokens@,
            old(tokens).index as int,
            varmap@,
            local_varmap@,
        ) is Some ==> r->Ok_0 == spec_simple_val(
            old(tokens).tokens@,
            old(tokens).index as int,
            varmap@,
            local_varmap@,
        )->0,
        r is Ok ==> final(b).module@.globals =~= old(b).module@.globals + strs_in(
            old(tokens).tokens@,
            old(tokens).index as int,
            final(tokens).index as int,
        ),
        is_var_ref(old(tokens).tokens@, old(tokens).index as int) && r is Err ==> {
            let nm = ident_at(old(tokens).tokens@, old(tokens).index as int)->0;
            &&& (old(tokens).index + 1 >= old(tokens).tokens@.len() ==> r->Err_0
                is UnexpectedEof)
            &&& (old(tokens).index + 1 < old(tokens).tokens@.len() && !varmap@.dom().union(
                local_varmap@.dom(),
            ).contains(nm) ==> r->Err_0 is UndefinedVariable)
        },
        r is Err ==> !(r->Err_0 is MissingEntryPoint),
    decreases old(tokens).remaining(), 0int,
{
    let ghost pre = *b;
    proof {
        lemma_expr_frame_refl(pre);
    }
    let ghost toks = tokens.tokens@;
    let ghost i0 = tokens.index as int;
    let name = tokens.ident_next("[call|literal|<variable>]")?;
    if str_eq(name.as_str(), "call") {
        let r = compile_fn_call(tokens, b, varmap, local_varmap, ret_name);
        proof {
            if r is Ok {
                lemma_strs_in_concat(toks, i0, i0 + 1, tokens.index as int);
                lemma_strs_in_one(toks, i0);
            }
        }
        return r;
    }
    if str_eq(name.as_str(), "literal") {
        let r = compile_literal(tokens, b);
        proof {
            if r is Ok {
                lemma_strs_in_concat(toks, i0, i0 + 1, tokens.index as int);
                lemma_strs_in_one(toks, i0);
            }
        }
        return r;
    }
    // The diagnostic location for an unresolved variable is taken from the
    // token after it, which must therefore exist.
    let loc = match tokens.this() {
        Ok(t) => t.span,
        Err(e) => {
            return Err(e);
        },
    };
    let bind = get_var(name.as_str(), loc, varmap, local_varmap)?;
    proof {
        lemma_strs_in_one(toks, i0);
    }
    match bind {
        Binding::Direct { ty: _, val } => Ok(val),
        Binding::Slot { ty, addr } => {
            let v = b.emit_value(Instr::Load { ty, addr });
            proof {
                lemma_expr_frame_emit(pre, *b, InstrV::Load { ty, addr });
            }
            Ok(v)
        },
    }
}

// ---------------------------------------------------------------------------
// Statements
// ---------------------------------------------------------------------------
/// Appending one instruction whose branches (if any) stay at or above the
/// already-reached block count extends a statement frame.
pub proof fn lemma_stmt_frame_snoc(pre: Builder, mid: Builder, post: Builder, iv: InstrV)
    requires
        pre.wf(),
        stmt_frame(pre, mid),
        same_except_cur(mid, post),
        post.cur_instrs() == mid.cur_instrs().push(iv),
        post.next_reg >= mid.next_reg,
        branch_targets_at_least(iv, pre.module@.functions[pre.func as int].blocks.len() as int),
    ensures
        stmt_frame(pre, post),
{
    let f0 = pre.module@.functions[pre.func as int];
    let f1 = mid.module@.functions[pre.func as int];
    let f2 = post.module@.functions[pre.func as int];
    assert(pre.module@.globals.is_prefix_of(post.module@.globals)) by {
        assert(pre.module@.globals =~= post.module@.globals.subrange(
            0,
            pre.module@.globals.len() as int,
        ));
    }
    assert forall|j: int| 0 <= j < f0.blocks.len() implies {
        &&& (#[trigger] f2.blocks[j]).tag == f0.blocks[j].tag
        &&& f0.blocks[j].instrs.is_prefix_of(f2.blocks[j].instrs)
    } by {
        if j != mid.block {
            assert(f2.blocks[j] == f1.blocks[j]);
        } else {
            assert(f0.blocks[j].instrs.is_prefix_of(f1.blocks[j].instrs));
            assert(f0.blocks[j].instrs =~= f2.blocks[j].instrs.subrange(
                0,
                f0.blocks[j].instrs.len() as int,
            ));
        }
    }
    assert forall|j: int, k: int|
        0 <= j < f2.blocks.len() && 0 <= k < f2.blocks[j].instrs.len() && (j >= f0.blocks.len()
            || k >= f0.blocks[j].instrs.len()) implies branch_targets_at_least(
        #[trigger] f2.blocks[j].instrs[k],
        f0.blocks.len() as int,
    ) by {
        if j == mid.block && k == f2.blocks[j].instrs.len() - 1 {
            assert(f2.blocks[j].instrs[k] == iv);
        } else if j == mid.block {
            assert(f2.blocks[j].instrs[k] == f1.blocks[j].instrs[k]);
            assert(branch_targets_at_least(f1.blocks[j].instrs[k], f0.blocks.len() as int));
        } else {
            assert(f2.blocks[j] == f1.blocks[j]);
            assert(branch_targets_at_least(f1.blocks[j].instrs[k], f0.blocks.len() as int));
        }
    }
    assert forall|j: int|
        0 <= j < f0.blocks.len() && j != pre.block implies #[trigger] f2.blocks[j] == f0.blocks[j] by {
        if j != mid.block {
            assert(f2.blocks[j] == f1.blocks[j]);
        } else {
            assert(mid.block == pre.block || mid.block >= f0.blocks.len());
            assert(false);
        }
    }
}

/// Appending a fresh empty block extends a statement frame.
pub proof fn lemma_stmt_frame_add_block(pre: Builder, mid: Builder, post: Builder, tag: BlockTag)
    requires
        pre.wf(),
        stmt_frame(pre, mid),
        post.func == mid.func,
        post.block == mid.block,
        post.next_reg == mid.next_reg,
        post.module@.name == mid.module@.name,
        post.module@.globals == mid.module@.globals,
        post.module@.functions.len() == mid.module@.functions.len(),
        forall|i: int|
            0 <= i < mid.module@.functions.len() && i != mid.func ==> #[trigger] post.module@.functions[i]
                == mid.module@.functions[i],
        post.cur_blocks() == mid.cur_blocks().push(BlockV { tag, instrs: Seq::empty() }),
        post.module@.functions[mid.func as int].name == mid.module@.functions[mid.func as int].name,
        post.module@.functions[mid.func as int].ty == mid.module@.functions[mid.func as int].ty,
        post.module@.functions[mid.func as int].defined == mid.module@.functions[mid.func as int].defined,
    ensures
        stmt_frame(pre, post),
{
    let f0 = pre.module@.functions[pre.func as int];
    let f1 = mid.module@.functions[pre.func as int];
    let f2 = post.module@.functions[pre.func as int];
    assert(pre.module@.globals.is_prefix_of(post.module@.globals)) by {
        assert(pre.module@.globals =~= post.module@.globals.subrange(
            0,
            pre.module@.globals.len() as int,
        ));
    }
    assert(f2.blocks == f1.blocks.push(BlockV { tag, instrs: Seq::empty() }));
    assert forall|j: int| 0 <= j < f0.blocks.len() implies {
        &&& (#[trigger] f2.blocks[j]).tag == f0.blocks[j].tag
        &&& f0.blocks[j].instrs.is_prefix_of(f2.blocks[j].instrs)
    } by {
        assert(f2.blocks[j] == f1.blocks[j]);
    }
    assert forall|j: int, k: int|
        0 <= j < f2.blocks.len() && 0 <= k < f2.blocks[j].instrs.len() && (j >= f0.blocks.len()
            || k >= f0.blocks[j].instrs.len()) implies branch_targets_at_least(
        #[trigger] f2.blocks[j].instrs[k],
        f0.blocks.len() as int,
    ) by {
        if j < f1.blocks.len() {
            assert(f2.blocks[j] == f1.blocks[j]);
            assert(branch_targets_at_least(f1.blocks[j].instrs[k], f0.blocks.len() as int));
        } else {
            assert(f2.blocks[j].instrs.len() == 0);
        }
    }
    assert forall|j: int|
        0 <= j < f0.blocks.len() && j != pre.block implies #[trigger] f2.blocks[j] == f0.blocks[j] by {
        assert(f2.blocks[j] == f1.blocks[j]);
    }
}

/// Moving the insertion point to the entry block or a fresh block keeps the
/// statement frame.
pub proof fn lemma_stmt_frame_set_block(pre: Builder, mid: Builder, post: Builder)
    requires
        pre.wf(),
        stmt_frame(pre, mid),
        post.module == mid.module,
        post.func == mid.func,
        post.next_reg == mid.next_reg,
        post.block == pre.block || post.block >= pre.module@.functions[pre.func as int].blocks.len(),
        post.block < post.module@.functions[post.func as int].blocks.len(),
    ensures
        stmt_frame(pre, post),
{
}

/// Lower `return end` (a void return) or `return <expr>` (a value return);
/// the cursor stands just past the consumed `return` keyword.  Exactly one
/// terminator is appended after the returned expression's instructions; the
/// declared return type of the enclosing function is not consulted, so a
/// value return passes through unchecked even in a void function.
pub fn compile_return(
    tokens: &mut Cursor,
    b: &mut Builder,
    varmap: &Env,
    local_varmap: &Env,
) -> (r: Result<(), CompileError>)
    requires
        old(tokens).wf(),
        old(b).wf(),
    ensures
        final(tokens).wf(),
        final(tokens).tokens == old(tokens).tokens,
        final(tokens).index >= old(tokens).index,
        r is Ok ==> final(tokens).index > old(tokens).index,
        final(b).wf(),
        stmt_frame(*old(b), *final(b)),
        r is Ok ==> final(b).block == old(b).block,
        r is Ok ==> final(b).cur_instrs().len() > old(b).cur_instrs().len(),
        r is Ok ==> (final(b).cur_instrs().last() is Ret || final(b).cur_instrs().last()
            is RetVoid),
        r is Ok && ident_at(old(tokens).tokens@, old(tokens).index as int) == Some("end"@) ==> {
            &&& final(b).cur_instrs() =~= old(b).cur_instrs().push(InstrV::RetVoid)
            &&& final(tokens).index == old(tokens).index + 1
        },
        r is Ok && ident_at(old(tokens).tokens@, old(tokens).index as int) != Some("end"@)
            ==> (exists|v: Val| final(b).cur_instrs().last() == InstrV::Ret { val: v }),
        r is Ok && ident_at(old(tokens).tokens@, old(tokens).index as int) != Some("end"@)
            && spec_simple_val(
            old(tokens).tokens@,
            old(tokens).index as int,
            varmap@,
            local_varmap@,
        ) is Some ==> final(b).cur_instrs().last() == (InstrV::Ret {
            val: spec_simple_val(
                old(tokens).tokens@,
                old(tokens).index as int,
                varmap@,
                local_varmap@,
            )->0,
        }),
        r is Ok ==> forall|k: int|
            old(b).cur_instrs().len() <= k < final(b).cur_instrs().len() - 1 ==> !is_terminator(
                #[trigger] final(b).cur_instrs()[k],
            ),
        r is Ok ==> final(b).module@.globals =~= old(b).module@.globals + strs_in(
            old(tokens).tokens@,
            old(tokens).index as int,
            final(tokens).index as int,
        ),

        r is Ok <==> (ident_at(old(tokens).tokens@, old(tokens).index as int) == Some("end"@)
            || spec_expr(
            old(tokens).tokens@,
            old(tokens).index as int,
            varmap@.dom().union(local_varmap@.dom()),
        ) is Some),
        r is Ok && ident_at(old(tokens).tokens@, old(tokens).index as int) != Some("end"@)
            ==> final(tokens).index as int == spec_expr(
            old(tokens).tokens@,
            old(tokens).index as int,
            varmap@.dom().union(local_varmap@.dom()),
        )->0,
        r is Err ==> !(r->Err_0 is MissingEntryPoint),
{
    let ghost pre = *b;
    proof {
        lemma_stmt_frame_refl(pre);
    }
    let ghost toks = tokens.tokens@;
    let ghost i0 = tokens.index as int;
    let n = tokens.ident_next("[end|<var>]")?;
    if str_eq(n.as_str(), "end") {
        b.emit(Instr::RetVoid);
        proof {
            lemma_stmt_frame_snoc(pre, pre, *b, InstrV::RetVoid);
            lemma_strs_in_one(toks, i0);
        }
        Ok(())
    } else {
        tokens.rewind();
        let v = compile_expression(tokens, b, varmap, local_varmap, "")?;
        let ghost mid = *b;
        proof {
            lemma_expr_to_stmt_frame(pre, mid);
        }
        b.emit(Instr::Ret { val: v });
        proof {
            lemma_stmt_frame_snoc(pre, mid, *b, InstrV::Ret { val: v });
        }
        Ok(())
    }
}

/// Lower `var <type> <name> is <expr>`: allocate a stack slot of the
/// declared type, store the expression into it, and bind the name as
/// addressable.  The emission order is the alloca followed directly by the
/// store, and the new binding holds the slot the alloca produced, so every
/// later read of the name goes through a load from that slot.
pub fn compile_var_create(
    tokens: &mut Cursor,
    b: &mut Builder,
    varmap: &Env,
    local_varmap: &mut Env,
) -> (r: Result<(), CompileError>)
    requires
        old(tokens).wf(),
        old(b).wf(),
    ensures
        final(tokens).wf(),
        final(tokens).tokens == old(tokens).tokens,
        final(tokens).index >= old(tokens).index,
        r is Ok ==> final(tokens).index > old(tokens).index,
        final(b).wf(),
        stmt_frame(*old(b), *final(b)),
        r is Err ==> final(local_varmap)@ == old(local_varmap)@,
        r is Ok ==> {
            let t = spec_ty_of(ident_at(old(tokens).tokens@, old(tokens).index as int)->0)->0;
            let nm = ident_at(old(tokens).tokens@, old(tokens).index + 1)->0;
            &&& ident_at(old(tokens).tokens@, old(tokens).index as int) is Some
            &&& spec_ty_of(ident_at(old(tokens).tokens@, old(tokens).index as int)->0) is Some
            &&& ident_at(old(tokens).tokens@, old(tokens).index + 1) is Some
            &&& final(b).block == old(b).block
            &&& final(b).cur_instrs().len() >= old(b).cur_instrs().len() + 2
            &&& final(b).cur_instrs()[final(b).cur_instrs().len() - 2] == InstrV::Alloca { ty: t }
            &&& (final(b).cur_instrs().last() matches InstrV::Store { val: _, addr }
                && final(local_varmap)@ == old(local_varmap)@.insert(
                nm,
                BindingV::Slot { ty: t, addr },
            ))
            &&& (spec_simple_val(
                old(tokens).tokens@,
                old(tokens).index + 3,
                varmap@,
                old(local_varmap)@,
            ) is Some ==> (final(b).cur_instrs().last() matches InstrV::Store { val, addr: _ }
                && val == spec_simple_val(
                old(tokens).tokens@,
                old(tokens).index + 3,
                varmap@,
                old(local_varmap)@,
            )->0))
        },
        r is Ok <==> {
            let toks = old(tokens).tokens@;
            let i0 = old(tokens).index as int;
            &&& ident_at(toks, i0) is Some
            &&& spec_ty_of(ident_at(toks, i0)->0) is Some
            &&& ident_at(toks, i0 + 1) is Some
            &&& ident_at(toks, i0 + 2) == Some("is"@)
            &&& spec_expr(toks, i0 + 3, varmap@.dom().union(old(local_varmap)@.dom())) is Some
        },
        r is Ok ==> final(tokens).index as int == spec_expr(
            old(tokens).tokens@,
            old(tokens).index + 3,
            varmap@.dom().union(old(local_varmap)@.dom()),
        )->0,
        r is Ok ==> final(b).module@.globals =~= old(b).module@.globals + strs_in(
            old(tokens).tokens@,
            old(tokens).index as int,
            final(tokens).index as int,
        ),
        r is Err ==> !(r->Err_0 is MissingEntryPoint),
{
    let ghost pre = *b;
    let ghost toks = tokens.tokens@;
    let ghost i0 = tokens.index as int;
    proof {
        lemma_stmt_frame_refl(pre);
    }
    let tk = tokens.ident_next("type")?;
    let ty = ty_str_to_ty(tk.as_str())?;
    let name = tokens.ident_next("name")?;
    tokens.expect_ident("is")?;
    let v = compile_expression(tokens, b, varmap, &*local_varmap, &name)?;
    proof {
        lemma_strs_in_one(toks, i0);
        lemma_strs_in_one(toks, i0 + 1);
        lemma_strs_in_one(toks, i0 + 2);
        lemma_strs_in_concat(toks, i0, i0 + 1, tokens.index as int);
        lemma_strs_in_concat(toks, i0 + 1, i0 + 2, tokens.index as int);
        lemma_strs_in_concat(toks, i0 + 2, i0 + 3, tokens.index as int);
    }
    let ghost mid = *b;
    proof {
        lemma_expr_to_stmt_frame(pre, mid);
    }
    let alloc_v = b.emit_value(Instr::Alloca { ty });
    let ghost mid2 = *b;
    proof {
        lemma_stmt_frame_snoc(pre, mid, mid2, InstrV::Alloca { ty });
    }
    b.emit(Instr::Store { val: v, addr: alloc_v });
    proof {
        lemma_stmt_frame_snoc(pre, mid2, *b, InstrV::Store { val: v, addr: alloc_v });
    }
    local_varmap.insert(name, Binding::Slot { ty, addr: alloc_v });
    Ok(())
}

/// Lower `let <type> <name> be <expr>`: evaluate the expression and bind the
/// name directly to the resulting value.  No slot is allocated and nothing
/// is stored, so later reads of the name emit nothing; the declared type is
/// recorded but no coercion is performed.
pub fn compile_let_create(
    tokens: &mut Cursor,
    b: &mut Builder,
    varmap: &Env,
    local_varmap: &mut Env,
) -> (r: Result<(), CompileError>)
    requires
        old(tokens).wf(),
        old(b).wf(),
    ensures
        final(tokens).wf(),
        final(tokens).tokens == old(tokens).tokens,
        final(tokens).index >= old(tokens).index,
        r is Ok ==> final(tokens).index > old(tokens).index,
        final(b).wf(),
        stmt_frame(*old(b), *final(b)),
        expr_frame(*old(b), *final(b)),
        r is Err ==> final(local_varmap)@ == old(local_varmap)@,
        r is Ok ==> {
            let t = spec_ty_of(ident_at(old(tokens).tokens@, old(tokens).index as int)->0)->0;
            let nm = ident_at(old(tokens).tokens@, old(tokens).index + 1)->0;
            &&& ident_at(old(tokens).tokens@, old(tokens).index as int) is Some
            &&& spec_ty_of(ident_at(old(tokens).tokens@, old(tokens).index as int)->0) is Some
            &&& ident_at(old(tokens).tokens@, old(tokens).index + 1) is Some
            &&& final(local_varmap)@.dom() =~= old(local_varmap)@.dom().insert(nm)
            &&& (final(local_varmap)@[nm] matches BindingV::Direct { ty: dty, val: _ } && dty
                == TyV::Scalar(t))
            &&& (forall|k: Seq<char>|
                old(local_varmap)@.contains_key(k) && k != nm
                    ==> #[trigger] final(local_varmap)@[k] == old(local_varmap)@[k])
        },
        r is Ok <==> {
            let toks = old(tokens).tokens@;
            let i0 = old(tokens).index as int;
            &&& ident_at(toks, i0) is Some
            &&& spec_ty_of(ident_at(toks, i0)->0) is Some
            &&& ident_at(toks, i0 + 1) is Some
            &&& ident_at(toks, i0 + 2) == Some("be"@)
            &&& spec_expr(toks, i0 + 3, varmap@.dom().union(old(local_varmap)@.dom())) is Some
        },
        r is Ok ==> final(tokens).index as int == spec_expr(
            old(tokens).tokens@,
            old(tokens).index + 3,
            varmap@.dom().union(old(local_varmap)@.dom()),
        )->0,
        r is Ok ==> final(b).module@.globals =~= old(b).module@.globals + strs_in(
            old(tokens).tokens@,
            old(tokens).index as int,
            final(tokens).index as int,
        ),
        r is Err ==> !(r->Err_0 is MissingEntryPoint),
{
    let ghost pre = *b;
    let ghost toks = tokens.tokens@;
    let ghost i0 = tokens.index as int;
    proof {
        lemma_expr_frame_refl(pre);
        lemma_stmt_frame_refl(pre);
    }
    let tk = tokens.ident_next("type")?;
    let ty = ty_str_to_ty(tk.as_str())?;
    let name = tokens.ident_next("name")?;
    tokens.expect_ident("be")?;
    let v = compile_expression(tokens, b, varmap, &*local_varmap, &name)?;
    proof {
        lemma_strs_in_one(toks, i0);
        lemma_strs_in_one(toks, i0 + 1);
        lemma_strs_in_one(toks, i0 + 2);
        lemma_strs_in_concat(toks, i0, i0 + 1, tokens.index as int);
        lemma_strs_in_concat(toks, i0 + 1, i0 + 2, tokens.index as int);
        lemma_strs_in_concat(toks, i0 + 2, i0 + 3, tokens.index as int);
    }
    proof {
        lemma_expr_to_stmt_frame(pre, *b);
    }
    let ghost nm = name@;
    local_varmap.insert(name, Binding::Direct { ty: Ty::Scalar(ty), val: v });
    proof {
        assert(local_varmap@.dom() =~= old(local_varmap)@.dom().insert(nm));
    }
    Ok(())
}

/// Lower `update <name> to <expr>`: resolve the name, evaluate, and store
/// the value through the symbol's stored value.  That the symbol is
/// addressable is not enforced: a direct symbol's value is stored through
/// unchecked, exactly as the environment hands it out.
pub fn compile_var_update(
    tokens: &mut Cursor,
    b: &mut Builder,
    varmap: &Env,
    local_varmap: &Env,
) -> (r: Result<(), CompileError>)
    requires
        old(tokens).wf(),
        old(b).wf(),
    ensures
        final(tokens).wf(),
        final(tokens).tokens == old(tokens).tokens,
        final(tokens).index >= old(tokens).index,
        r is Ok ==> final(tokens).index > old(tokens).index,
        final(b).wf(),
        stmt_frame(*old(b), *final(b)),
        expr_frame(*old(b), *final(b)),
        r is Ok ==> {
            let nm = ident_at(old(tokens).tokens@, old(tokens).index as int)->0;
            &&& ident_at(old(tokens).tokens@, old(tokens).index as int) is Some
            &&& lookup2(varmap@, local_varmap@, nm) is Some
            &&& final(b).cur_instrs().len() > old(b).cur_instrs().len()
            &&& (final(b).cur_instrs().last() matches InstrV::Store { val: _, addr } && addr
                == sym_val_of(lookup2(varmap@, local_varmap@, nm)->0))
            &&& (spec_simple_val(old(tokens).tokens@, old(tokens).index + 2, varmap@, local_varmap@)
                is Some ==> (final(b).cur_instrs().last() matches InstrV::Store { val, addr: _ }
                && val == spec_simple_val(
                old(tokens).tokens@,
                old(tokens).index + 2,
                varmap@,
                local_varmap@,
            )->0))
        },
        r is Ok <==> {
            let toks = old(tokens).tokens@;
            let i0 = old(tokens).index as int;
            &&& ident_at(toks, i0) is Some
            &&& i0 + 1 < toks.len()
            &&& varmap@.dom().union(local_varmap@.dom()).contains(ident_at(toks, i0)->0)
            &&& ident_at(toks, i0 + 1) == Some("to"@)
            &&& spec_expr(toks, i0 + 2, varmap@.dom().union(local_varmap@.dom())) is Some
        },
        r is Ok ==> final(tokens).index as int == spec_expr(
            old(tokens).tokens@,
            old(tokens).index + 2,
            varmap@.dom().union(local_varmap@.dom()),
        )->0,
        r is Ok ==> final(b).module@.globals =~= old(b).module@.globals + strs_in(
            old(tokens).tokens@,
            old(tokens).index as int,
            final(tokens).index as int,
        ),
        r is Err && ident_at(old(tokens).tokens@, old(tokens).index as int) is Some && old(
            tokens,
        ).index + 1 < old(tokens).tokens@.len() && !varmap@.dom().union(
            local_varmap@.dom(),
        ).contains(ident_at(old(tokens).tokens@, old(tokens).index as int)->0) ==> r->Err_0
            is UndefinedVariable,
        r is Err ==> !(r->Err_0 is MissingEntryPoint),
{
    let ghost pre = *b;
    proof {
        lemma_expr_frame_refl(pre);
        lemma_stmt_frame_refl(pre);
    }
    let name = tokens.ident_next("name")?;
    // The diagnostic location for an unresolved name is taken from the token
    // after it, which must therefore exist.
    let loc = match tokens.this() {
        Ok(t) => t.span,
        Err(e) => {
            return Err(e);
        },
    };
    let bind = get_var(name.as_str(), loc, varmap, local_varmap)?;
    let addr = match bind {
        Binding::Direct { ty: _, val } => val,
        Binding::Slot { ty: _, addr } => addr,
    };
    tokens.expect_ident("to")?;
    let v = compile_expression(tokens, b, varmap, local_varmap, &name)?;
    proof {
        let toks = old(tokens).tokens@;
        let i0 = old(tokens).index as int;
        lemma_strs_in_one(toks, i0);
        lemma_strs_in_one(toks, i0 + 1);
        lemma_strs_in_concat(toks, i0, i0 + 1, tokens.index as int);
        lemma_strs_in_concat(toks, i0 + 1, i0 + 2, tokens.index as int);
    }
    let ghost mid = *b;
    b.emit(Instr::Store { val: v, addr });
    proof {
        lemma_expr_frame_emit(mid, *b, InstrV::Store { val: v, addr });
        lemma_expr_frame_trans(pre, mid, *b);
        lemma_expr_to_stmt_frame(pre, *b);
    }
    Ok(())
}

// ---------------------------------------------------------------------------
// Statement lists and control flow
// ---------------------------------------------------------------------------
/// Every unconditional branch among the instructions of `f1` not already in
/// `f0` targets a block index at least `bound`.
pub open spec fn new_unconditional_brs_at_least(f0: FnV, f1: FnV, bound: int) -> bool {
    forall|j: int, k: int|
        0 <= j < f1.blocks.len() && 0 <= k < f1.blocks[j].instrs.len() && (j >= f0.blocks.len()
            || k >= f0.blocks[j].instrs.len()) ==> match #[trigger] f1.blocks[j].instrs[k] {
            InstrV::Br { target } => target >= bound,
            _ => true,
        }
}

/// One statement: the new local domain, the position past the statement,
/// and whether it diverges.  `return` always diverges; an `if` diverges
/// when both arms do; nothing else does.
pub open spec fn spec_stmt(
    toks: Seq<Token>,
    i: int,
    gdom: Set<Seq<char>>,
    ldom: Set<Seq<char>>,
) -> Option<(Set<Seq<char>>, int, bool)>
    decreases toks.len() - i, 0int,
{
    match ident_at(toks, i) {
        Option::Some(kw) => if kw == "return"@ {
            match ident_at(toks, i + 1) {
                Option::Some(w) => if w == "end"@ {
                    Some((ldom, i + 2, true))
                } else {
                    match spec_expr(toks, i + 1, gdom.union(ldom)) {
                        Option::Some(j) => Some((ldom, j, true)),
                        Option::None => None,
                    }
                },
                Option::None => None,
            }
        } else if kw == "var"@ {
            match (ident_at(toks, i + 1), ident_at(toks, i + 2)) {
                (Option::Some(tk), Option::Some(nm)) => if spec_ty_of(tk) is Some && ident_at(
                    toks,
                    i + 3,
                ) == Some("is"@) {
                    match spec_expr(toks, i + 4, gdom.union(ldom)) {
                        Option::Some(j) => Some((ldom.insert(nm), j, false)),
                        Option::None => None,
                    }
                } else {
                    None
                },
                _ => None,
            }
        } else if kw == "update"@ {
            match ident_at(toks, i + 1) {
                Option::Some(nm) => if i + 2 < toks.len() && gdom.union(ldom).contains(nm)
                    && ident_at(toks, i + 2) == Some("to"@) {
                    match spec_expr(toks, i + 3, gdom.union(ldom)) {
                        Option::Some(j) => Some((ldom, j, false)),
                        Option::None => None,
                    }
                } else {
                    None
                },
                Option::None => None,
            }
        } else if kw == "let"@ {
            match (ident_at(toks, i + 1), ident_at(toks, i + 2)) {
                (Option::Some(tk), Option::Some(nm)) => if spec_ty_of(tk) is Some && ident_at(
                    toks,
                    i + 3,
                ) == Some("be"@) {
                    match spec_expr(toks, i + 4, gdom.union(ldom)) {
                        Option::Some(j) => Some((ldom.insert(nm), j, false)),
                        Option::None => None,
                    }
                } else {
                    None
                },
                _ => None,
            }
        } else if kw == "if"@ {
            match spec_if(toks, i + 1, gdom, ldom) {
                Option::Some((j, d)) => Some((ldom, j, d)),
                Option::None => None,
            }
        } else if kw == "while"@ {
            match spec_while(toks, i + 1, gdom, ldom) {
                Option::Some((j, _)) => Some((ldom, j, false)),
                Option::None => None,
            }
        } else {
            match spec_expr(toks, i, gdom.union(ldom)) {
                Option::Some(j) => Some((ldom, j, false)),
                Option::None => None,
            }
        },
        Option::None => None,
    }
}

/// A statement list up to (not past) its closing keyword: the final local
/// domain, the closing keyword's position, and whether any statement
/// diverged.
pub open spec fn spec_stmts(
    toks: Seq<Token>,
    i: int,
    gdom: Set<Seq<char>>,
    ldom: Set<Seq<char>>,
    if_arm: bool,
) -> Option<(Set<Seq<char>>, int, bool)>
    decreases toks.len() - i, 2int,
{
    if 0 <= i < toks.len() {
        let stop = match toks[i].kind {
            TokenKind::Ident(st) => if if_arm {
                st@ == "end"@ || st@ == "else"@ || st@ == "elif"@
            } else {
                st@ == "end"@
            },
            _ => false,
        };
        if stop {
            Some((ldom, i, false))
        } else {
            match spec_stmt(toks, i, gdom, ldom) {
                Option::Some((ld2, j, d)) => if i < j && j <= toks.len() {
                    match spec_stmts(toks, j, gdom, ld2, if_arm) {
                        Option::Some((ld3, jj, d2)) => Some((ld3, jj, d || d2)),
                        Option::None => None,
                    }
                } else {
                    None
                },
                Option::None => None,
            }
        }
    } else {
        None
    }
}

/// The `if` chain production, cursor past the `if`/`elif` keyword: the
/// position past the chain's single `end`, and whether every arm diverges.
/// An empty or absent else arm does not diverge.
pub open spec fn spec_if(
    toks: Seq<Token>,
    i: int,
    gdom: Set<Seq<char>>,
    ldom: Set<Seq<char>>,
) -> Option<(int, bool)>
    decreases toks.len() - i, 1int,
{
    match spec_expr(toks, i, gdom.union(ldom)) {
        Option::Some(j1) => if ident_at(toks, j1) == Some("do"@) && i <= j1 {
            match spec_stmts(toks, j1 + 1, gdom, ldom, true) {
                Option::Some((_, j2, then_div)) => match ident_at(toks, j2) {
                    Option::Some(cont) => if cont == "end"@ {
                        Some((j2 + 1, false))
                    } else if cont == "elif"@ {
                        if i < j2 + 1 {
                            match spec_if(toks, j2 + 1, gdom, ldom) {
                                Option::Some((j3, ediv)) => Some((j3, then_div && ediv)),
                                Option::None => None,
                            }
                        } else {
                            None
                        }
                    } else if cont == "else"@ {
                        if i < j2 + 1 {
                            match spec_stmts(toks, j2 + 1, gdom, ldom, false) {
                                Option::Some((_, j3, ediv)) => if ident_at(toks, j3) == Some(
                                    "end"@,
                                ) {
                                    Some((j3 + 1, then_div && ediv))
                                } else {
                                    None
                                },
                                Option::None => None,
                            }
                        } else {
                            None
                        }
                    } else {
                        None
                    },
                    Option::None => None,
                },
                Option::None => None,
            }
        } else {
            None
        },
        Option::None => None,
    }
}

/// The `while` production, cursor past the `while` keyword: the position
/// past the closing `end`, and whether the body diverged.
pub open spec fn spec_while(
    toks: Seq<Token>,
    i: int,
    gdom: Set<Seq<char>>,
    ldom: Set<Seq<char>>,
) -> Option<(int, bool)>
    decreases toks.len() - i, 1int,
{
    match spec_expr(toks, i, gdom.union(ldom)) {
        Option::Some(j1) => if ident_at(toks, j1) == Some("do"@) && i <= j1 {
            match spec_stmts(toks, j1 + 1, gdom, ldom, false) {
                Option::Some((_, j2, d)) => if ident_at(toks, j2) == Some("end"@) {
                    Some((j2 + 1, d))
                } else {
                    None
                },
                Option::None => None,
            }
        } else {
            None
        },
        Option::None => None,
    }
}

/// Join-edge suppression, spelled out: when everything a construct emitted
/// keeps its unconditional branches at or above `bound`, no unconditional
/// branch to any lower block — in particular an `if` construct's
/// continuation block, created below `bound` — was emitted.
pub proof fn lemma_no_branch_below_bound(f0: FnV, f1: FnV, bound: int, t: int)
    requires
        new_unconditional_brs_at_least(f0, f1, bound),
        t < bound,
    ensures
        forall|j: int, k: int|
            0 <= j < f1.blocks.len() && 0 <= k < f1.blocks[j].instrs.len() && (j
                >= f0.blocks.len() || k >= f0.blocks[j].instrs.len())
                ==> match #[trigger] f1.blocks[j].instrs[k] {
                InstrV::Br { target } => target != t,
                _ => true,
            },
{
}

/// Compile statements until the closing keyword: `end` alone for function
/// and loop bodies and `else` arms (`if_arm == false`), or any of
/// `end`/`else`/`elif` inside an `if` arm (`if_arm == true`).  The closing
/// keyword is peeked, not consumed.  The flag is whether any of the
/// statements diverged.
pub fn compile_statements(
    tokens: &mut Cursor,
    b: &mut Builder,
    varmap: &Env,
    local_varmap: &mut Env,
    if_arm: bool,
) -> (r: Result<bool, CompileError>)
    requires
        old(tokens).wf(),
        old(b).wf(),
    ensures
        final(tokens).wf(),
        final(tokens).tokens == old(tokens).tokens,
        final(tokens).index >= old(tokens).index,
        final(b).wf(),
        stmt_frame(*old(b), *final(b)),
        r is Ok && !if_arm ==> ident_at(final(tokens).tokens@, final(tokens).index as int) == Some(
            "end"@,
        ),
        r is Ok && if_arm ==> {
            let stop = ident_at(final(tokens).tokens@, final(tokens).index as int);
            stop == Some("end"@) || stop == Some("else"@) || stop == Some("elif"@)
        },
        r is Ok ==> final(b).module@.globals =~= old(b).module@.globals + strs_in(
            old(tokens).tokens@,
            old(tokens).index as int,
            final(tokens).index as int,
        ),
        r is Ok && final(tokens).index == old(tokens).index ==> *final(b) == *old(b),
        ident_at(old(tokens).tokens@, old(tokens).index as int) == Some("end"@) && r is Ok
            ==> final(tokens).index == old(tokens).index && *final(b) == *old(b),
        r is Ok <==> spec_stmts(
            old(tokens).tokens@,
            old(tokens).index as int,
            varmap@.dom(),
            old(local_varmap)@.dom(),
            if_arm,
        ) is Some,
        r is Ok ==> {
            let (ld, j, d) = spec_stmts(
                old(tokens).tokens@,
                old(tokens).index as int,
                varmap@.dom(),
                old(local_varmap)@.dom(),
                if_arm,
            )->0;
            &&& final(local_varmap)@.dom() =~= ld
            &&& final(tokens).index as int == j
            &&& r->Ok_0 == d
        },
        r is Err ==> !(r->Err_0 is MissingEntryPoint),
    decreases old(tokens).remaining(), 1int,
{
    let ghost pre = *b;
    proof {
        lemma_stmt_frame_refl(pre);
    }
    let stop = {
        let tok = match tokens.this() {
            Ok(t) => t,
            Err(e) => {
                return Err(e);
            },
        };
        match &tok.kind {
            TokenKind::Ident(id) => if if_arm {
                str_eq(id.as_str(), "end") || str_eq(id.as_str(), "else") || str_eq(
                    id.as_str(),
                    "elif",
                )
            } else {
                str_eq(id.as_str(), "end")
            },
            _ => false,
        }
    };
    let ghost toks = tokens.tokens@;
    let ghost i0 = tokens.index as int;
    if stop {
        return Ok(false);
    }
    let d = compile_statement(tokens, b, varmap, local_varmap)?;
    let ghost j1 = tokens.index as int;
    let ghost mid = *b;
    let rest_r = compile_statements(tokens, b, varmap, local_varmap, if_arm);
    proof {
        lemma_stmt_frame_trans(pre, mid, *b);
    }
    let rest = rest_r?;
    proof {
        lemma_strs_in_concat(toks, i0, j1, tokens.index as int);
        assert(b.module@.globals =~= pre.module@.globals + strs_in(
            toks,
            i0,
            tokens.index as int,
        ));
    }
    Ok(d || rest)
}

/// Dispatch one statement on its leading identifier: `var`, `update`,
/// `let`, `return`, `if`, `while`, or a bare expression whose result is
/// discarded.  The flag says whether the statement unconditionally
/// terminated the current block: `return` always does, an `if` does when
/// every arm does, and nothing else does.
pub fn compile_statement(
    tokens: &mut Cursor,
    b: &mut Builder,
    varmap: &Env,
    local_varmap: &mut Env,
) -> (r: Result<bool, CompileError>)
    requires
        old(tokens).wf(),
        old(b).wf(),
    ensures
        final(tokens).wf(),
        final(tokens).tokens == old(tokens).tokens,
        final(tokens).index >= old(tokens).index,
        r is Ok ==> final(tokens).index > old(tokens).index,
        final(b).wf(),
        stmt_frame(*old(b), *final(b)),
        r is Ok && ident_at(old(tokens).tokens@, old(tokens).index as int) == Some("return"@)
            ==> r->Ok_0 == true,
        r is Ok <==> spec_stmt(
            old(tokens).tokens@,
            old(tokens).index as int,
            varmap@.dom(),
            old(local_varmap)@.dom(),
        ) is Some,
        r is Ok ==> {
            let (ld, j, d) = spec_stmt(
                old(tokens).tokens@,
                old(tokens).index as int,
                varmap@.dom(),
                old(local_varmap)@.dom(),
            )->0;
            &&& final(local_varmap)@.dom() =~= ld
            &&& final(tokens).index as int == j
            &&& r->Ok_0 == d
        },
        r is Ok ==> final(b).module@.globals =~= old(b).module@.globals + strs_in(
            old(tokens).tokens@,
            old(tokens).index as int,
            final(tokens).index as int,
        ),
        r is Err ==> !(r->Err_0 is MissingEntryPoint),
    decreases old(tokens).remaining(), 0int,
{
    let ghost pre = *b;
    proof {
        lemma_stmt_frame_refl(pre);
    }
    let ghost toks = tokens.tokens@;
    let ghost i0 = tokens.index as int;
    let kw = tokens.ident_next("[let|<expr>]")?;
    let rr = if str_eq(kw.as_str(), "return") {
        compile_return(tokens, b, varmap, &*local_varmap)?;
        true
    } else if str_eq(kw.as_str(), "var") {
        compile_var_create(tokens, b, varmap, local_varmap)?;
        false
    } else if str_eq(kw.as_str(), "update") {
        compile_var_update(tokens, b, varmap, &*local_varmap)?;
        false
    } else if str_eq(kw.as_str(), "let") {
        compile_let_create(tokens, b, varmap, local_varmap)?;
        false
    } else if str_eq(kw.as_str(), "if") {
        let d = compile_if(tokens, b, varmap, &*local_varmap)?;
        d
    } else if str_eq(kw.as_str(), "while") {
        compile_while(tokens, b, varmap, &*local_varmap)?;
        false
    } else {
        tokens.rewind();
        compile_expression(tokens, b, varmap, &*local_varmap, "")?;
        proof {
            lemma_expr_to_stmt_frame(pre, *b);
        }
        false
    };
    proof {
        lemma_strs_in_one(toks, i0);
        lemma_strs_in_concat(toks, i0, i0 + 1, tokens.index as int);
        assert(b.module@.globals =~= pre.module@.globals + strs_in(
            toks,
            i0,
            tokens.index as int,
        ));
    }
    Ok(rr)
}

/// Lower `while <cond> do <stmt>* end`; the cursor stands just past the
/// consumed `while` keyword.
///
/// Three blocks are created: the condition block, the body block, and the
/// continuation.  The old current block receives exactly one unconditional
/// branch to the condition block; the condition block evaluates the
/// condition and ends with a conditional branch to body/continuation; after
/// the body, unless it diverged, the block then current receives the
/// back-edge to the condition block.  The flag reports whether the body
/// diverged; a `while` statement itself never diverges.
pub fn compile_while(
    tokens: &mut Cursor,
    b: &mut Builder,
    varmap: &Env,
    local_varmap: &Env,
) -> (r: Result<bool, CompileError>)
    requires
        old(tokens).wf(),
        old(b).wf(),
    ensures
        final(tokens).wf(),
        final(tokens).tokens == old(tokens).tokens,
        final(tokens).index >= old(tokens).index,
        r is Ok ==> final(tokens).index > old(tokens).index,
        final(b).wf(),
        stmt_frame(*old(b), *final(b)),
        r is Ok ==> {
            let n = old(b).cur_blocks().len() as int;
            &&& final(b).cur_blocks().len() >= n + 3
            &&& final(b).cur_blocks()[n].tag == BlockTag::Cond
            &&& final(b).cur_blocks()[n + 1].tag == BlockTag::Body
            &&& final(b).cur_blocks()[n + 2].tag == BlockTag::WhileCont
            &&& final(b).block == n + 2
            &&& final(b).cur_blocks()[old(b).block as int].instrs =~= old(b).cur_instrs().push(
                InstrV::Br { target: n },
            )
            &&& final(b).cur_blocks()[n].instrs.len() > 0
            &&& (final(b).cur_blocks()[n].instrs.last() matches InstrV::CondBr {
                cond: _,
                if_true,
                if_false,
            } && if_true == n + 1 && if_false == n + 2)
            &&& (spec_simple_val(
                old(tokens).tokens@,
                old(tokens).index as int,
                varmap@,
                local_varmap@,
            ) is Some ==> final(b).cur_blocks()[n].instrs.last() == (InstrV::CondBr {
                cond: spec_simple_val(
                    old(tokens).tokens@,
                    old(tokens).index as int,
                    varmap@,
                    local_varmap@,
                )->0,
                if_true: n + 1,
                if_false: n + 2,
            }))
            &&& (forall|k: int|
                0 <= k < final(b).cur_blocks()[n].instrs.len() - 1 ==> !is_terminator(
                    #[trigger] final(b).cur_blocks()[n].instrs[k],
                ))
        },
        r == Ok::<bool, CompileError>(false) ==> {
            let n = old(b).cur_blocks().len() as int;
            exists|j: int|
                n + 1 <= j < final(b).cur_blocks().len() && (#[trigger] final(b).cur_blocks()[j]).instrs.len()
                    > 0 && final(b).cur_blocks()[j].instrs.last() == InstrV::Br { target: n }
        },
        r is Ok <==> spec_while(
            old(tokens).tokens@,
            old(tokens).index as int,
            varmap@.dom(),
            local_varmap@.dom(),
        ) is Some,
        r is Ok ==> {
            let (j, d) = spec_while(
                old(tokens).tokens@,
                old(tokens).index as int,
                varmap@.dom(),
                local_varmap@.dom(),
            )->0;
            &&& final(tokens).index as int == j
            &&& r->Ok_0 == d
        },
        r is Ok ==> final(b).module@.globals =~= old(b).module@.globals + strs_in(
            old(tokens).tokens@,
            old(tokens).index as int,
            final(tokens).index as int,
        ),

        r is Err ==> !(r->Err_0 is MissingEntryPoint),
    decreases old(tokens).remaining(), 1int,
{
    let ghost pre = *b;
    let ghost n = pre.cur_blocks().len() as int;
    let ghost entry = pre.block as int;
    proof {
        lemma_stmt_frame_refl(pre);
    }
    let cond_block = b.add_block(BlockTag::Cond);
    proof {
        lemma_stmt_frame_add_block(pre, pre, *b, BlockTag::Cond);
    }
    let ghost c1 = *b;
    let body_block = b.add_block(BlockTag::Body);
    proof {
        lemma_stmt_frame_add_block(pre, c1, *b, BlockTag::Body);
    }
    let ghost c2 = *b;
    let continue_block = b.add_block(BlockTag::WhileCont);
    proof {
        lemma_stmt_frame_add_block(pre, c2, *b, BlockTag::WhileCont);
    }
    let ghost c3 = *b;
    b.emit(Instr::Br { target: cond_block });
    let ghost c4 = *b;
    proof {
        lemma_stmt_frame_snoc(pre, c3, c4, InstrV::Br { target: n });
        assert(c4.cur_blocks()[entry].instrs =~= pre.cur_instrs().push(InstrV::Br { target: n }));
    }
    b.set_block(cond_block);
    let ghost c5 = *b;
    proof {
        lemma_stmt_frame_set_block(pre, c4, c5);
        assert(c5.cur_instrs() =~= Seq::<InstrV>::empty());
    }
    let ghost toksw = tokens.tokens@;
    let ghost iw = tokens.index as int;
    let cond_val = compile_expression(tokens, b, varmap, local_varmap, "")?;
    let ghost je = tokens.index as int;
    let ghost c6 = *b;
    proof {
        lemma_expr_to_stmt_frame(c5, c6);
        lemma_stmt_frame_trans(pre, c5, c6);
    }
    tokens.expect_ident("do")?;
    b.emit(Instr::CondBr { cond: cond_val, if_true: body_block, if_false: continue_block });
    let ghost c7 = *b;
    proof {
        lemma_stmt_frame_snoc(pre, c6, c7, InstrV::CondBr { cond: cond_val, if_true: n + 1, if_false: n + 2 });
        assert(c7.cur_blocks()[entry] == c4.cur_blocks()[entry]);
    }
    b.set_block(body_block);
    let ghost c8 = *b;
    proof {
        lemma_stmt_frame_set_block(pre, c7, c8);
    }
    let mut body_local_varmap = local_varmap.snapshot();
    let does_return = compile_statements(tokens, b, varmap, &mut body_local_varmap, false)?;
    let ghost j2 = tokens.index as int;
    let ghost c9 = *b;
    proof {
        lemma_stmt_frame_trans(pre, c8, c9);
        assert(c9.cur_blocks()[entry] == c8.cur_blocks()[entry]);
        assert(c9.cur_blocks()[n] == c8.cur_blocks()[n]);
        assert(c9.cur_blocks()[n].tag == BlockTag::Cond);
        assert(c9.cur_blocks()[n + 1].tag == BlockTag::Body);
        assert(c9.cur_blocks()[n + 2].tag == BlockTag::WhileCont);
    }
    tokens.expect_ident("end")?;
    if !does_return {
        b.emit(Instr::Br { target: cond_block });
        proof {
            lemma_stmt_frame_snoc(pre, c9, *b, InstrV::Br { target: n });
        }
    }
    let ghost c10 = *b;
    proof {
        assert(c10.cur_blocks()[entry] == c9.cur_blocks()[entry]);
        assert(c10.cur_blocks()[n] == c9.cur_blocks()[n]);
        if !does_return {
            assert(c10.cur_blocks()[c9.block as int].instrs.last() == InstrV::Br { target: n });
            assert(c9.block == n + 1 || c9.block >= n + 3);
        }
    }
    b.set_block(continue_block);
    proof {
        lemma_stmt_frame_set_block(pre, c10, *b);
        assert(b.cur_blocks()[entry] == c10.cur_blocks()[entry]);
        if !does_return {
            let jb = c9.block as int;
            assert(n + 1 <= jb < b.cur_blocks().len() && b.cur_blocks()[jb].instrs.len() > 0
                && b.cur_blocks()[jb].instrs.last() == InstrV::Br { target: n });
        }
        lemma_strs_in_one(toksw, je);
        lemma_strs_in_one(toksw, j2);
        lemma_strs_in_concat(toksw, iw, je, tokens.index as int);
        lemma_strs_in_concat(toksw, je, je + 1, tokens.index as int);
        lemma_strs_in_concat(toksw, je + 1, j2, tokens.index as int);
        assert(b.module@.globals =~= pre.module@.globals + strs_in(
            toksw,
            iw,
            tokens.index as int,
        ));
    }
    Ok(does_return)
}

/// Lower `if <cond> do <stmt>* (elif <cond> do <stmt>*)* (else <stmt>*)? end`;
/// the cursor stands just past the consumed `if` keyword.  The whole chain
/// is closed by a single `end`: an `elif` arm is compiled as an `if` nested
/// in the else block, and the nested call consumes the chain's `end`.
///
/// Three blocks are created: then, else, and the continuation.  The old
/// current block ends with a conditional branch to then/else.  Each arm is
/// compiled under a snapshot of the local environment, so bindings made
/// inside an arm do not survive the join; after an arm that did not diverge,
/// the block then current receives an unconditional branch to the
/// continuation.  The flag reports whether both arms diverged; when they
/// did, both join edges are suppressed and no unconditional branch into any
/// block that existed before the `if` — the continuation block included —
/// is emitted anywhere in the construct.
#[verifier::rlimit(100)]
pub fn compile_if(
    tokens: &mut Cursor,
    b: &mut Builder,
    varmap: &Env,
    local_varmap: &Env,
) -> (r: Result<bool, CompileError>)
    requires
        old(tokens).wf(),
        old(b).wf(),
    ensures
        final(tokens).wf(),
        final(tokens).tokens == old(tokens).tokens,
        final(tokens).index >= old(tokens).index,
        r is Ok ==> final(tokens).index > old(tokens).index,
        final(b).wf(),
        stmt_frame(*old(b), *final(b)),
        r is Ok ==> {
            let n = old(b).cur_blocks().len() as int;
            &&& final(b).cur_blocks().len() >= n + 3
            &&& final(b).cur_blocks()[n].tag == BlockTag::Then
            &&& final(b).cur_blocks()[n + 1].tag == BlockTag::Else
            &&& final(b).cur_blocks()[n + 2].tag == BlockTag::IfCont
            &&& final(b).block == n + 2
            &&& final(b).cur_blocks()[old(b).block as int].instrs.len() > old(
                b,
            ).cur_instrs().len()
            &&& (final(b).cur_blocks()[old(b).block as int].instrs.last()
                matches InstrV::CondBr { cond: _, if_true, if_false } && if_true == n && if_false
                == n + 1)
            &&& (spec_simple_val(
                old(tokens).tokens@,
                old(tokens).index as int,
                varmap@,
                local_varmap@,
            ) is Some ==> final(b).cur_blocks()[old(b).block as int].instrs.last()
                == (InstrV::CondBr {
                cond: spec_simple_val(
                    old(tokens).tokens@,
                    old(tokens).index as int,
                    varmap@,
                    local_varmap@,
                )->0,
                if_true: n,
                if_false: n + 1,
            }))
            &&& (forall|k: int|
                old(b).cur_instrs().len() <= k < final(b).cur_blocks()[old(b).block as int].instrs.len()
                    - 1 ==> !is_terminator(
                    #[trigger] final(b).cur_blocks()[old(b).block as int].instrs[k],
                ))
        },
        r == Ok::<bool, CompileError>(true) ==> new_unconditional_brs_at_least(
            old(b).module@.functions[old(b).func as int],
            final(b).module@.functions[old(b).func as int],
            old(b).cur_blocks().len() as int + 3,
        ),
        r is Ok <==> spec_if(
            old(tokens).tokens@,
            old(tokens).index as int,
            varmap@.dom(),
            local_varmap@.dom(),
        ) is Some,
        r is Ok ==> {
            // an absent else arm leaves the else block holding exactly the
            // unconditional branch to the continuation
            let toks = old(tokens).tokens@;
            let i0 = old(tokens).index as int;
            let j1 = spec_expr(toks, i0, varmap@.dom().union(local_varmap@.dom()))->0;
            let j2 = (spec_stmts(toks, j1 + 1, varmap@.dom(), local_varmap@.dom(), true)->0).1;
            let n = old(b).cur_blocks().len() as int;
            ident_at(toks, j2) == Some("end"@) ==> final(b).cur_blocks()[n + 1].instrs =~= seq![
                InstrV::Br { target: n + 2 },
            ]
        },
        r is Ok ==> {
            let (j, d) = spec_if(
                old(tokens).tokens@,
                old(tokens).index as int,
                varmap@.dom(),
                local_varmap@.dom(),
            )->0;
            &&& final(tokens).index as int == j
            &&& r->Ok_0 == d
        },
        r is Ok ==> final(b).module@.globals =~= old(b).module@.globals + strs_in(
            old(tokens).tokens@,
            old(tokens).index as int,
            final(tokens).index as int,
        ),

        r is Err ==> !(r->Err_0 is MissingEntryPoint),
    decreases old(tokens).remaining(), 1int,
{
    let ghost pre = *b;
    let ghost n = pre.cur_blocks().len() as int;
    let ghost entry = pre.block as int;
    proof {
        lemma_stmt_frame_refl(pre);
    }
    let ghost toksq = tokens.tokens@;
    let ghost iq = tokens.index as int;
    let cond_val = compile_expression(tokens, b, varmap, local_varmap, "")?;
    let ghost je = tokens.index as int;
    let ghost c1 = *b;
    proof {
        lemma_expr_to_stmt_frame(pre, c1);
    }
    tokens.expect_ident("do")?;
    let then_block = b.add_block(BlockTag::Then);
    proof {
        lemma_stmt_frame_add_block(pre, c1, *b, BlockTag::Then);
    }
    let ghost c2 = *b;
    let else_block = b.add_block(BlockTag::Else);
    proof {
        lemma_stmt_frame_add_block(pre, c2, *b, BlockTag::Else);
    }
    let ghost c3 = *b;
    let continue_block = b.add_block(BlockTag::IfCont);
    proof {
        lemma_stmt_frame_add_block(pre, c3, *b, BlockTag::IfCont);
    }
    let ghost c4 = *b;
    b.emit(Instr::CondBr { cond: cond_val, if_true: then_block, if_false: else_block });
    let ghost c5 = *b;
    proof {
        lemma_stmt_frame_snoc(pre, c4, c5, InstrV::CondBr { cond: cond_val, if_true: n, if_false: n + 1 });
        assert(c5.cur_blocks()[entry].instrs.len() > pre.cur_instrs().len());
        assert(c5.cur_blocks()[entry].instrs.last() == InstrV::CondBr {
            cond: cond_val,
            if_true: n,
            if_false: n + 1,
        });
        assert(c5.cur_blocks()[n].instrs.len() == 0);
        assert(c5.cur_blocks()[n + 1].instrs.len() == 0);
        assert(c5.cur_blocks()[n + 2].instrs.len() == 0);
    }
    b.set_block(then_block);
    let ghost c6 = *b;
    proof {
        lemma_stmt_frame_set_block(pre, c5, c6);
    }
    let mut then_local_varmap = local_varmap.snapshot();
    let does_return = compile_statements(tokens, b, varmap, &mut then_local_varmap, true)?;
    let ghost j2 = tokens.index as int;
    let ghost c7 = *b;
    proof {
        lemma_stmt_frame_trans(pre, c6, c7);
        assert(c7.cur_blocks()[entry] == c6.cur_blocks()[entry]);
    }
    let continuator = tokens.ident_next("[end|else|elif]")?;
    if !does_return {
        b.emit(Instr::Br { target: continue_block });
        proof {
            lemma_stmt_frame_snoc(pre, c7, *b, InstrV::Br { target: n + 2 });
        }
    }
    let ghost c8 = *b;
    proof {
        assert(c8.cur_blocks()[entry] == c7.cur_blocks()[entry]);
        assert(c8.cur_blocks()[n + 1] == c7.cur_blocks()[n + 1]);
    }
    b.set_block(else_block);
    let ghost c9 = *b;
    proof {
        lemma_stmt_frame_set_block(pre, c8, c9);
    }
    let mut else_local_varmap = local_varmap.snapshot();
    let mut else_does_return = false;
    if !str_eq(continuator.as_str(), "end") {
        if str_eq(continuator.as_str(), "elif") {
            // The nested chain consumes the single `end` that closes the
            // whole construct.
            else_does_return = compile_if(tokens, b, varmap, &else_local_varmap)?;
        } else {
            else_does_return = compile_statements(
                tokens,
                b,
                varmap,
                &mut else_local_varmap,
                false,
            )?;
            let ghost j3 = tokens.index as int;
            proof {
                lemma_strs_in_one(toksq, j3);
            }
            tokens.expect_ident("end")?;
            proof {
                lemma_strs_in_concat(toksq, j2 + 1, j3, tokens.index as int);
            }
        }
    }
    let ghost c10 = *b;
    proof {
        lemma_stmt_frame_trans(pre, c9, c10);
        assert(c10.cur_blocks()[entry] == c9.cur_blocks()[entry]);
        assert(c9.cur_blocks()[n + 1].instrs =~= Seq::<InstrV>::empty()) by {
            assert(c9.cur_blocks()[n + 1] == c8.cur_blocks()[n + 1]);
            assert(c8.cur_blocks()[n + 1] == c7.cur_blocks()[n + 1]);
            assert(c7.cur_blocks()[n + 1] == c6.cur_blocks()[n + 1]);
        }
    }
    if !else_does_return {
        b.emit(Instr::Br { target: continue_block });
        proof {
            lemma_stmt_frame_snoc(pre, c10, *b, InstrV::Br { target: n + 2 });
        }
    }
    let ghost c11 = *b;
    proof {
        assert(c11.cur_blocks()[entry] == c10.cur_blocks()[entry]);
    }
    b.set_block(continue_block);
    proof {
        lemma_stmt_frame_set_block(pre, c11, *b);
        assert(b.cur_blocks()[entry] == c11.cur_blocks()[entry]);
        assert(b.cur_blocks()[n].tag == BlockTag::Then);
        assert(b.cur_blocks()[n + 1].tag == BlockTag::Else);
        assert(b.cur_blocks()[n + 2].tag == BlockTag::IfCont);
        lemma_strs_in_one(toksq, je);
        lemma_strs_in_one(toksq, j2);
        lemma_strs_in_concat(toksq, iq, je, tokens.index as int);
        lemma_strs_in_concat(toksq, je, je + 1, tokens.index as int);
        lemma_strs_in_concat(toksq, je + 1, j2, tokens.index as int);
        lemma_strs_in_concat(toksq, j2, j2 + 1, tokens.index as int);
        assert(b.module@.globals =~= pre.module@.globals + strs_in(
            toksq,
            iq,
            tokens.index as int,
        ));
        if does_return && else_does_return {
            let f0 = pre.module@.functions[pre.func as int];
            let f5 = c5.module@.functions[pre.func as int];
            let f9 = c9.module@.functions[pre.func as int];
            let ff = b.module@.functions[pre.func as int];
            assert forall|j: int, k: int|
                0 <= j < ff.blocks.len() && 0 <= k < ff.blocks[j].instrs.len() && (j
                    >= f0.blocks.len() || k >= f0.blocks[j].instrs.len()) implies match #[trigger] ff.blocks[j].instrs[k] {
                InstrV::Br { target } => target >= n + 3,
                _ => true,
            } by {
                if j < f9.blocks.len() && k < f9.blocks[j].instrs.len() {
                    assert(ff.blocks[j].instrs[k] == f9.blocks[j].instrs[k]) by {
                        assert(fn_extended(f9, ff));
                        assert(f9.blocks[j].instrs.is_prefix_of(ff.blocks[j].instrs));
                    }
                    if j < f5.blocks.len() && k < f5.blocks[j].instrs.len() {
                        assert(f9.blocks[j].instrs[k] == f5.blocks[j].instrs[k]) by {
                            assert(fn_extended(f5, f9));
                            assert(f5.blocks[j].instrs.is_prefix_of(f9.blocks[j].instrs));
                        }
                        // present already when the conditional branch was
                        // emitted: the condition's instructions are not
                        // terminators and the conditional branch is not an
                        // unconditional one
                        if j == entry {
                            if k >= f0.blocks[j].instrs.len() {
                                if k < f5.blocks[j].instrs.len() - 1 {
                                    assert(f5.blocks[j].instrs[k] == c1.cur_instrs()[k]);
                                    assert(!is_terminator(c1.cur_instrs()[k]));
                                } else {
                                    assert(f5.blocks[j].instrs[k] == InstrV::CondBr {
                                        cond: cond_val,
                                        if_true: n,
                                        if_false: n + 1,
                                    });
                                }
                            }
                        } else if j < f0.blocks.len() {
                            assert(f5.blocks[j] == f0.blocks[j]) by {
                                assert(stmt_frame(pre, c5));
                            }
                        } else {
                            assert(f5.blocks[j].instrs.len() == 0);
                        }
                    } else {
                        // added by the then arm, whose branches all target
                        // blocks created inside it
                        assert(new_branches_bounded(f5, f9, n + 3)) by {
                            assert(c6.module == c5.module);
                            assert(c9.module == c7.module);
                            assert(stmt_frame(c6, c7));
                            assert(c6.cur_blocks().len() == n + 3);
                        }
                        assert(branch_targets_at_least(f9.blocks[j].instrs[k], n + 3));
                    }
                } else {
                    // added by the else arm
                    assert(new_branches_bounded(f9, ff, n + 3)) by {
                        assert(stmt_frame(c9, c10));
                        assert(c9.cur_blocks().len() >= n + 3);
                        assert(c11.module == c10.module);
                        assert(b.module == c11.module);
                        assert(new_branches_bounded(f9, c10.module@.functions[pre.func as int], c9.cur_blocks().len() as int));
                    }
                    assert(branch_targets_at_least(ff.blocks[j].instrs[k], n + 3));
                }
            }
        }
    }
    Ok(does_return && else_does_return)
}

// ---------------------------------------------------------------------------
// Top-level forms and the module
// ---------------------------------------------------------------------------
/// The IR return type a signature's optional return keyword denotes: absent
/// means void.
pub open spec fn ret_ty_of(ret: Option<Seq<char>>) -> Option<IrType> {
    match ret {
        Option::None => Some(IrType::Void),
        Option::Some(k) => spec_ty_of(k),
    }
}

/// The IR parameter types of a signature's `(type, name)` pairs; meaningful
/// when every type keyword is in the closed set.
pub open spec fn params_tys(ps: Seq<(Seq<char>, Seq<char>)>) -> Seq<IrType> {
    ps.map_values(|p: (Seq<char>, Seq<char>)| spec_ty_of(p.0)->0)
}

/// The function type a signature denotes.
pub open spec fn sig_fn_ty(sig: crate::sig::SigV) -> FnTyV {
    FnTyV { ret: ret_ty_of(sig.ret)->0, params: params_tys(sig.params), vararg: sig.vararg }
}

/// The names a signature's parameters bind in the fresh local environment.
pub open spec fn param_name_set(ps: Seq<(Seq<char>, Seq<char>)>) -> Set<Seq<char>> {
    Set::new(|k: Seq<char>| exists|q: int| 0 <= q < ps.len() && (#[trigger] ps[q]).1 == k)
}

/// The `fn` form: a signature whose return and parameter type keywords are
/// all in the closed set, a body compiled with the function's own name
/// visible (so recursion resolves) and the parameters bound locally, and
/// the closing `end`.  Yields the position past it.
pub open spec fn spec_fn_form(toks: Seq<Token>, i: int, gdom: Set<Seq<char>>) -> Option<int> {
    match crate::sig::spec_fn_sig(toks, i) {
        Option::Some((sig, j)) => if ret_ty_of(sig.ret) is Some && (forall|pi: int|
            0 <= pi < sig.params.len() ==> spec_ty_of((#[trigger] sig.params[pi]).0) is Some) {
            match spec_stmts(toks, j, gdom.insert(sig.name), param_name_set(sig.params), false) {
                Option::Some((_, j2, _)) => if ident_at(toks, j2) == Some("end"@) {
                    Some(j2 + 1)
                } else {
                    None
                },
                Option::None => None,
            }
        } else {
            None
        },
        Option::None => None,
    }
}

/// Map the parameter type keywords of a parsed signature to IR types; the
/// first keyword outside the closed set is an `UnknownType` error.
fn param_types_of(args: &Vec<(String, String)>) -> (r: Result<Vec<IrType>, CompileError>)
    ensures
        r is Ok <==> (forall|pi: int|
            0 <= pi < args@.len() ==> spec_ty_of(#[trigger] args@[pi].0@) is Some),
        r is Ok ==> r->Ok_0@ == params_tys(crate::sig::params_view(args@)),
        r is Err ==> r->Err_0 is UnknownType,
{
    let mut tys: Vec<IrType> = Vec::new();
    let mut i: usize = 0;
    while i < args.len()
        invariant
            i <= args@.len(),
            tys@.len() == i,
            forall|pi: int| 0 <= pi < i ==> spec_ty_of(#[trigger] args@[pi].0@) is Some,
            forall|pi: int| 0 <= pi < i ==> #[trigger] tys@[pi] == spec_ty_of(args@[pi].0@)->0,
        decreases args@.len() - i,
    {
        let t = ty_str_to_ty(args[i].0.as_str())?;
        tys.push(t);
        i = i + 1;
    }
    proof {
        assert(tys@ =~= params_tys(crate::sig::params_view(args@)));
    }
    Ok(tys)
}

/// Binding one more name whose value satisfies the function-handle
/// discipline keeps the whole environment valid.
proof fn lemma_env_insert_valid(
    m: ModuleV,
    e: Map<Seq<char>, BindingV>,
    k: Seq<char>,
    bv: BindingV,
)
    requires
        env_funcs_valid(m, e),
        binding_fn_ok(m, k, bv),
    ensures
        env_funcs_valid(m, e.insert(k, bv)),
{
    assert forall|k2: Seq<char>| e.insert(k, bv).contains_key(k2) implies binding_fn_ok(
        m,
        k2,
        #[trigger] e.insert(k, bv)[k2],
    ) by {
        if k2 != k {
            assert(e.contains_key(k2));
            assert(binding_fn_ok(m, k2, e[k2]));
        }
    }
}

/// Growing the module without renaming existing functions keeps the
/// environment valid.
proof fn lemma_env_valid_preserved(m0: ModuleV, m1: ModuleV, e: Map<Seq<char>, BindingV>)
    requires
        env_funcs_valid(m0, e),
        m1.functions.len() >= m0.functions.len(),
        forall|i: int|
            0 <= i < m0.functions.len() ==> (#[trigger] m1.functions[i]).name
                == m0.functions[i].name,
    ensures
        env_funcs_valid(m1, e),
{
    assert forall|k: Seq<char>| e.contains_key(k) implies binding_fn_ok(m1, k, #[trigger] e[k]) by {
        assert(binding_fn_ok(m0, k, e[k]));
    }
}

/// The `const <type> <name> is <string>` production starting at token `i`.
/// The type keyword is parsed but unused: only string constants exist.
pub open spec fn const_form(toks: Seq<Token>, i: int) -> bool {
    &&& ident_at(toks, i) == Some("const"@)
    &&& ident_at(toks, i + 1) is Some
    &&& ident_at(toks, i + 2) is Some
    &&& ident_at(toks, i + 3) == Some("is"@)
    &&& 0 <= i + 4 < toks.len()
    &&& (toks[i + 4].kind matches TokenKind::Literal(l) && l is Str)
}

/// Lower a top-level `const <type> <name> is <string-literal>`: a
/// module-level null-terminated byte constant named after the symbol, which
/// is registered globally as a pointer to its first byte.  Only string
/// constants are supported; any other literal is rejected.  The declaration
/// enters the module whether or not anything ever uses it.
pub fn compile_global_const(tokens: &mut Cursor, b: &mut Builder, varmap: &mut Env) -> (r: Result<
    (),
    CompileError,
>)
    requires
        old(tokens).wf(),
    ensures
        final(tokens).wf(),
        final(tokens).tokens == old(tokens).tokens,
        final(tokens).index >= old(tokens).index,
        final(b).func == old(b).func,
        final(b).block == old(b).block,
        final(b).next_reg == old(b).next_reg,
        final(b).module@.name == old(b).module@.name,
        final(b).module@.functions == old(b).module@.functions,
        module_extended(old(b).module@, final(b).module@),
        r is Ok <==> const_form(old(tokens).tokens@, old(tokens).index as int),
        r is Ok ==> final(tokens).index == old(tokens).index + 5,
        r is Ok ==> {
            let nm = ident_at(old(tokens).tokens@, old(tokens).index + 2)->0;
            &&& (old(tokens).tokens@[old(tokens).index + 4].kind matches TokenKind::Literal(l)
                && l matches Lit::Str(txt) && final(b).module@.globals =~= old(
                b,
            ).module@.globals.push(GlobalV { name: nm, text: txt@ }))
            &&& final(varmap)@ == old(varmap)@.insert(
                nm,
                BindingV::Direct {
                    ty: TyV::Scalar(IrType::Ptr),
                    val: Val::Global(old(b).module@.globals.len() as usize),
                },
            )
        },
        r is Err ==> *final(b) == *old(b) && final(varmap)@ == old(varmap)@,
        r is Err ==> (r->Err_0 is ParseMismatch || r->Err_0 is UnexpectedEof),
        r is Err ==> {
            // after the four keywords parse, only a string literal is
            // accepted: anything else present is a mismatch, an absent token
            // is the end of input
            let toks = old(tokens).tokens@;
            let i0 = old(tokens).index as int;
            let head_ok = ident_at(toks, i0) == Some("const"@) && ident_at(toks, i0 + 1) is Some
                && ident_at(toks, i0 + 2) is Some && ident_at(toks, i0 + 3) == Some("is"@);
            &&& (head_ok && i0 + 4 >= toks.len() ==> r->Err_0 is UnexpectedEof)
            &&& (head_ok && i0 + 4 < toks.len() && !(toks[i0 + 4].kind matches TokenKind::Literal(
                l,
            ) && l is Str) ==> r->Err_0 is ParseMismatch)
        },
{
    proof {
        lemma_module_extended_refl(old(b).module@);
    }
    tokens.expect_ident("const")?;
    let _ty = tokens.ident_next("type")?;
    let name = tokens.ident_next("name")?;
    tokens.expect_ident("is")?;
    let tok = match tokens.this() {
        Ok(t) => t,
        Err(e) => {
            return Err(e);
        },
    };
    let span = tok.span;
    let text = match &tok.kind {
        TokenKind::Literal(l) => match l {
            Lit::Str(sv) => sv.clone(),
            _ => {
                return Err(
                    CompileError::ParseMismatch {
                        expected: String::from_str("string literal [only literal type supported]"),
                        found: tok.kind.clone(),
                        span,
                    },
                );
            },
        },
        _ => {
            return Err(
                CompileError::ParseMismatch {
                    expected: String::from_str("literal"),
                    found: tok.kind.clone(),
                    span,
                },
            );
        },
    };
    tokens.next();
    let gi = b.add_global(name.clone(), text);
    proof {
        lemma_module_extended_grow(old(b).module@, b.module@);
    }
    varmap.insert(
        name,
        Binding::Direct { ty: Ty::Scalar(IrType::Ptr), val: Val::Global(gi) },
    );
    Ok(())
}

/// Lower a top-level `extern <fn-signature>`: register a function
/// declaration (no body) in the module under its IR name, and bind the
/// source name globally to the function handle with its exact function
/// type.  Vararg functions are expressible only here.  The declaration
/// enters the module whether or not anything ever calls it.
pub fn compile_extern(tokens: &mut Cursor, b: &mut Builder, varmap: &mut Env) -> (r: Result<
    (),
    CompileError,
>)
    requires
        old(tokens).wf(),
    ensures
        final(tokens).wf(),
        final(tokens).tokens == old(tokens).tokens,
        final(tokens).index >= old(tokens).index,
        r is Ok ==> final(tokens).index > old(tokens).index,
        final(b).func == old(b).func,
        final(b).block == old(b).block,
        final(b).next_reg == old(b).next_reg,
        final(b).module@.name == old(b).module@.name,
        final(b).module@.globals == old(b).module@.globals,
        module_extended(old(b).module@, final(b).module@),
        r is Ok <==> {
            &&& ident_at(old(tokens).tokens@, old(tokens).index as int) == Some("extern"@)
            &&& crate::sig::spec_fn_sig(old(tokens).tokens@, old(tokens).index + 1) is Some
            &&& ret_ty_of(
                (crate::sig::spec_fn_sig(old(tokens).tokens@, old(tokens).index + 1)->0).0.ret,
            ) is Some
            &&& (forall|pi: int|
                0 <= pi < (crate::sig::spec_fn_sig(old(tokens).tokens@, old(tokens).index + 1)->0).0.params.len()
                    ==> spec_ty_of(
                    (#[trigger] (crate::sig::spec_fn_sig(
                        old(tokens).tokens@,
                        old(tokens).index + 1,
                    )->0).0.params[pi]).0,
                ) is Some)
        },
        r is Ok ==> {
            &&& ident_at(old(tokens).tokens@, old(tokens).index as int) == Some("extern"@)
            &&& (crate::sig::spec_fn_sig(old(tokens).tokens@, old(tokens).index + 1)
                matches Some((sig, j)) && {
                &&& final(tokens).index as int == j
                &&& ret_ty_of(sig.ret) is Some
                &&& (forall|pi: int|
                    0 <= pi < sig.params.len() ==> spec_ty_of(
                        (#[trigger] sig.params[pi]).0,
                    ) is Some)
                &&& final(b).module@.functions =~= old(b).module@.functions.push(
                    FnV {
                        name: ir_name_spec(sig.name),
                        ty: sig_fn_ty(sig),
                        defined: false,
                        blocks: Seq::empty(),
                    },
                )
                &&& final(varmap)@ == old(varmap)@.insert(
                    sig.name,
                    BindingV::Direct {
                        ty: TyV::Fn(sig_fn_ty(sig)),
                        val: Val::Func(old(b).module@.functions.len() as usize),
                    },
                )
            })
        },
        r is Err ==> *final(b) == *old(b) && final(varmap)@ == old(varmap)@,
{
    proof {
        lemma_module_extended_refl(old(b).module@);
    }
    tokens.expect_ident("extern")?;
    let ghost toksv = old(tokens).tokens@;
    let ghost i1 = old(tokens).index + 1;
    let (name, ty_opt, args, vararg) = fn_sig(tokens)?;
    let ret_ty = match &ty_opt {
        Option::None => IrType::Void,
        Option::Some(t) => ty_str_to_ty(t.as_str())?,
    };
    let params_r = param_types_of(&args);
    proof {
        let sigp = (crate::sig::spec_fn_sig(toksv, i1)->0).0.params;
        assert(sigp =~= crate::sig::params_view(args@));
        assert forall|pi: int| 0 <= pi < sigp.len() implies (#[trigger] sigp[pi]).0
            == args@[pi].0@ by {}
        if params_r is Err {
            assert(exists|pi: int|
                0 <= pi < args@.len() && !(spec_ty_of(#[trigger] args@[pi].0@) is Some));
            let pi = choose|pi: int|
                0 <= pi < args@.len() && !(spec_ty_of(#[trigger] args@[pi].0@) is Some);
            assert(!(spec_ty_of(sigp[pi].0) is Some));
        }
    }
    let params = params_r?;
    let fnty = FnType { ret: ret_ty, params, vararg };
    let fnty_bind = fnty.dup();
    let fi = b.add_decl(ir_name(name.clone()), fnty);
    proof {
        lemma_module_extended_grow(old(b).module@, b.module@);
    }
    varmap.insert(name, Binding::Direct { ty: Ty::Fn(fnty_bind), val: Val::Func(fi) });
    Ok(())
}

/// Lower a top-level `fn <fn-signature> <stmt>* end`.
///
/// The function is added to the module under its IR name with a fresh entry
/// block, and the source name is bound globally — before the body is
/// compiled, so recursive calls resolve.  The local environment is populated
/// with the parameters (not addressable) and lives only for this body.  A
/// function with no declared return type has a void return appended at
/// `end` unless its final block already ends in a terminator.  A parameter
/// whose type keyword is outside the closed set is an `UnknownType` error.
/// A `vararg` marker is accepted here and passed through into the function
/// type unchecked, although only an `extern` can meaningfully be variadic.
pub fn compile_fn(tokens: &mut Cursor, b: &mut Builder, varmap: &mut Env) -> (r: Result<
    (),
    CompileError,
>)
    requires
        old(tokens).wf(),
    ensures
        final(tokens).wf(),
        final(tokens).tokens == old(tokens).tokens,
        final(tokens).index >= old(tokens).index,
        r is Ok ==> final(tokens).index > old(tokens).index,
        final(b).module@.name == old(b).module@.name,
        old(b).module@.globals.is_prefix_of(final(b).module@.globals),
        module_extended(old(b).module@, final(b).module@),
        final(b).module@.functions.len() >= old(b).module@.functions.len(),
        forall|i: int|
            0 <= i < old(b).module@.functions.len() ==> #[trigger] final(b).module@.functions[i]
                == old(b).module@.functions[i],
        r is Ok ==> final(b).module@.functions.len() == old(b).module@.functions.len() + 1,
        r is Ok ==> {
            let fi = old(b).module@.functions.len() as int;
            let nf = final(b).module@.functions[fi];
            &&& (crate::sig::spec_fn_sig(old(tokens).tokens@, old(tokens).index as int)
                matches Some((sig, j)) && {
                &&& ret_ty_of(sig.ret) is Some
                &&& (forall|pi: int|
                    0 <= pi < sig.params.len() ==> spec_ty_of(
                        (#[trigger] sig.params[pi]).0,
                    ) is Some)
                &&& nf.name == ir_name_spec(sig.name)
                &&& nf.ty == sig_fn_ty(sig)
                &&& nf.defined
                &&& nf.blocks.len() >= 1
                &&& nf.blocks[0].tag == BlockTag::Entry
                &&& (sig.ret is None ==> final(b).func == fi && final(b).cur_instrs().len() > 0
                    && is_terminator(final(b).cur_instrs().last()))
                &&& (sig.ret is None && ident_at(old(tokens).tokens@, j) == Some("end"@)
                    ==> nf.blocks =~= seq![
                    BlockV { tag: BlockTag::Entry, instrs: seq![InstrV::RetVoid] },
                ])
                &&& final(varmap)@ == old(varmap)@.insert(
                    sig.name,
                    BindingV::Direct { ty: TyV::Fn(sig_fn_ty(sig)), val: Val::Func(fi as usize) },
                )
            })
        },
        r is Ok <==> spec_fn_form(
            old(tokens).tokens@,
            old(tokens).index as int,
            old(varmap)@.dom(),
        ) is Some,
        r is Ok ==> final(tokens).index as int == spec_fn_form(
            old(tokens).tokens@,
            old(tokens).index as int,
            old(varmap)@.dom(),
        )->0,
        r is Ok ==> final(b).module@.globals =~= old(b).module@.globals + strs_in(
            old(tokens).tokens@,
            old(tokens).index as int,
            final(tokens).index as int,
        ),
        r is Err ==> (final(varmap)@ == old(varmap)@ || (crate::sig::spec_fn_sig(
            old(tokens).tokens@,
            old(tokens).index as int,
        ) matches Some((sig, j)) && final(varmap)@ == old(varmap)@.insert(
            sig.name,
            BindingV::Direct {
                ty: TyV::Fn(sig_fn_ty(sig)),
                val: Val::Func(old(b).module@.functions.len() as usize),
            },
        ))),
{
    let ghost pre = *b;
    let ghost toksf = tokens.tokens@;
    let ghost i0f = tokens.index as int;
    proof {
        lemma_module_extended_refl(pre.module@);
        assert(pre.module@.globals.is_prefix_of(pre.module@.globals)) by {
            assert(pre.module@.globals.subrange(0, pre.module@.globals.len() as int)
                =~= pre.module@.globals);
        }
    }
    let (name, ty_opt, args, vararg) = fn_sig(tokens)?;
    let ghost j_sig = tokens.index as int;
    let ret_ty = match &ty_opt {
        Option::None => IrType::Void,
        Option::Some(t) => ty_str_to_ty(t.as_str())?,
    };
    // A parameter type outside the closed set is rejected here, before
    // anything is added to the module.
    let params_r = param_types_of(&args);
    proof {
        let sigp = (crate::sig::spec_fn_sig(old(tokens).tokens@, old(tokens).index as int)->0).0.params;
        assert(sigp =~= crate::sig::params_view(args@));
        assert forall|pi: int| 0 <= pi < sigp.len() implies (#[trigger] sigp[pi]).0
            == args@[pi].0@ by {}
        if params_r is Err {
            assert(exists|pi: int|
                0 <= pi < args@.len() && !(spec_ty_of(#[trigger] args@[pi].0@) is Some));
            let pi = choose|pi: int|
                0 <= pi < args@.len() && !(spec_ty_of(#[trigger] args@[pi].0@) is Some);
            assert(!(spec_ty_of(sigp[pi].0) is Some));
        }
    }
    let params = params_r?;
    let fnty = FnType { ret: ret_ty, params, vararg };
    let fnty_bind = fnty.dup();
    let fnty_params = fnty.dup();
    let fi = b.start_function(ir_name(name.clone()), fnty);
    proof {
        lemma_module_extended_grow(pre.module@, b.module@);
    }
    let ghost c1 = *b;
    varmap.insert(name, Binding::Direct { ty: Ty::Fn(fnty_bind), val: Val::Func(fi) });
    let mut local_varmap = Env::new();
    let mut pi: usize = 0;
    while pi < args.len()
        invariant
            pi <= args@.len(),
            fnty_params@.params.len() == args@.len(),
            *b == c1,
            tokens.wf(),
            forall|k: Seq<char>|
                local_varmap@.dom().contains(k) <==> (exists|q: int|
                    0 <= q < pi && (#[trigger] args@[q]).1@ == k),
        decreases args@.len() - pi,
    {
        let pname = args[pi].1.clone();
        let pty = fnty_params.params[pi];
        local_varmap.insert(
            pname,
            Binding::Direct { ty: Ty::Scalar(pty), val: Val::Param { func: fi, index: pi } },
        );
        pi = pi + 1;
    }
    proof {
        let sig = (crate::sig::spec_fn_sig(old(tokens).tokens@, old(tokens).index as int)->0).0;
        assert(sig.params =~= crate::sig::params_view(args@));
        assert(local_varmap@.dom() =~= param_name_set(sig.params)) by {
            assert forall|k: Seq<char>| #[trigger] param_name_set(sig.params).contains(k) implies
                local_varmap@.dom().contains(k) by {
                let q = choose|q: int| 0 <= q < sig.params.len() && (#[trigger] sig.params[q]).1
                    == k;
                assert(args@[q].1@ == k);
            }
            assert forall|k: Seq<char>| #[trigger] local_varmap@.dom().contains(k) implies
                param_name_set(sig.params).contains(k) by {
                let q = choose|q: int| 0 <= q < args@.len() && (#[trigger] args@[q]).1@ == k;
                assert(sig.params[q].1 == k);
            }
        }
        assert(varmap@.dom() =~= old(varmap)@.dom().insert(sig.name));
    }
    let body_r = compile_statements(tokens, b, &*varmap, &mut local_varmap, false);
    proof {
        assert(stmt_frame(c1, *b));
        lemma_module_extended_grow(pre.module@, b.module@);
    }
    let _ = body_r?;
    if matches!(&ty_opt, Option::None) && !b.cur_terminated() {
        let ghost before_ret = *b;
        b.emit(Instr::RetVoid);
        proof {
            if before_ret == c1 {
                assert(b.cur_instrs() =~= seq![InstrV::RetVoid]);
                assert(b.module@.functions[fi as int].blocks =~= seq![
                    BlockV { tag: BlockTag::Entry, instrs: seq![InstrV::RetVoid] },
                ]);
            }
        }
    }
    let ghost j2 = tokens.index as int;
    proof {
        lemma_module_extended_grow(pre.module@, b.module@);
    }
    tokens.expect_ident("end")?;
    proof {
        lemma_strs_in_one(toksf, j2);
        lemma_strs_in_concat(toksf, i0f, j_sig, tokens.index as int);
        lemma_strs_in_concat(toksf, j_sig, j2, tokens.index as int);
        assert(b.module@.globals =~= pre.module@.globals + strs_in(
            toksf,
            i0f,
            tokens.index as int,
        ));
    }
    Ok(())
}

/// The top-level production: a sequence of `const`, `extern` and `fn`
/// forms from position `i` to the end of the stream.  `genv` maps each
/// bound top-level name to the module index of its function, or `None` for
/// a string constant; `funs` lists, in order, the source name, type and
/// definedness of every function the forms so far declared (the module adds
/// them starting at index one, after the synthesized entry).
pub open spec fn spec_top(
    toks: Seq<Token>,
    i: int,
    genv: Map<Seq<char>, Option<int>>,
    funs: Seq<(Seq<char>, FnTyV, bool)>,
) -> Option<(Map<Seq<char>, Option<int>>, Seq<(Seq<char>, FnTyV, bool)>)>
    decreases toks.len() - i,
{
    if i >= toks.len() {
        Some((genv, funs))
    } else {
        match ident_at(toks, i) {
            Option::Some(kw) => if kw == "const"@ {
                if const_form(toks, i) {
                    spec_top(toks, i + 5, genv.insert(ident_at(toks, i + 2)->0, None), funs)
                } else {
                    None
                }
            } else if kw == "extern"@ {
                match crate::sig::spec_fn_sig(toks, i + 1) {
                    Option::Some((sig, j)) => if ret_ty_of(sig.ret) is Some && (forall|pi: int|
                        0 <= pi < sig.params.len() ==> spec_ty_of(
                            (#[trigger] sig.params[pi]).0,
                        ) is Some) && i < j <= toks.len() {
                        spec_top(
                            toks,
                            j,
                            genv.insert(sig.name, Some(1 + funs.len() as int)),
                            funs.push((sig.name, sig_fn_ty(sig), false)),
                        )
                    } else {
                        None
                    },
                    Option::None => None,
                }
            } else if kw == "fn"@ {
                match spec_fn_form(toks, i, genv.dom()) {
                    Option::Some(j) => if i < j <= toks.len() {
                        let sig = (crate::sig::spec_fn_sig(toks, i)->0).0;
                        spec_top(
                            toks,
                            j,
                            genv.insert(sig.name, Some(1 + funs.len() as int)),
                            funs.push((sig.name, sig_fn_ty(sig), true)),
                        )
                    } else {
                        None
                    },
                    Option::None => None,
                }
            } else {
                None
            },
            Option::None => None,
        }
    }
}

/// The module-level string constants the top-level forms create, in
/// emission order: each `const` adds its named constant, each `fn` body adds
/// one unnamed constant per string literal it holds, and an `extern` adds
/// none.
pub open spec fn spec_top_globals(toks: Seq<Token>, i: int, gdom: Set<Seq<char>>) -> Seq<GlobalV>
    decreases toks.len() - i,
{
    if i >= toks.len() {
        Seq::empty()
    } else {
        match ident_at(toks, i) {
            Option::Some(kw) => if kw == "const"@ {
                if const_form(toks, i) {
                    let txt = match toks[i + 4].kind {
                        TokenKind::Literal(l) => match l {
                            Lit::Str(sv) => sv@,
                            _ => Seq::empty(),
                        },
                        _ => Seq::empty(),
                    };
                    seq![GlobalV { name: ident_at(toks, i + 2)->0, text: txt }]
                        + spec_top_globals(toks, i + 5, gdom.insert(ident_at(toks, i + 2)->0))
                } else {
                    Seq::empty()
                }
            } else if kw == "extern"@ {
                match crate::sig::spec_fn_sig(toks, i + 1) {
                    Option::Some((sig, j)) => if i < j <= toks.len() {
                        spec_top_globals(toks, j, gdom.insert(sig.name))
                    } else {
                        Seq::empty()
                    },
                    Option::None => Seq::empty(),
                }
            } else if kw == "fn"@ {
                match spec_fn_form(toks, i, gdom) {
                    Option::Some(j) => if i < j <= toks.len() {
                        let sig = (crate::sig::spec_fn_sig(toks, i)->0).0;
                        strs_in(toks, i, j) + spec_top_globals(toks, j, gdom.insert(sig.name))
                    } else {
                        Seq::empty()
                    },
                    Option::None => Seq::empty(),
                }
            } else {
                Seq::empty()
            },
            Option::None => Seq::empty(),
        }
    }
}

/// Compile a whole translation unit: iterate the top-level forms (`const`,
/// `extern`, `fn`), then synthesize the entry point.
///
/// Compilation succeeds exactly when the whole stream matches the top-level
/// production and it binds a `main`; a stream that parses without binding
/// one is a `MissingEntryPoint` error.  On success the module holds, after
/// the synthesized entry, one function per `extern`/`fn` form in order with
/// that form's IR name, exact function type and definedness; the entry —
/// the only IR function named `main`, void and with no parameters — holds a
/// single block that calls the value bound to the source name `main`
/// (emitted as `__user_main` when it is a function) and returns void.
/// Everything any top-level form added stays in the module, used or not.
pub fn compile(tokens: &mut Cursor, name: &str) -> (r: Result<Module, CompileError>)
    requires
        old(tokens).wf(),
    ensures
        r is Ok <==> (spec_top(old(tokens).tokens@, old(tokens).index as int, Map::empty(), Seq::empty())
            is Some && (spec_top(
            old(tokens).tokens@,
            old(tokens).index as int,
            Map::empty(),
            Seq::empty(),
        )->0).0.dom().contains("main"@)),
        r is Err && spec_top(old(tokens).tokens@, old(tokens).index as int, Map::empty(), Seq::empty())
            is Some ==> r->Err_0 is MissingEntryPoint,
        r is Ok ==> {
            let m = r->Ok_0@;
            let (g, funs) = spec_top(
                old(tokens).tokens@,
                old(tokens).index as int,
                Map::empty(),
                Seq::empty(),
            )->0;
            &&& m.name == name@
            &&& m.functions.len() == 1 + funs.len()
            &&& m.functions[0].name == "main"@
            &&& m.functions[0].defined
            &&& m.functions[0].ty == (FnTyV {
                ret: IrType::Void,
                params: Seq::empty(),
                vararg: false,
            })
            &&& (forall|k: int|
                0 <= k < funs.len() ==> {
                    &&& (#[trigger] m.functions[1 + k]).name == ir_name_spec(funs[k].0)
                    &&& m.functions[1 + k].ty == funs[k].1
                    &&& m.functions[1 + k].defined == funs[k].2
                })
            &&& (forall|i: int|
                1 <= i < m.functions.len() ==> (#[trigger] m.functions[i]).name != "main"@)
            &&& m.functions[0].blocks.len() == 1
            &&& m.functions[0].blocks[0].instrs.len() == 2
            &&& (m.functions[0].blocks[0].instrs[0] matches InstrV::Call { ty: _, callee, args }
                && args.len() == 0 && (callee matches Val::Func(u) ==> u < m.functions.len()
                && m.functions[u as int].name == "__user_main"@))
            &&& (g["main"@] matches Some(fi) ==> m.functions[0].blocks[0].instrs[0]
                matches InstrV::Call { ty, callee, args } && callee == Val::Func(fi as usize)
                && ty == TyV::Fn(funs[fi - 1].1))
            &&& m.globals =~= spec_top_globals(
                old(tokens).tokens@,
                old(tokens).index as int,
                Set::empty(),
            )
            &&& m.functions[0].blocks[0].instrs[1] == InstrV::RetVoid
        },
{
    let ghost toks0 = tokens.tokens@;
    let ghost i_start = tokens.index as int;
    let mut b = Builder::new(String::from_str(name));
    let entry_fty = FnType { ret: IrType::Void, params: Vec::new(), vararg: false };
    let ghost entry_ftv = entry_fty@;
    proof {
        assert(entry_ftv =~= FnTyV { ret: IrType::Void, params: Seq::empty(), vararg: false });
    }
    let _fi0 = b.start_function(String::from_str("main"), entry_fty);
    let mut varmap = Env::new();
    let ghost mut genv = Map::<Seq<char>, Option<int>>::empty();
    let ghost mut funs = Seq::<(Seq<char>, FnTyV, bool)>::empty();
    proof {
        assert(varmap@.dom() =~= genv.dom());
    }
    while tokens.index < tokens.tokens.len()
        invariant
            tokens.wf(),
            toks0 == old(tokens).tokens@,
            i_start == old(tokens).index as int,
            tokens.tokens@ == toks0,
            b.module@.name == name@,
            b.module@.functions.len() == 1 + funs.len(),
            b.module@.functions[0].name == "main"@,
            b.module@.functions[0].defined,
            b.module@.functions[0].ty == (FnTyV {
                ret: IrType::Void,
                params: Seq::empty(),
                vararg: false,
            }),
            b.module@.functions[0].blocks.len() == 1,
            b.module@.functions[0].blocks[0].instrs.len() == 0,
            forall|i: int|
                1 <= i < b.module@.functions.len() ==> (#[trigger] b.module@.functions[i]).name
                    != "main"@,
            env_funcs_valid(b.module@, varmap@),
            varmap@.dom() =~= genv.dom(),
            forall|k: Seq<char>|
                genv.contains_key(k) && #[trigger] genv[k] is Some ==> (varmap@.contains_key(k)
                    && (varmap@[k] matches BindingV::Direct { ty: TyV::Fn(ft), val: Val::Func(u) }
                    && u as int == genv[k]->0 && 1 <= genv[k]->0 <= funs.len() && ft == funs[genv[k]->0
                    - 1].1)),
            forall|k: int|
                0 <= k < funs.len() ==> {
                    &&& (#[trigger] b.module@.functions[1 + k]).name == ir_name_spec(funs[k].0)
                    &&& b.module@.functions[1 + k].ty == funs[k].1
                    &&& b.module@.functions[1 + k].defined == funs[k].2
                },
            spec_top(toks0, tokens.index as int, genv, funs) == spec_top(
                toks0,
                i_start,
                Map::empty(),
                Seq::empty(),
            ),
            spec_top_globals(toks0, i_start, Set::empty()) =~= b.module@.globals
                + spec_top_globals(toks0, tokens.index as int, genv.dom()),
        decreases tokens.remaining(),
    {
        let ghost loop_pre = b.module@;
        proof {
            assert(b.module.functions.len() == b.module.functions@.len());
            assert(b.module.globals.len() == b.module.globals@.len());
            assert(loop_pre.functions.len() <= usize::MAX);
            assert(loop_pre.globals.len() <= usize::MAX);
        }
        let ghost tidx = tokens.index as int;
        let kind = {
            let tok = match tokens.this() {
                Ok(t) => t,
                Err(e) => {
                    return Err(e);
                },
            };
            let span = tok.span;
            match &tok.kind {
                TokenKind::Ident(id) => {
                    if str_eq(id.as_str(), "const") {
                        0usize
                    } else if str_eq(id.as_str(), "extern") {
                        1usize
                    } else if str_eq(id.as_str(), "fn") {
                        2usize
                    } else {
                        proof {
                            assert(ident_at(toks0, tidx) == Some(id@));
                            assert(spec_top(toks0, tidx, genv, funs) is None);
                        }
                        return Err(
                            CompileError::ParseMismatch {
                                expected: String::from_str("[const|extern|fn]"),
                                found: tok.kind.clone(),
                                span,
                            },
                        );
                    }
                },
                _ => {
                    proof {
                        assert(ident_at(toks0, tidx) is None);
                        assert(spec_top(toks0, tidx, genv, funs) is None);
                    }
                    return Err(
                        CompileError::ParseMismatch {
                            expected: String::from_str("keyword"),
                            found: tok.kind.clone(),
                            span,
                        },
                    );
                },
            }
        };
        let ghost env_pre = varmap@;
        let ghost genv_pre = genv;
        let ghost funs_pre = funs;
        if kind == 0 {
            let rr = compile_global_const(tokens, &mut b, &mut varmap);
            proof {
                if rr is Err {
                    assert(!const_form(toks0, tidx));
                    assert(spec_top(toks0, tidx, genv, funs) is None);
                }
            }
            rr?;
            proof {
                lemma_env_valid_preserved(loop_pre, b.module@, env_pre);
                let nm = ident_at(toks0, tidx + 2)->0;
                lemma_env_insert_valid(
                    b.module@,
                    env_pre,
                    nm,
                    BindingV::Direct {
                        ty: TyV::Scalar(IrType::Ptr),
                        val: Val::Global(loop_pre.globals.len() as usize),
                    },
                );
                genv = genv.insert(nm, None);
                assert(varmap@.dom() =~= genv.dom());
            }
        } else if kind == 1 {
            let rr = compile_extern(tokens, &mut b, &mut varmap);
            proof {
                if rr is Err {
                    assert(spec_top(toks0, tidx, genv, funs) is None);
                }
            }
            rr?;
            proof {
                let nfi = loop_pre.functions.len() as int;
                lemma_env_valid_preserved(loop_pre, b.module@, env_pre);
                let sig = (crate::sig::spec_fn_sig(toks0, tidx + 1)->0).0;
                assert(b.module@.functions[nfi].name == ir_name_spec(sig.name));
                lemma_env_insert_valid(
                    b.module@,
                    env_pre,
                    sig.name,
                    BindingV::Direct {
                        ty: TyV::Fn(sig_fn_ty(sig)),
                        val: Val::Func(nfi as usize),
                    },
                );
                lemma_ir_name_not_main(sig.name);
                genv = genv.insert(sig.name, Some(1 + funs.len() as int));
                funs = funs.push((sig.name, sig_fn_ty(sig), false));
                assert(varmap@.dom() =~= genv.dom());
                assert(b.module@.functions =~= loop_pre.functions.push(
                    FnV {
                        name: ir_name_spec(sig.name),
                        ty: sig_fn_ty(sig),
                        defined: false,
                        blocks: Seq::empty(),
                    },
                ));
            }
        } else {
            let rr = compile_fn(tokens, &mut b, &mut varmap);
            proof {
                if rr is Err {
                    assert(spec_fn_form(toks0, tidx, genv.dom()) is None) by {
                        assert(env_pre.dom() =~= genv.dom());
                    }
                    assert(spec_top(toks0, tidx, genv, funs) is None);
                }
            }
            rr?;
            proof {
                let nfi = loop_pre.functions.len() as int;
                lemma_env_valid_preserved(loop_pre, b.module@, env_pre);
                let sig = (crate::sig::spec_fn_sig(toks0, tidx)->0).0;
                assert(b.module@.functions[nfi].name == ir_name_spec(sig.name));
                lemma_env_insert_valid(
                    b.module@,
                    env_pre,
                    sig.name,
                    BindingV::Direct {
                        ty: TyV::Fn(sig_fn_ty(sig)),
                        val: Val::Func(nfi as usize),
                    },
                );
                lemma_ir_name_not_main(sig.name);
                genv = genv.insert(sig.name, Some(1 + funs.len() as int));
                funs = funs.push((sig.name, sig_fn_ty(sig), true));
                assert(varmap@.dom() =~= genv.dom());
                assert(spec_fn_form(toks0, tidx, genv_pre.dom()) is Some) by {
                    assert(env_pre.dom() =~= genv_pre.dom());
                }
            }
        }
        proof {
            assert forall|i: int|
                1 <= i < b.module@.functions.len() implies (#[trigger] b.module@.functions[i]).name
                != "main"@ by {
                if i < loop_pre.functions.len() {
                    assert(b.module@.functions[i].name == loop_pre.functions[i].name);
                } else {
                    assert(i == loop_pre.functions.len());
                    lemma_ir_name_not_main(ir_name_spec(b.module@.functions[i].name));
                }
            }
            assert(spec_top(toks0, tokens.index as int, genv, funs) == spec_top(
                toks0,
                tidx,
                genv_pre,
                funs_pre,
            ));
        }
    }
    let ghost top = spec_top(toks0, i_start, Map::empty(), Seq::empty());
    proof {
        assert(tokens.index == tokens.tokens@.len());
        assert(spec_top(toks0, tokens.index as int, genv, funs) == Some((genv, funs)));
        assert(top == Some((genv, funs)));
    }
    let main_bind = match varmap.lookup("main") {
        Some(bind) => bind,
        None => {
            proof {
                assert(!genv.dom().contains("main"@));
            }
            return Err(CompileError::MissingEntryPoint);
        },
    };
    let ghost main_bv = main_bind@;
    let (cty, cval) = match main_bind {
        Binding::Direct { ty, val } => (ty, val),
        Binding::Slot { ty, addr } => (Ty::Scalar(ty), addr),
    };
    let ghost m_at_lookup = b.module@;
    proof {
        assert(binding_fn_ok(m_at_lookup, "main"@, main_bv));
        if genv["main"@] is Some {
            assert(main_bv matches BindingV::Direct { ty: TyV::Fn(ft), val: Val::Func(u) } && u
                as int == genv["main"@]->0 && ft == funs[genv["main"@]->0 - 1].1);
        }
    }
    b.set_position(0, 0);
    let ghost c_pos = b;
    let call_args: Vec<Val> = Vec::new();
    let ghost argsv = call_args@;
    b.emit(Instr::Call { ty: cty, callee: cval, args: call_args });
    let ghost c_call = b;
    proof {
        assert(c_call.cur_instrs() =~= Seq::<InstrV>::empty().push(
            InstrV::Call { ty: cty@, callee: cval, args: argsv },
        ));
    }
    b.emit(Instr::RetVoid);
    proof {
        assert(b.module@.functions[0].blocks[0].instrs =~= Seq::<InstrV>::empty().push(
            InstrV::Call { ty: cty@, callee: cval, args: argsv },
        ).push(InstrV::RetVoid));
        assert(argsv.len() == 0);
        assert(b.module@.functions[0].blocks[0].instrs.len() == 2);
        assert(b.module@.functions.len() == m_at_lookup.functions.len());
        assert forall|i: int|
            0 <= i < b.module@.functions.len() && i != 0 implies #[trigger] b.module@.functions[i]
            == m_at_lookup.functions[i] by {
            assert(b.module@.functions[i] == c_call.module@.functions[i]);
            assert(c_call.module@.functions[i] == c_pos.module@.functions[i]);
        }
        assert(b.module@.functions[0].name == m_at_lookup.functions[0].name);
        if cval is Func {
            assert(binding_fn_ok(m_at_lookup, "main"@, main_bv));
        }
    }
    Ok(b.module)
}

} // verus!
