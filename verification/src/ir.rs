//! The intermediate representation the compiler emits, and the builder that
//! emits it.
//!
//! A module holds global string constants and functions; a defined function
//! holds basic blocks; a block holds instructions in emission order.  Values
//! are handles: constants, globals, functions, parameters, or the results of
//! earlier instructions (`Reg`).  The builder keeps an insertion point (a
//! function and a block inside it) and appends instructions there, exactly as
//! a native IR builder library would.
//!
//! Every type has a mathematical view; the contracts of the compiler speak
//! only of those views.

use vstd::prelude::*;
use vstd::seq_lib::*;

verus! {

/// A scalar IR type.  `Ptr` is always pointer-to-8-bit-integer: the source
/// language has no pointee types.
#[derive(Debug, Clone, Copy, PartialEq, Eq, Structural)]
pub enum IrType {
    Void,
    I1,
    I8,
    I32,
    I64,
    I128,
    Ptr,
}

/// The IR-level shape of a callable: return type, parameter types, vararg
/// flag.  A call site must carry the exact function type of its callee.
#[derive(Debug, PartialEq, Eq)]
pub struct FnType {
    pub ret: IrType,
    pub params: Vec<IrType>,
    pub vararg: bool,
}

/// Mathematical view of a function type.
#[verifier::ext_equal]
pub struct FnTyV {
    pub ret: IrType,
    pub params: Seq<IrType>,
    pub vararg: bool,
}

impl View for FnType {
    type V = FnTyV;

    open spec fn view(&self) -> FnTyV {
        FnTyV { ret: self.ret, params: self.params@, vararg: self.vararg }
    }
}

impl FnType {
    /// A structurally equal copy.
    pub fn dup(&self) -> (r: FnType)
        ensures
            r@ == self@,
    {
        let mut params: Vec<IrType> = Vec::new();
        let mut i: usize = 0;
        while i < self.params.len()
            invariant
                i <= self.params@.len(),
                params@ == self.params@.subrange(0, i as int),
            decreases self.params@.len() - i,
        {
            params.push(self.params[i]);
            proof {
                assert(params@ =~= self.params@.subrange(0, i + 1));
            }
            i = i + 1;
        }
        proof {
            assert(params@ =~= self.params@);
        }
        FnType { ret: self.ret, params, vararg: self.vararg }
    }
}

/// The recorded type of a symbol: a scalar value type, or the function type
/// of a callable.
#[derive(Debug, PartialEq, Eq)]
pub enum Ty {
    Scalar(IrType),
    Fn(FnType),
}

/// Mathematical view of a symbol type.
#[verifier::ext_equal]
pub enum TyV {
    Scalar(IrType),
    Fn(FnTyV),
}

impl View for Ty {
    type V = TyV;

    open spec fn view(&self) -> TyV {
        match self {
            Ty::Scalar(t) => TyV::Scalar(*t),
            Ty::Fn(ft) => TyV::Fn(ft@),
        }
    }
}

impl Ty {
    /// A structurally equal copy.
    pub fn dup(&self) -> (r: Ty)
        ensures
            r@ == self@,
    {
        match self {
            Ty::Scalar(t) => Ty::Scalar(*t),
            Ty::Fn(ft) => Ty::Fn(ft.dup()),
        }
    }
}

/// An IR value handle.
#[derive(Debug, Clone, Copy, PartialEq, Eq, Structural)]
pub enum Val {
    /// An integer constant of the given type; the payload is the constant's
    /// low 64 bits, as a native IR builder would receive it.
    ConstInt { ty: IrType, value: u64 },
    /// The address of the global string constant with this index.
    Global(usize),
    /// The function with this index.
    Func(usize),
    /// Parameter `index` of function `func`.
    Param { func: usize, index: usize },
    /// The result of the `index`th value-producing instruction.
    Reg(usize),
}

/// A lowered binary arithmetic or bitwise operator.
#[derive(Debug, Clone, Copy, PartialEq, Eq, Structural)]
pub enum BinOp {
    Add,
    Sub,
    Mul,
    SDiv,
    And,
    Or,
}

/// A signed integer comparison predicate.
#[derive(Debug, Clone, Copy, PartialEq, Eq, Structural)]
pub enum Pred {
    Sgt,
    Sge,
    Slt,
    Sle,
    Ieq,
    Ine,
}

/// Why a basic block was created; block labels in printed IR come from this.
#[derive(Debug, Clone, Copy, PartialEq, Eq, Structural)]
pub enum BlockTag {
    Entry,
    Then,
    Else,
    IfCont,
    Cond,
    Body,
    WhileCont,
}

/// One IR instruction.  Branch targets are indices into the enclosing
/// function's block list.
#[derive(Debug, PartialEq, Eq)]
pub enum Instr {
    Bin { op: BinOp, lhs: Val, rhs: Val },
    Cmp { pred: Pred, lhs: Val, rhs: Val },
    Call { ty: Ty, callee: Val, args: Vec<Val> },
    Load { ty: IrType, addr: Val },
    Store { val: Val, addr: Val },
    Alloca { ty: IrType },
    Ret { val: Val },
    RetVoid,
    Br { target: usize },
    CondBr { cond: Val, if_true: usize, if_false: usize },
}

/// Mathematical view of an instruction.
#[verifier::ext_equal]
pub enum InstrV {
    Bin { op: BinOp, lhs: Val, rhs: Val },
    Cmp { pred: Pred, lhs: Val, rhs: Val },
    Call { ty: TyV, callee: Val, args: Seq<Val> },
    Load { ty: IrType, addr: Val },
    Store { val: Val, addr: Val },
    Alloca { ty: IrType },
    Ret { val: Val },
    RetVoid,
    Br { target: int },
    CondBr { cond: Val, if_true: int, if_false: int },
}

impl View for Instr {
    type V = InstrV;

    open spec fn view(&self) -> InstrV {
        match self {
            Instr::Bin { op, lhs, rhs } => InstrV::Bin { op: *op, lhs: *lhs, rhs: *rhs },
            Instr::Cmp { pred, lhs, rhs } => InstrV::Cmp { pred: *pred, lhs: *lhs, rhs: *rhs },
            Instr::Call { ty, callee, args } => InstrV::Call {
                ty: ty@,
                callee: *callee,
                args: args@,
            },
            Instr::Load { ty, addr } => InstrV::Load { ty: *ty, addr: *addr },
            Instr::Store { val, addr } => InstrV::Store { val: *val, addr: *addr },
            Instr::Alloca { ty } => InstrV::Alloca { ty: *ty },
            Instr::Ret { val } => InstrV::Ret { val: *val },
            Instr::RetVoid => InstrV::RetVoid,
            Instr::Br { target } => InstrV::Br { target: *target as int },
            Instr::CondBr { cond, if_true, if_false } => InstrV::CondBr {
                cond: *cond,
                if_true: *if_true as int,
                if_false: *if_false as int,
            },
        }
    }
}

/// A terminator unconditionally ends its basic block.
pub open spec fn is_terminator(i: InstrV) -> bool {
    i is Br || i is CondBr || i is Ret || i is RetVoid
}

/// Every branch in `i` targets a block index at least `bound`.
pub open spec fn branch_targets_at_least(i: InstrV, bound: int) -> bool {
    match i {
        InstrV::Br { target } => target >= bound,
        InstrV::CondBr { cond: _, if_true, if_false } => if_true >= bound && if_false >= bound,
        _ => true,
    }
}

/// A module-level null-terminated string constant.
#[derive(Debug, PartialEq, Eq)]
pub struct GlobalStr {
    pub name: String,
    pub text: String,
}

/// Mathematical view of a global string constant.
#[verifier::ext_equal]
pub struct GlobalV {
    pub name: Seq<char>,
    pub text: Seq<char>,
}

impl View for GlobalStr {
    type V = GlobalV;

    open spec fn view(&self) -> GlobalV {
        GlobalV { name: self.name@, text: self.text@ }
    }
}

/// A basic block: a tag saying why it exists, and its instructions in
/// emission order.
#[derive(Debug, PartialEq, Eq)]
pub struct Block {
    pub tag: BlockTag,
    pub instrs: Vec<Instr>,
}

/// Mathematical view of a basic block.
#[verifier::ext_equal]
pub struct BlockV {
    pub tag: BlockTag,
    pub instrs: Seq<InstrV>,
}

impl View for Block {
    type V = BlockV;

    open spec fn view(&self) -> BlockV {
        BlockV { tag: self.tag, instrs: self.instrs@.map_values(|i: Instr| i@) }
    }
}

/// A function: a declaration (`defined == false`, no blocks) or a definition.
#[derive(Debug, PartialEq, Eq)]
pub struct FnDef {
    pub name: String,
    pub ty: FnType,
    pub defined: bool,
    pub blocks: Vec<Block>,
}

/// Mathematical view of a function.
#[verifier::ext_equal]
pub struct FnV {
    pub name: Seq<char>,
    pub ty: FnTyV,
    pub defined: bool,
    pub blocks: Seq<BlockV>,
}

impl View for FnDef {
    type V = FnV;

    open spec fn view(&self) -> FnV {
        FnV {
            name: self.name@,
            ty: self.ty@,
            defined: self.defined,
            blocks: self.blocks@.map_values(|b: Block| b@),
        }
    }
}

/// A complete IR module.
#[derive(Debug, PartialEq, Eq)]
pub struct Module {
    pub name: String,
    pub globals: Vec<GlobalStr>,
    pub functions: Vec<FnDef>,
}

/// Mathematical view of a module.
#[verifier::ext_equal]
pub struct ModuleV {
    pub name: Seq<char>,
    pub globals: Seq<GlobalV>,
    pub functions: Seq<FnV>,
}

impl View for Module {
    type V = ModuleV;

    open spec fn view(&self) -> ModuleV {
        ModuleV {
            name: self.name@,
            globals: self.globals@.map_values(|g: GlobalStr| g@),
            functions: self.functions@.map_values(|f: FnDef| f@),
        }
    }
}

/// `f1` is `f0` with the same identity, possibly more blocks, and possibly
/// more instructions appended to existing blocks: nothing already emitted is
/// changed or removed.
pub open spec fn fn_extended(f0: FnV, f1: FnV) -> bool {
    &&& f1.name == f0.name
    &&& f1.ty == f0.ty
    &&& f1.defined == f0.defined
    &&& f1.blocks.len() >= f0.blocks.len()
    &&& forall|j: int|
        0 <= j < f0.blocks.len() ==> {
            &&& (#[trigger] f1.blocks[j]).tag == f0.blocks[j].tag
            &&& f0.blocks[j].instrs.is_prefix_of(f1.blocks[j].instrs)
        }
}

/// `m1` is `m0` grown append-only: every global, function, block and
/// instruction of `m0` is still present, unchanged, at the same index.
/// Emission never deletes: an unused declaration stays in the module.
pub open spec fn module_extended(m0: ModuleV, m1: ModuleV) -> bool {
    &&& m1.name == m0.name
    &&& m0.globals.is_prefix_of(m1.globals)
    &&& m1.functions.len() >= m0.functions.len()
    &&& forall|i: int|
        0 <= i < m0.functions.len() ==> fn_extended(m0.functions[i], #[trigger] m1.functions[i])
}

pub proof fn lemma_module_extended_refl(m: ModuleV)
    ensures
        module_extended(m, m),
{
    assert(m.globals.is_prefix_of(m.globals)) by {
        assert(m.globals.subrange(0, m.globals.len() as int) =~= m.globals);
    }
    assert forall|i: int| 0 <= i < m.functions.len() implies fn_extended(
        m.functions[i],
        #[trigger] m.functions[i],
    ) by {
        let f = m.functions[i];
        assert forall|j: int| 0 <= j < f.blocks.len() implies f.blocks[j].instrs.is_prefix_of(
            (#[trigger] f.blocks[j]).instrs,
        ) by {
            assert(f.blocks[j].instrs.subrange(0, f.blocks[j].instrs.len() as int) =~= f.blocks[j].instrs);
        }
    }
}

proof fn lemma_prefix_trans<A>(s0: Seq<A>, s1: Seq<A>, s2: Seq<A>)
    requires
        s0.is_prefix_of(s1),
        s1.is_prefix_of(s2),
    ensures
        s0.is_prefix_of(s2),
{
    assert(s0 =~= s2.subrange(0, s0.len() as int));
}

/// Append-only growth composes: what one top-level form's emission kept,
/// every later form's emission keeps too, so a declaration stays in the
/// module whether or not anything after it ever uses it.
pub proof fn lemma_module_extended_trans(m0: ModuleV, m1: ModuleV, m2: ModuleV)
    requires
        module_extended(m0, m1),
        module_extended(m1, m2),
    ensures
        module_extended(m0, m2),
{
    lemma_prefix_trans(m0.globals, m1.globals, m2.globals);
    assert forall|i: int| 0 <= i < m0.functions.len() implies fn_extended(
        m0.functions[i],
        #[trigger] m2.functions[i],
    ) by {
        assert(fn_extended(m0.functions[i], m1.functions[i]));
        assert(fn_extended(m1.functions[i], m2.functions[i]));
        let f0 = m0.functions[i];
        let f1 = m1.functions[i];
        let f2 = m2.functions[i];
        assert forall|j: int| 0 <= j < f0.blocks.len() implies {
            &&& (#[trigger] f2.blocks[j]).tag == f0.blocks[j].tag
            &&& f0.blocks[j].instrs.is_prefix_of(f2.blocks[j].instrs)
        } by {
            assert(f1.blocks[j].tag == f0.blocks[j].tag);
            lemma_prefix_trans(f0.blocks[j].instrs, f1.blocks[j].instrs, f2.blocks[j].instrs);
        }
    }
}

/// A module that keeps every already-present function unchanged and only
/// appends globals and functions has grown append-only.
pub proof fn lemma_module_extended_grow(m0: ModuleV, m1: ModuleV)
    requires
        m1.name == m0.name,
        m0.globals.is_prefix_of(m1.globals),
        m1.functions.len() >= m0.functions.len(),
        forall|i: int|
            0 <= i < m0.functions.len() ==> #[trigger] m1.functions[i] == m0.functions[i],
    ensures
        module_extended(m0, m1),
{
    assert forall|i: int| 0 <= i < m0.functions.len() implies fn_extended(
        m0.functions[i],
        #[trigger] m1.functions[i],
    ) by {
        let f = m0.functions[i];
        assert forall|j: int| 0 <= j < f.blocks.len() implies f.blocks[j].instrs.is_prefix_of(
            (#[trigger] f.blocks[j]).instrs,
        ) by {
            assert(f.blocks[j].instrs.subrange(0, f.blocks[j].instrs.len() as int) =~= f.blocks[j].instrs);
        }
    }
}

/// Every instruction of `f1` that is not already in `f0` keeps its branch
/// targets at or above `bound`.  Structured control flow only ever branches
/// to blocks created at or after the construct's own entry, which is what
/// lets a diverging arm suppress its join edge: nothing else can point at
/// the join block.
pub open spec fn new_branches_bounded(f0: FnV, f1: FnV, bound: int) -> bool {
    forall|j: int, k: int|
        0 <= j < f1.blocks.len() && 0 <= k < f1.blocks[j].instrs.len() && (j >= f0.blocks.len()
            || k >= f0.blocks[j].instrs.len()) ==> branch_targets_at_least(
            #[trigger] f1.blocks[j].instrs[k],
            bound,
        )
}

/// Composition: growing twice with weakening bounds keeps the earlier bound.
pub proof fn lemma_new_branches_bounded_trans(f0: FnV, f1: FnV, f2: FnV, bound: int, bound1: int)
    requires
        fn_extended(f0, f1),
        fn_extended(f1, f2),
        new_branches_bounded(f0, f1, bound),
        new_branches_bounded(f1, f2, bound1),
        bound1 >= bound,
    ensures
        new_branches_bounded(f0, f2, bound),
{
    assert forall|j: int, k: int|
        0 <= j < f2.blocks.len() && 0 <= k < f2.blocks[j].instrs.len() && (j >= f0.blocks.len()
            || k >= f0.blocks[j].instrs.len()) implies branch_targets_at_least(
        #[trigger] f2.blocks[j].instrs[k],
        bound,
    ) by {
        if j < f1.blocks.len() && k < f1.blocks[j].instrs.len() {
            assert(f2.blocks[j].instrs[k] == f1.blocks[j].instrs[k]);
            assert(branch_targets_at_least(f1.blocks[j].instrs[k], bound));
        } else {
            assert(branch_targets_at_least(f2.blocks[j].instrs[k], bound1));
        }
    }
}

/// The builder: the module under construction plus the insertion point and
/// the counter handing out fresh instruction-result handles.
#[derive(Debug)]
pub struct Builder {
    pub module: Module,
    pub func: usize,
    pub block: usize,
    pub next_reg: usize,
}

impl Builder {
    /// The insertion point names a function of the module.
    pub open spec fn func_valid(self) -> bool {
        self.func < self.module@.functions.len()
    }

    /// The insertion point names a block of that function.
    pub open spec fn wf(self) -> bool {
        &&& self.func_valid()
        &&& self.block < self.module@.functions[self.func as int].blocks.len()
    }

    /// The instructions of the block the builder is positioned at.
    pub open spec fn cur_instrs(self) -> Seq<InstrV> {
        self.module@.functions[self.func as int].blocks[self.block as int].instrs
    }

    /// The block list of the function the builder is positioned in.
    pub open spec fn cur_blocks(self) -> Seq<BlockV> {
        self.module@.functions[self.func as int].blocks
    }

    pub fn new(name: String) -> (r: Builder)
        ensures
            r.module@.name == name@,
            r.module@.globals =~= Seq::<GlobalV>::empty(),
            r.module@.functions =~= Seq::<FnV>::empty(),
            r.next_reg == 0,
    {
        Builder { module: Module { name, globals: Vec::new(), functions: Vec::new() }, func: 0, block: 0, next_reg: 0 }
    }

    /// Append one instruction at the insertion point.
    pub fn emit(&mut self, instr: Instr)
        requires
            old(self).wf(),
        ensures
            final(self).wf(),
            same_except_cur(*old(self), *final(self)),
            final(self).cur_instrs() =~= old(self).cur_instrs().push(instr@),
            final(self).next_reg == old(self).next_reg,
    {
        let ghost pre = *self;
        let f = self.func;
        let b = self.block;
        let fdef = &mut self.module.functions[f];
        let blk = &mut fdef.blocks[b];
        blk.instrs.push(instr);
        proof {
            lemma_same_except_cur_push(pre, *self, instr@);
        }
    }

    /// Append one value-producing instruction and hand back the fresh handle
    /// that names its result.
    pub fn emit_value(&mut self, instr: Instr) -> (v: Val)
        requires
            old(self).wf(),
        ensures
            final(self).wf(),
            same_except_cur(*old(self), *final(self)),
            final(self).cur_instrs() =~= old(self).cur_instrs().push(instr@),
            v == Val::Reg(old(self).next_reg as usize),
            final(self).next_reg >= old(self).next_reg,
    {
        let v = Val::Reg(self.next_reg);
        if self.next_reg < usize::MAX {
            self.next_reg = self.next_reg + 1;
        }
        self.emit(instr);
        v
    }

    /// Append a fresh empty block to the current function.
    pub fn add_block(&mut self, tag: BlockTag) -> (bi: usize)
        requires
            old(self).func_valid(),
        ensures
            final(self).func_valid(),
            old(self).wf() ==> final(self).wf(),
            bi == old(self).cur_blocks().len(),
            final(self).func == old(self).func,
            final(self).block == old(self).block,
            final(self).next_reg == old(self).next_reg,
            final(self).module@.name == old(self).module@.name,
            final(self).module@.globals == old(self).module@.globals,
            final(self).module@.functions.len() == old(self).module@.functions.len(),
            forall|i: int|
                0 <= i < old(self).module@.functions.len() && i != old(self).func
                    ==> #[trigger] final(self).module@.functions[i]
                    == old(self).module@.functions[i],
            final(self).cur_blocks() =~= old(self).cur_blocks().push(
                BlockV { tag, instrs: Seq::empty() },
            ),
            final(self).module@.functions[old(self).func as int].name
                == old(self).module@.functions[old(self).func as int].name,
            final(self).module@.functions[old(self).func as int].ty
                == old(self).module@.functions[old(self).func as int].ty,
            final(self).module@.functions[old(self).func as int].defined
                == old(self).module@.functions[old(self).func as int].defined,
    {
        let ghost pre = *self;
        let f = self.func;
        let bi = self.module.functions[f].blocks.len();
        let fdef = &mut self.module.functions[f];
        fdef.blocks.push(Block { tag, instrs: Vec::new() });
        proof {
            let fi = pre.func as int;
            assert forall|i: int|
                0 <= i < pre.module@.functions.len() && i != fi implies #[trigger] self.module@.functions[i]
                == pre.module@.functions[i] by {
                assert(self.module.functions@[i] == pre.module.functions@[i]);
            }
            assert(self.module@.functions.len() == pre.module@.functions.len());
            let nb = self.module.functions@[fi].blocks@.last();
            assert(nb.tag == tag);
            assert(nb@ == BlockV { tag, instrs: Seq::empty() }) by {
                assert(nb.instrs@.map_values(|i: Instr| i@) =~= Seq::<InstrV>::empty());
            }
            assert(self.cur_blocks() =~= pre.cur_blocks().push(BlockV { tag, instrs: Seq::empty() }));
        }
        bi
    }

    /// Move the insertion point to block `bi` of the current function.
    pub fn set_block(&mut self, bi: usize)
        requires
            old(self).func_valid(),
            bi < old(self).cur_blocks().len(),
        ensures
            final(self).wf(),
            final(self).module == old(self).module,
            final(self).func == old(self).func,
            final(self).block == bi,
            final(self).next_reg == old(self).next_reg,
    {
        self.block = bi;
    }

    /// Move the insertion point to block `bi` of function `fi`.
    pub fn set_position(&mut self, fi: usize, bi: usize)
        requires
            fi < old(self).module@.functions.len(),
            bi < old(self).module@.functions[fi as int].blocks.len(),
        ensures
            final(self).wf(),
            final(self).module == old(self).module,
            final(self).func == fi,
            final(self).block == bi,
            final(self).next_reg == old(self).next_reg,
    {
        self.func = fi;
        self.block = bi;
    }

    /// Add a function declaration (no body) to the module; the insertion
    /// point does not move.
    pub fn add_decl(&mut self, name: String, ty: FnType) -> (fi: usize)
        ensures
            fi == old(self).module@.functions.len(),
            final(self).module@.name == old(self).module@.name,
            final(self).module@.globals == old(self).module@.globals,
            final(self).module@.functions =~= old(self).module@.functions.push(
                FnV { name: name@, ty: ty@, defined: false, blocks: Seq::empty() },
            ),
            final(self).func == old(self).func,
            final(self).block == old(self).block,
            final(self).next_reg == old(self).next_reg,
            old(self).wf() ==> final(self).wf(),
            old(self).func_valid() ==> final(self).func_valid(),
            old(self).wf() ==> final(self).cur_instrs() =~= old(self).cur_instrs(),
            old(self).func_valid() ==> final(self).cur_blocks() =~= old(self).cur_blocks(),
    {
        let ghost pre = *self;
        let fi = self.module.functions.len();
        self.module.functions.push(FnDef { name, ty, defined: false, blocks: Vec::new() });
        proof {
            lemma_push_function(pre, *self);
            let nf = self.module.functions@.last();
            assert(nf@ == FnV { name: name@, ty: ty@, defined: false, blocks: Seq::empty() }) by {
                assert(nf.blocks@.map_values(|b: Block| b@) =~= Seq::<BlockV>::empty());
            }
            assert(self.module@.functions =~= pre.module@.functions.push(
                FnV { name: name@, ty: ty@, defined: false, blocks: Seq::empty() },
            ));
        }
        fi
    }

    /// Add a function definition with a fresh entry block and move the
    /// insertion point to that block.
    pub fn start_function(&mut self, name: String, ty: FnType) -> (fi: usize)
        ensures
            fi == old(self).module@.functions.len(),
            final(self).module@.name == old(self).module@.name,
            final(self).module@.globals == old(self).module@.globals,
            final(self).module@.functions =~= old(self).module@.functions.push(
                FnV {
                    name: name@,
                    ty: ty@,
                    defined: true,
                    blocks: seq![BlockV { tag: BlockTag::Entry, instrs: Seq::empty() }],
                },
            ),
            final(self).func == fi,
            final(self).block == 0,
            final(self).next_reg == old(self).next_reg,
            final(self).wf(),
            final(self).cur_instrs() =~= Seq::<InstrV>::empty(),
    {
        let ghost pre = *self;
        let fi = self.module.functions.len();
        let mut blocks: Vec<Block> = Vec::new();
        blocks.push(Block { tag: BlockTag::Entry, instrs: Vec::new() });
        self.module.functions.push(FnDef { name, ty, defined: true, blocks });
        self.func = fi;
        self.block = 0;
        proof {
            lemma_push_function(pre, *self);
            let nf = self.module.functions@.last();
            let nb = nf.blocks@.last();
            assert(nb@ == BlockV { tag: BlockTag::Entry, instrs: Seq::empty() }) by {
                assert(nb.instrs@.map_values(|i: Instr| i@) =~= Seq::<InstrV>::empty());
            }
            assert(nf@.blocks =~= seq![BlockV { tag: BlockTag::Entry, instrs: Seq::empty() }]);
            assert(self.module@.functions =~= pre.module@.functions.push(
                FnV {
                    name: name@,
                    ty: ty@,
                    defined: true,
                    blocks: seq![BlockV { tag: BlockTag::Entry, instrs: Seq::empty() }],
                },
            ));
            assert(self.cur_instrs() =~= Seq::<InstrV>::empty());
        }
        fi
    }

    /// Whether the block at the insertion point already ends with a
    /// terminator.
    pub fn cur_terminated(&self) -> (r: bool)
        requires
            self.wf(),
        ensures
            r == (self.cur_instrs().len() > 0 && is_terminator(self.cur_instrs().last())),
    {
        let f = self.func;
        let bk = self.block;
        let instrs = &self.module.functions[f].blocks[bk].instrs;
        let n = instrs.len();
        if n == 0 {
            return false;
        }
        let r = match &instrs[n - 1] {
            Instr::Ret { .. } => true,
            Instr::RetVoid => true,
            Instr::Br { .. } => true,
            Instr::CondBr { .. } => true,
            _ => false,
        };
        proof {
            assert(self.cur_instrs().last() == instrs@[n - 1]@);
        }
        r
    }

    /// Add a global null-terminated string constant to the module.
    pub fn add_global(&mut self, name: String, text: String) -> (gi: usize)
        ensures
            gi == old(self).module@.globals.len(),
            final(self).module@.name == old(self).module@.name,
            final(self).module@.globals =~= old(self).module@.globals.push(
                GlobalV { name: name@, text: text@ },
            ),
            final(self).module@.functions == old(self).module@.functions,
            final(self).func == old(self).func,
            final(self).block == old(self).block,
            final(self).next_reg == old(self).next_reg,
            old(self).wf() ==> final(self).wf(),
            old(self).func_valid() ==> final(self).func_valid(),
            old(self).wf() ==> final(self).cur_instrs() =~= old(self).cur_instrs(),
    {
        let gi = self.module.globals.len();
        let ghost pre = *self;
        self.module.globals.push(GlobalStr { name, text });
        proof {
            assert(self.module@.globals =~= pre.module@.globals.push(
                GlobalV { name: name@, text: text@ },
            ));
            assert(self.module@.functions =~= pre.module@.functions);
        }
        gi
    }
}

/// Everything about the two builders is equal except the instruction list of
/// the (shared) current block, whose tag is also unchanged.
pub open spec fn same_except_cur(b0: Builder, b1: Builder) -> bool {
    &&& b1.func == b0.func
    &&& b1.block == b0.block
    &&& b1.module@.name == b0.module@.name
    &&& b1.module@.globals == b0.module@.globals
    &&& b1.module@.functions.len() == b0.module@.functions.len()
    &&& forall|i: int|
        0 <= i < b0.module@.functions.len() && i != b0.func ==> #[trigger] b1.module@.functions[i]
            == b0.module@.functions[i]
    &&& b1.module@.functions[b0.func as int].name == b0.module@.functions[b0.func as int].name
    &&& b1.module@.functions[b0.func as int].ty == b0.module@.functions[b0.func as int].ty
    &&& b1.module@.functions[b0.func as int].defined == b0.module@.functions[b0.func as int].defined
    &&& b1.cur_blocks().len() == b0.cur_blocks().len()
    &&& forall|j: int|
        0 <= j < b0.cur_blocks().len() && j != b0.block ==> #[trigger] b1.cur_blocks()[j]
            == b0.cur_blocks()[j]
    &&& b1.cur_blocks()[b0.block as int].tag == b0.cur_blocks()[b0.block as int].tag
}

proof fn lemma_push_function(pre: Builder, post: Builder)
    requires
        post.module.name == pre.module.name,
        post.module.globals == pre.module.globals,
        post.module.functions@ == pre.module.functions@.push(
            post.module.functions@[pre.module.functions@.len() as int],
        ),
        pre.module.functions@.len() < post.module.functions@.len(),
    ensures
        post.module@.name == pre.module@.name,
        post.module@.globals == pre.module@.globals,
        post.module@.functions.len() == pre.module@.functions.len() + 1,
        forall|i: int|
            0 <= i < pre.module@.functions.len() ==> #[trigger] post.module@.functions[i]
                == pre.module@.functions[i],
{
    assert forall|i: int| 0 <= i < pre.module@.functions.len() implies #[trigger] post.module@.functions[i]
        == pre.module@.functions[i] by {
        assert(post.module.functions@[i] == pre.module.functions@[i]);
    }
}

proof fn lemma_same_except_cur_push(pre: Builder, post: Builder, iv: InstrV)
    requires
        pre.wf(),
        post.func == pre.func,
        post.block == pre.block,
        post.module.name == pre.module.name,
        post.module.globals == pre.module.globals,
        post.module.functions@ == pre.module.functions@.update(
            pre.func as int,
            post.module.functions@[pre.func as int],
        ),
        post.module.functions@[pre.func as int].name == pre.module.functions@[pre.func as int].name,
        post.module.functions@[pre.func as int].ty@ == pre.module.functions@[pre.func as int].ty@,
        post.module.functions@[pre.func as int].defined == pre.module.functions@[pre.func as int].defined,
        post.module.functions@[pre.func as int].blocks@ == pre.module.functions@[pre.func as int].blocks@.update(
            pre.block as int,
            post.module.functions@[pre.func as int].blocks@[pre.block as int],
        ),
        post.module.functions@[pre.func as int].blocks@[pre.block as int].tag
            == pre.module.functions@[pre.func as int].blocks@[pre.block as int].tag,
        post.module.functions@[pre.func as int].blocks@[pre.block as int].instrs@
            == pre.module.functions@[pre.func as int].blocks@[pre.block as int].instrs@.push(
            post.module.functions@[pre.func as int].blocks@[pre.block as int].instrs@.last(),
        ),
        post.module.functions@[pre.func as int].blocks@[pre.block as int].instrs@.last()@ == iv,
    ensures
        post.wf(),
        same_except_cur(pre, post),
        post.cur_instrs() =~= pre.cur_instrs().push(iv),
{
    let fi = pre.func as int;
    let bi = pre.block as int;
    assert forall|i: int|
        0 <= i < pre.module@.functions.len() && i != pre.func implies #[trigger] post.module@.functions[i]
        == pre.module@.functions[i] by {
        assert(post.module.functions@[i] == pre.module.functions@[i]);
    }
    assert forall|j: int|
        0 <= j < pre.cur_blocks().len() && j != pre.block implies #[trigger] post.cur_blocks()[j]
        == pre.cur_blocks()[j] by {
        assert(post.module.functions@[fi].blocks@[j] == pre.module.functions@[fi].blocks@[j]);
    }
    assert(post.cur_instrs() =~= pre.cur_instrs().push(iv));
}

} // verus!
