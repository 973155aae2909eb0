//! Lowering of compiled statements into bytecode.
//!
//! The intermediate form arrives with lexical scoping already resolved:
//! every name is a local slot (captured or not) or a module slot.  Lowering
//! walks the statement tree and emits instructions through a [`BcWriter`].
//! Each lowering function's contract gives the exact writer state it
//! produces, via the mirror functions on [`BcState`].

use vstd::prelude::*;

use crate::bc::branch_count;
use crate::bc::BcInstr;
use crate::bc::BcState;
use crate::bc::BcWriter;
use crate::bc::ConstValue;
use crate::bc::FileSpan;
use crate::bc::InstrModel;

verus! {

/// A node together with its source span.
#[derive(Debug)]
pub struct IrSpanned<T> {
    pub node: T,
    pub span: FileSpan,
}

/// A compiled expression, reduced to what lowering dispatches on: a known
/// constant, an uncaptured local slot, or a captured local's cell.
#[derive(Debug)]
pub enum ExprCompiled {
    Value(ConstValue),
    Local(u32),
    LocalCaptured(u32),
}

/// Whether a local slot is captured by an inner function.
#[derive(Debug, Clone, Copy, PartialEq, Eq, Structural)]
pub enum Captured {
    Yes,
    No,
}

/// A compiled assignment target.
#[derive(Debug)]
pub enum AssignCompiledValue {
    /// `obj.field = v`
    Dot(IrSpanned<ExprCompiled>, String),
    /// `arr[idx] = v`
    ArrayIndirection(IrSpanned<ExprCompiled>, IrSpanned<ExprCompiled>),
    /// `(a, b) = v`
    Tuple(Vec<IrSpanned<AssignCompiledValue>>),
    /// a local slot
    Local(u32, Captured),
    /// a module-level slot, exported under its name
    Module(u32, String),
}

/// Whether a condition is taken as it is or negated.
#[derive(Debug, Clone, Copy, PartialEq, Eq, Structural)]
pub enum MaybeNot {
    Id,
    Not,
}

/// An `if` with its two blocks; one of them may be empty.
#[derive(Debug)]
pub struct IfCompiled {
    pub cond: IrSpanned<ExprCompiled>,
    pub then_block: StmtsCompiled,
    pub else_block: StmtsCompiled,
}

/// A `for` loop: the loop variable target, the iterable, and the body.
#[derive(Debug)]
pub struct ForCompiled {
    pub var: IrSpanned<AssignCompiledValue>,
    pub over: IrSpanned<ExprCompiled>,
    pub body: StmtsCompiled,
}

/// One compiled statement.
#[derive(Debug)]
pub enum StmtCompiled {
    PossibleGc,
    Return(IrSpanned<ExprCompiled>),
    Expr(IrSpanned<ExprCompiled>),
    Assign(IrSpanned<AssignCompiledValue>, IrSpanned<ExprCompiled>),
    If(Box<IfCompiled>),
    For(Box<ForCompiled>),
    Break,
    Continue,
}

/// A block of compiled statements.
#[derive(Debug)]
pub struct StmtsCompiled {
    pub stmts: Vec<IrSpanned<StmtCompiled>>,
}

/// Flags that shape lowering for the whole function.
#[derive(Debug, Clone, Copy, PartialEq, Eq, Structural)]
pub struct StmtCompileContext {
    /// Emit a marker instruction before every statement.
    pub has_before_stmt: bool,
    /// The function declares a return type; returns check it.
    pub has_return_type: bool,
}

/// A finished function body: the instructions and the frame layout.
#[derive(Debug)]
pub struct Bc {
    pub instrs: Vec<BcInstr>,
    pub local_count: u32,
    pub param_count: u32,
    pub max_stack: u32,
}

impl View for Bc {
    type V = Seq<InstrModel>;

    open spec fn view(&self) -> Seq<InstrModel> {
        self.instrs.deep_view()
    }
}

// ---------------------------------------------------------------------------
// The mirror: what each lowering step does to the writer state.
// ---------------------------------------------------------------------------

/// How many stack slots evaluating this expression into a slot takes:
/// none when it already lives in a local slot, one otherwise.
pub open spec fn expr_extra(e: ExprCompiled) -> int {
    match e {
        ExprCompiled::Local(_) => 0,
        _ => 1,
    }
}

/// Writing an expression's value into a given slot.
pub open spec fn s_expr_write(e: ExprCompiled, target: u32, st: BcState) -> BcState {
    match e {
        ExprCompiled::Value(v) => st.emit(InstrModel::Const { value: v, target }),
        ExprCompiled::Local(s) => st.emit(InstrModel::Mov { source: s, target }),
        ExprCompiled::LocalCaptured(c) => st.emit(InstrModel::LoadCaptured { cell: c, target }),
    }
}

/// Materialising an expression in a slot: a local is read in place, any
/// other expression is written into a fresh stack slot.
pub open spec fn s_expr_slot(e: ExprCompiled, st: BcState) -> (int, BcState) {
    match e {
        ExprCompiled::Local(s) => (s as int, st),
        _ => (st.top(), s_expr_write(e, st.top() as u32, st.grow(1))),
    }
}

/// The constant an expression is known to be, if any.
pub open spec fn s_expr_as_value(e: ExprCompiled) -> Option<ConstValue> {
    match e {
        ExprCompiled::Value(v) => Some(v),
        _ => None,
    }
}

/// The slot of an uncaptured-local target, if the target is one.
pub open spec fn s_as_local_non_captured(a: AssignCompiledValue) -> Option<u32> {
    match a {
        AssignCompiledValue::Local(slot, Captured::No) => Some(slot),
        _ => None,
    }
}

/// The slots of the targets when every target is an uncaptured local.
pub open spec fn all_local_slots(xs: Seq<IrSpanned<AssignCompiledValue>>) -> Option<Seq<u32>>
    decreases xs.len(),
{
    if xs.len() == 0 {
        Some(Seq::empty())
    } else {
        match all_local_slots(xs.drop_last()) {
            None => None,
            Some(pre) => match s_as_local_non_captured(xs.last().node) {
                Some(slot) => Some(pre.push(slot)),
                None => None,
            },
        }
    }
}

/// An upper bound on the stack slots an assignment lowering takes.
pub open spec fn assign_size(a: AssignCompiledValue) -> int
    decreases a,
{
    match a {
        AssignCompiledValue::Dot(obj, _) => expr_extra(obj.node),
        AssignCompiledValue::ArrayIndirection(arr, idx) => expr_extra(arr.node) + expr_extra(
            idx.node,
        ),
        AssignCompiledValue::Tuple(xs) => xs@.len() + assign_list_size(xs@, xs@.len() as int),
        AssignCompiledValue::Local(_, _) => 0,
        AssignCompiledValue::Module(_, _) => 0,
    }
}

/// The summed bound over the first `n` targets of a destructuring.
pub open spec fn assign_list_size(xs: Seq<IrSpanned<AssignCompiledValue>>, n: int) -> int
    decreases xs, n,
{
    if n <= 0 || n > xs.len() {
        0
    } else {
        assign_list_size(xs, n - 1) + assign_size(xs[n - 1].node)
    }
}

/// Lowering an assignment of the value in `value` to a target.
pub open spec fn s_assign_write(a: AssignCompiledValue, value: u32, st: BcState) -> BcState
    decreases a, 1int,
{
    match a {
        AssignCompiledValue::Dot(obj, field) => {
            let (oslot, st1) = s_expr_slot(obj.node, st);
            st1.emit(
                InstrModel::SetObjectField { source: value, object: oslot as u32, field: field@ },
            )
        },
        AssignCompiledValue::ArrayIndirection(arr, idx) => {
            let (aslot, st1) = s_expr_slot(arr.node, st);
            let (islot, st2) = s_expr_slot(idx.node, st1);
            st2.emit(
                InstrModel::SetArrayIndex { source: value, array: aslot as u32, index: islot as u32 },
            )
        },
        AssignCompiledValue::Tuple(xs) => {
            match all_local_slots(xs@) {
                Some(targets) => st.emit(InstrModel::Unpack { source: value, targets }),
                None => {
                    let n = xs@.len() as int;
                    let first = st.top();
                    let st1 = st.grow(n);
                    let st2 = st1.emit(
                        InstrModel::Unpack {
                            source: value,
                            targets: Seq::new(n as nat, |i: int| (first + i) as u32),
                        },
                    );
                    s_assign_list(xs@, first, 0, st2)
                },
            }
        },
        AssignCompiledValue::Local(slot, Captured::No) => st.emit(
            InstrModel::Mov { source: value, target: slot },
        ),
        AssignCompiledValue::Local(slot, Captured::Yes) => st.emit(
            InstrModel::StoreCaptured { source: value, cell: slot },
        ),
        AssignCompiledValue::Module(slot, name) => st.emit(
            InstrModel::StoreModuleAndExport { source: value, module_slot: slot, name: name@ },
        ),
    }
}

/// Lowering the per-element assignments of a destructuring, from element
/// `i` on, each from its unpacked stack slot.
pub open spec fn s_assign_list(
    xs: Seq<IrSpanned<AssignCompiledValue>>,
    first: int,
    i: int,
    st: BcState,
) -> BcState
    decreases xs, xs.len() - i, 2int,
{
    if i < 0 || i >= xs.len() {
        st
    } else {
        s_assign_list(xs, first, i + 1, s_assign_write(xs[i].node, (first + i) as u32, st))
    }
}


/// An upper bound on the stack slots a statement lowering takes.
pub open spec fn stmt_size(s: StmtCompiled) -> int
    decreases s, 1int,
{
    match s {
        StmtCompiled::PossibleGc => 0,
        StmtCompiled::Return(e) => expr_extra(e.node),
        StmtCompiled::Expr(e) => 1,
        StmtCompiled::Assign(lhs, rhs) => expr_extra(rhs.node) + assign_size(lhs.node),
        StmtCompiled::If(c) => expr_extra(c.cond.node) + stmts_size(c.then_block) + stmts_size(
            c.else_block,
        ),
        StmtCompiled::For(f) => expr_extra(f.over.node) + 1 + assign_size(f.var.node) + stmts_size(
            f.body,
        ),
        StmtCompiled::Break => 0,
        StmtCompiled::Continue => 0,
    }
}

/// The summed bound over a block.
pub open spec fn stmts_size(ss: StmtsCompiled) -> int
    decreases ss, 0int,
{
    stmts_list_size(ss.stmts@, ss.stmts@.len() as int)
}

/// The summed bound over the first `n` statements of a block.
pub open spec fn stmts_list_size(xs: Seq<IrSpanned<StmtCompiled>>, n: int) -> int
    decreases xs, n,
{
    if n <= 0 || n > xs.len() {
        0
    } else {
        stmts_list_size(xs, n - 1) + stmt_size(xs[n - 1].node)
    }
}

/// Lowering `if`/`else` where at most one block runs: the condition goes
/// into a slot, a single conditional skip guards the block that is there,
/// and a block pair with both arms adds one forward jump over the `else`
/// arm.  A placeholder branch is emitted first and patched once the jump
/// target is known.
pub open spec fn s_if_then(
    c: IrSpanned<ExprCompiled>,
    maybe_not: MaybeNot,
    t: StmtsCompiled,
    ctx: StmtCompileContext,
    st: BcState,
) -> BcState
    decreases t, 1int,
{
    let (cslot, st1) = s_expr_slot(c.node, st);
    let idx = st1.instrs.len() as int;
    let st2 = if maybe_not is Id {
        st1.emit(InstrModel::IfNotBr { cond: cslot as u32, target: 0 })
    } else {
        st1.emit(InstrModel::IfBr { cond: cslot as u32, target: 0 })
    };
    let st3 = s_stmts_write(t, ctx, st2);
    let end = st3.instrs.len() as int;
    if maybe_not is Id {
        st3.patch(idx, InstrModel::IfNotBr { cond: cslot as u32, target: end })
    } else {
        st3.patch(idx, InstrModel::IfBr { cond: cslot as u32, target: end })
    }
}

/// Lowering `if`/`else`: an empty arm collapses to a single conditional
/// skip of the other arm, with the test negated when the `then` arm is the
/// empty one.
pub open spec fn s_if_else(ifc: IfCompiled, ctx: StmtCompileContext, st: BcState) -> BcState
    decreases ifc, 1int,
{
    let c = ifc.cond;
    let t = ifc.then_block;
    let f = ifc.else_block;
    if f.stmts@.len() == 0 {
        s_if_then(c, MaybeNot::Id, t, ctx, st)
    } else if t.stmts@.len() == 0 {
        s_if_then(c, MaybeNot::Not, f, ctx, st)
    } else {
        let (cslot, st1) = s_expr_slot(c.node, st);
        let idx1 = st1.instrs.len() as int;
        let st2 = st1.emit(InstrModel::IfNotBr { cond: cslot as u32, target: 0 });
        let st3 = s_stmts_write(t, ctx, st2);
        let idx2 = st3.instrs.len() as int;
        let st4 = st3.emit(InstrModel::Br { target: 0 });
        let st5 = st4.patch(idx1, InstrModel::IfNotBr { cond: cslot as u32, target: st4.instrs.len() as int });
        let st6 = s_stmts_write(f, ctx, st5);
        st6.patch(idx2, InstrModel::Br { target: st6.instrs.len() as int })
    }
}

/// Lowering `return`: a known constant returns directly, a declared
/// return type wraps the value in a checking return, anything else is a
/// plain return from a slot.
pub open spec fn s_return(
    expr: IrSpanned<ExprCompiled>,
    ctx: StmtCompileContext,
    st: BcState,
) -> BcState {
    if ctx.has_return_type {
        let (slot, st1) = s_expr_slot(expr.node, st);
        st1.emit(InstrModel::ReturnCheckType { source: slot as u32 })
    } else {
        match s_expr_as_value(expr.node) {
            Some(v) => st.emit(InstrModel::ReturnConst { value: v }),
            None => {
                let (slot, st1) = s_expr_slot(expr.node, st);
                st1.emit(InstrModel::Return { source: slot as u32 })
            },
        }
    }
}

/// Lowering `for`: the iterable goes into a slot once; a loop variable
/// that is one uncaptured local receives each element directly, any other
/// target goes through one stack slot and the shared assignment lowering;
/// the body ends with a jump back to the loop head, whose exit target is
/// patched to the instruction after it.
pub open spec fn s_write_for(fc: ForCompiled, ctx: StmtCompileContext, st: BcState) -> BcState
    decreases fc, 1int,
{
    let over = fc.over;
    let var = fc.var;
    let body = fc.body;
    let (oslot, st1) = s_expr_slot(over.node, st);
    match s_as_local_non_captured(var.node) {
        Some(v) => {
            let idx = st1.instrs.len() as int;
            let st2 = st1.emit(InstrModel::For { over: oslot as u32, var: v, end: 0 });
            let st3 = s_stmts_write(body, ctx, st2);
            let st4 = st3.emit(InstrModel::Br { target: idx });
            st4.patch(idx, InstrModel::For { over: oslot as u32, var: v, end: st4.instrs.len() as int })
        },
        None => {
            let vslot = st1.top();
            let st2 = st1.grow(1);
            let idx = st2.instrs.len() as int;
            let st3 = st2.emit(InstrModel::For { over: oslot as u32, var: vslot as u32, end: 0 });
            let st4 = s_assign_write(var.node, vslot as u32, st3);
            let st5 = s_stmts_write(body, ctx, st4);
            let st6 = st5.emit(InstrModel::Br { target: idx });
            st6.patch(idx, InstrModel::For { over: oslot as u32, var: vslot as u32, end: st6.instrs.len() as int })
        },
    }
}

/// Lowering one statement's own effect.
pub open spec fn s_stmt_inner(s: IrSpanned<StmtCompiled>, ctx: StmtCompileContext, st: BcState) -> BcState
    decreases s, 2int,
{
    match s.node {
        StmtCompiled::PossibleGc => st.emit(InstrModel::PossibleGc),
        StmtCompiled::Return(e) => s_return(e, ctx, st),
        StmtCompiled::Expr(e) => {
            let slot = st.top();
            s_expr_write(e.node, slot as u32, st.grow(1))
        },
        StmtCompiled::Assign(lhs, rhs) => {
            match s_as_local_non_captured(lhs.node) {
                Some(l) => s_expr_write(rhs.node, l, st),
                None => {
                    let (slot, st1) = s_expr_slot(rhs.node, st);
                    s_assign_write(lhs.node, slot as u32, st1)
                },
            }
        },
        StmtCompiled::If(c) => s_if_else(*c, ctx, st),
        StmtCompiled::For(f) => s_write_for(*f, ctx, st),
        StmtCompiled::Break => st.emit(InstrModel::Break),
        StmtCompiled::Continue => st.emit(InstrModel::Continue),
    }
}

/// Lowering one statement: the optional before-statement marker, then the
/// statement itself.  A safepoint gets no marker.
pub open spec fn s_stmt_write(s: IrSpanned<StmtCompiled>, ctx: StmtCompileContext, st: BcState) -> BcState
    decreases s, 3int,
{
    let st1 = if ctx.has_before_stmt && !(s.node is PossibleGc) {
        st.emit(InstrModel::BeforeStmt(s.span))
    } else {
        st
    };
    s_stmt_inner(s, ctx, st1)
}

/// Lowering a block from statement `i` on.
pub open spec fn s_stmts_from(
    xs: Seq<IrSpanned<StmtCompiled>>,
    ctx: StmtCompileContext,
    i: int,
    st: BcState,
) -> BcState
    decreases xs, xs.len() - i,
{
    if i < 0 || i >= xs.len() {
        st
    } else {
        s_stmts_from(xs, ctx, i + 1, s_stmt_write(xs[i], ctx, st))
    }
}

/// Lowering a whole block.
pub open spec fn s_stmts_write(ss: StmtsCompiled, ctx: StmtCompileContext, st: BcState) -> BcState
    decreases ss, 0int,
{
    s_stmts_from(ss.stmts@, ctx, 0, st)
}

/// Whether a block's last statement is a `return`.
pub open spec fn s_ends_in_return(ss: StmtsCompiled) -> bool {
    ss.stmts@.len() > 0 && ss.stmts@.last().node is Return
}

/// Lowering a function body: the block, then an implicit `return none`
/// unless the block already ends in a return; the implicit return checks
/// the declared return type when there is one.
pub open spec fn s_as_bc(ss: StmtsCompiled, ctx: StmtCompileContext, local_count: int) -> BcState {
    let st = s_stmts_write(ss, ctx, BcState::empty(local_count));
    if s_ends_in_return(ss) {
        st
    } else {
        if ctx.has_return_type {
            let slot = st.top();
            let st1 = st.grow(1);
            let st2 = st1.emit(InstrModel::Const { value: ConstValue::NoneV, target: slot as u32 });
            st2.emit(InstrModel::ReturnCheckType { source: slot as u32 })
        } else {
            st.emit(InstrModel::ReturnConst { value: ConstValue::NoneV })
        }
    }
}


// ---------------------------------------------------------------------------
// Size lemmas.
// ---------------------------------------------------------------------------

/// Assignment bounds are never negative.
pub proof fn lemma_assign_size_nonneg(a: AssignCompiledValue)
    ensures
        assign_size(a) >= 0,
    decreases a, 1int,
{
    match a {
        AssignCompiledValue::Tuple(xs) => {
            lemma_assign_list_size_nonneg(xs@, xs@.len() as int);
        },
        _ => {},
    }
}

/// Summed assignment bounds are never negative and grow with the count.
pub proof fn lemma_assign_list_size_nonneg(xs: Seq<IrSpanned<AssignCompiledValue>>, n: int)
    ensures
        assign_list_size(xs, n) >= 0,
        n <= xs.len() ==> forall|m: int|
            0 <= m <= n ==> #[trigger] assign_list_size(xs, m) <= assign_list_size(xs, n),
    decreases xs, n, 2int,
{
    if n > 0 && n <= xs.len() {
        lemma_assign_list_size_nonneg(xs, n - 1);
        lemma_assign_size_nonneg(xs[n - 1].node);
    }
}

// ---------------------------------------------------------------------------
// Executable lowering: expressions.
// ---------------------------------------------------------------------------

/// An exact copy of a constant.
fn const_dup(v: &ConstValue) -> (r: ConstValue)
    ensures
        r == *v,
{
    match v {
        ConstValue::NoneV => ConstValue::NoneV,
        ConstValue::Bool(b) => ConstValue::Bool(*b),
        ConstValue::Int(i) => ConstValue::Int(*i),
        ConstValue::Str(s) => {
            let r = ConstValue::Str(s.clone());
            proof {
                assert(r == *v);
            }
            r
        },
    }
}

impl IrSpanned<ExprCompiled> {
    /// The constant this expression is known to be, if any.
    pub fn as_value(&self) -> (r: Option<ConstValue>)
        ensures
            r == s_expr_as_value(self.node),
    {
        match &self.node {
            ExprCompiled::Value(v) => Some(const_dup(v)),
            _ => None,
        }
    }

    /// Writes this expression's value into the given slot.
    pub fn write_bc(&self, target: u32, bc: &mut BcWriter)
        requires
            old(bc).wf(),
        ensures
            final(bc)@ == s_expr_write(self.node, target, old(bc)@),
            final(bc)@.stack == old(bc)@.stack,
            final(bc).wf(),
    {
        match &self.node {
            ExprCompiled::Value(v) => {
                bc.write_instr(BcInstr::Const { value: const_dup(v), target });
            },
            ExprCompiled::Local(s) => {
                bc.write_instr(BcInstr::Mov { source: *s, target });
            },
            ExprCompiled::LocalCaptured(c) => {
                bc.write_instr(BcInstr::LoadCaptured { cell: *c, target });
            },
        }
    }

    /// Materialises this expression in a slot: a local is read in place,
    /// any other expression goes into a fresh stack slot.
    pub fn write_bc_slot(&self, bc: &mut BcWriter) -> (slot: u32)
        requires
            old(bc).wf(),
            old(bc)@.top() + expr_extra(self.node) <= u32::MAX,
        ensures
            slot as int == s_expr_slot(self.node, old(bc)@).0,
            final(bc)@ == s_expr_slot(self.node, old(bc)@).1,
            final(bc)@.stack <= old(bc)@.stack + expr_extra(self.node),
            final(bc)@.stack >= old(bc)@.stack,
            final(bc)@.local_count == old(bc)@.local_count,
            final(bc)@.instrs.len() >= old(bc)@.instrs.len(),
            final(bc).wf(),
    {
        match &self.node {
            ExprCompiled::Local(s) => *s,
            _ => {
                let slot = bc.alloc_slots(1);
                self.write_bc(slot, bc);
                slot
            },
        }
    }
}

// ---------------------------------------------------------------------------
// Executable lowering: assignment targets.
// ---------------------------------------------------------------------------

impl IrSpanned<AssignCompiledValue> {
    /// The slot of this target when it is one uncaptured local.
    pub fn as_local_non_captured(&self) -> (r: Option<u32>)
        ensures
            r == s_as_local_non_captured(self.node),
    {
        match &self.node {
            AssignCompiledValue::Local(slot, Captured::No) => Some(*slot),
            _ => None,
        }
    }

    /// Lowers the assignment of the value in `value` to this target.
    ///
    /// Destructuring picks its fast path exactly when every target is an
    /// uncaptured local: one unpack instruction straight into the locals
    /// and no stack slot.  Otherwise the elements go through one fresh
    /// stack slot each before the per-element assignments run.
    #[verifier::loop_isolation(false)]
    pub fn write_bc(&self, value: u32, bc: &mut BcWriter)
        requires
            old(bc).wf(),
            old(bc)@.top() + assign_size(self.node) <= u32::MAX,
        ensures
            final(bc)@ == s_assign_write(self.node, value, old(bc)@),
            final(bc)@.stack <= old(bc)@.stack + assign_size(self.node),
            final(bc)@.stack >= old(bc)@.stack,
            final(bc)@.local_count == old(bc)@.local_count,
            final(bc)@.instrs.len() >= old(bc)@.instrs.len(),
            final(bc).wf(),
            (match self.node {
                AssignCompiledValue::Tuple(xs) => match all_local_slots(xs@) {
                    Some(ts) => final(bc)@.instrs == old(bc)@.instrs.push(
                        InstrModel::Unpack { source: value, targets: ts },
                    ) && final(bc)@.stack == old(bc)@.stack,
                    None => true,
                },
                _ => true,
            }),
            (match self.node {
                AssignCompiledValue::Tuple(xs) => all_local_slots(xs@) is None
                    ==> final(bc)@.stack >= old(bc)@.stack + xs@.len(),
                _ => true,
            }),
        decreases self.node, 1int,
    {
        proof {
            lemma_assign_size_nonneg(self.node);
        }
        match &self.node {
            AssignCompiledValue::Dot(obj, field) => {
                let oslot = obj.write_bc_slot(bc);
                bc.write_instr(
                    BcInstr::SetObjectField { source: value, object: oslot, field: field.clone() },
                );
            },
            AssignCompiledValue::ArrayIndirection(arr, idx) => {
                let aslot = arr.write_bc_slot(bc);
                let islot = idx.write_bc_slot(bc);
                bc.write_instr(BcInstr::SetArrayIndex { source: value, array: aslot, index: islot });
            },
            AssignCompiledValue::Tuple(xs) => {
                let all_local = tuple_all_local(xs);
                match all_local {
                    Some(targets) => {
                        let ghost ts = targets@;
                        bc.write_instr(BcInstr::Unpack { source: value, targets });
                        proof {
                            assert(all_local_slots(xs@) == Some(ts));
                            assert(bc@.instrs =~= old(bc)@.instrs.push(
                                InstrModel::Unpack { source: value, targets: ts },
                            ));
                            assert(bc@.stack == old(bc)@.stack);
                        }
                    },
                    None => {
                        proof {
                            lemma_assign_list_size_nonneg(xs@, xs@.len() as int);
                        }
                        let n = xs.len();
                        let first = bc.alloc_slots(n as u32);
                        let mut targets: Vec<u32> = Vec::new();
                        let mut i: usize = 0;
                        while i < n
                            invariant
                                n == xs@.len(),
                                i <= n,
                                first + n <= u32::MAX,
                                targets@.len() == i,
                                forall|j: int|
                                    0 <= j < i ==> targets@[j] == (first + j) as u32,
                            decreases n - i,
                        {
                            targets.push(first + (i as u32));
                            i = i + 1;
                        }
                        proof {
                            assert(targets@ =~= Seq::new(
                                xs@.len(),
                                |j: int| (old(bc)@.top() + j) as u32,
                            ));
                        }
                        bc.write_instr(BcInstr::Unpack { source: value, targets });
                        let ghost st2 = bc@;
                        let mut i: usize = 0;
                        while i < n
                            invariant
                                n == xs@.len(),
                                i <= n,
                                bc.wf(),
                                first == old(bc)@.top(),
                                bc@.local_count == old(bc)@.local_count,
                                s_assign_list(xs@, first as int, i as int, bc@) == s_assign_list(
                                    xs@,
                                    first as int,
                                    0,
                                    st2,
                                ),
                                bc@.stack <= old(bc)@.stack + xs@.len() + assign_list_size(
                                    xs@,
                                    i as int,
                                ),
                                bc@.stack >= old(bc)@.stack + xs@.len(),
                                bc@.instrs.len() >= old(bc)@.instrs.len(),
                                old(bc)@.top() + assign_size(AssignCompiledValue::Tuple(*xs))
                                    <= u32::MAX,
                            decreases n - i,
                        {
                            proof {
                                broadcast use vstd::std_specs::vec::axiom_vec_index_decreases;

                                lemma_assign_list_size_nonneg(xs@, xs@.len() as int);
                                lemma_assign_list_size_nonneg(xs@, i as int + 1);
                                assert(assign_list_size(xs@, i as int + 1) == assign_list_size(
                                    xs@,
                                    i as int,
                                ) + assign_size(xs@[i as int].node));
                                assert(self.node matches AssignCompiledValue::Tuple(v) && v == *xs);
                                assert(decreases_to!(self.node => self.node->Tuple_0));
                                assert(decreases_to!(*xs => xs[i as int]));
                                assert(decreases_to!(xs[i as int] => xs[i as int].node));
                            }
                            xs[i].write_bc(first + (i as u32), bc);
                            i = i + 1;
                        }
                    },
                }
            },
            AssignCompiledValue::Local(slot, Captured::No) => {
                bc.write_instr(BcInstr::Mov { source: value, target: *slot });
            },
            AssignCompiledValue::Local(slot, Captured::Yes) => {
                bc.write_instr(BcInstr::StoreCaptured { source: value, cell: *slot });
            },
            AssignCompiledValue::Module(slot, name) => {
                bc.write_instr(
                    BcInstr::StoreModuleAndExport {
                        source: value,
                        module_slot: *slot,
                        name: name.clone(),
                    },
                );
            },
        }
    }
}

/// The slots of the targets when every target is an uncaptured local.
fn tuple_all_local(xs: &Vec<IrSpanned<AssignCompiledValue>>) -> (r: Option<Vec<u32>>)
    ensures
        match r {
            Some(ts) => all_local_slots(xs@) == Some(ts@),
            None => all_local_slots(xs@) is None,
        },
{
    let mut out: Vec<u32> = Vec::new();
    let mut i: usize = 0;
    while i < xs.len()
        invariant
            i <= xs@.len(),
            all_local_slots(xs@.subrange(0, i as int)) == Some(out@),
        decreases xs@.len() - i,
    {
        match xs[i].as_local_non_captured() {
            Some(slot) => {
                out.push(slot);
                proof {
                    assert(xs@.subrange(0, i as int + 1).drop_last() =~= xs@.subrange(0, i as int));
                    assert(xs@.subrange(0, i as int + 1).last() == xs@[i as int]);
                }
            },
            None => {
                proof {
                    lemma_all_local_slots_prefix_none(xs@, i as int);
                }
                return None;
            },
        }
        i = i + 1;
    }
    proof {
        assert(xs@.subrange(0, xs@.len() as int) =~= xs@);
    }
    Some(out)
}

/// A target that is not one uncaptured local defeats the fast path for
/// the whole destructuring.
proof fn lemma_all_local_slots_prefix_none(xs: Seq<IrSpanned<AssignCompiledValue>>, i: int)
    requires
        0 <= i < xs.len(),
        s_as_local_non_captured(xs[i].node) is None,
    ensures
        all_local_slots(xs) is None,
    decreases xs.len(),
{
    if xs.len() > 0 {
        if i == xs.len() - 1 {
            assert(xs.last() == xs[i]);
        } else {
            lemma_all_local_slots_prefix_none(xs.drop_last(), i);
        }
    }
}


// ---------------------------------------------------------------------------
// Heights, for termination of the statement lowering.
// ---------------------------------------------------------------------------

/// The height of one statement in the tree.
pub open spec fn stmt_height(s: StmtCompiled) -> nat
    decreases s, 1int,
{
    match s {
        StmtCompiled::If(c) => 1 + stmts_height(c.then_block) + stmts_height(c.else_block),
        StmtCompiled::For(f) => 1 + stmts_height(f.body),
        _ => 1,
    }
}

/// The height of a block.
pub open spec fn stmts_height(ss: StmtsCompiled) -> nat
    decreases ss, 0int,
{
    stmts_list_height(ss.stmts@, ss.stmts@.len() as int)
}

/// The height of the first `n` statements of a block.
pub open spec fn stmts_list_height(xs: Seq<IrSpanned<StmtCompiled>>, n: int) -> nat
    decreases xs, n,
{
    if n <= 0 || n > xs.len() {
        1
    } else {
        stmts_list_height(xs, n - 1) + stmt_height(xs[n - 1].node)
    }
}

/// Block heights are positive and every statement's height is below its
/// block's height.
pub proof fn lemma_stmts_list_height(xs: Seq<IrSpanned<StmtCompiled>>, n: int)
    ensures
        stmts_list_height(xs, n) >= 1,
        forall|i: int|
            0 <= i < n <= xs.len() ==> #[trigger] stmt_height(xs[i].node) < stmts_list_height(
                xs,
                n,
            ),
    decreases n,
{
    if n > 0 && n <= xs.len() {
        lemma_stmts_list_height(xs, n - 1);
    }
}

/// Well-formed lowering input: an `if` never has two empty arms.
pub open spec fn stmt_wf(s: StmtCompiled) -> bool
    decreases s, 1int,
{
    match s {
        StmtCompiled::If(c) => (c.then_block.stmts@.len() > 0 || c.else_block.stmts@.len() > 0)
            && stmts_wf(c.then_block) && stmts_wf(c.else_block),
        StmtCompiled::For(f) => stmts_wf(f.body),
        _ => true,
    }
}

/// Well-formed block: every statement is well formed.
pub open spec fn stmts_wf(ss: StmtsCompiled) -> bool
    decreases ss, 0int,
{
    stmts_list_wf(ss.stmts@, ss.stmts@.len() as int)
}

/// Well-formed prefix of a block.
pub open spec fn stmts_list_wf(xs: Seq<IrSpanned<StmtCompiled>>, n: int) -> bool
    decreases xs, n,
{
    if n <= 0 || n > xs.len() {
        true
    } else {
        stmts_list_wf(xs, n - 1) && stmt_wf(xs[n - 1].node)
    }
}

/// Each statement of a well-formed prefix is well formed.
pub proof fn lemma_stmts_list_wf_elem(xs: Seq<IrSpanned<StmtCompiled>>, n: int)
    ensures
        stmts_list_wf(xs, n) ==> forall|i: int|
            0 <= i < n <= xs.len() ==> #[trigger] stmt_wf(xs[i].node),
    decreases n,
{
    if n > 0 && n <= xs.len() {
        lemma_stmts_list_wf_elem(xs, n - 1);
    }
}

/// Statement bounds are never negative.
pub proof fn lemma_stmt_size_nonneg(s: StmtCompiled)
    ensures
        stmt_size(s) >= 0,
    decreases s, 1int,
{
    match s {
        StmtCompiled::Assign(lhs, _) => {
            lemma_assign_size_nonneg(lhs.node);
        },
        StmtCompiled::If(c) => {
            lemma_stmts_size_nonneg(c.then_block);
            lemma_stmts_size_nonneg(c.else_block);
        },
        StmtCompiled::For(f) => {
            lemma_assign_size_nonneg(f.var.node);
            lemma_stmts_size_nonneg(f.body);
        },
        _ => {},
    }
}

/// Block bounds are never negative.
pub proof fn lemma_stmts_size_nonneg(ss: StmtsCompiled)
    ensures
        stmts_size(ss) >= 0,
    decreases ss, 0int,
{
    lemma_stmts_list_size_nonneg(ss.stmts@, ss.stmts@.len() as int);
}

/// Summed block bounds are never negative and grow with the count.
pub proof fn lemma_stmts_list_size_nonneg(xs: Seq<IrSpanned<StmtCompiled>>, n: int)
    ensures
        stmts_list_size(xs, n) >= 0,
        n <= xs.len() ==> forall|m: int|
            0 <= m <= n ==> #[trigger] stmts_list_size(xs, m) <= stmts_list_size(xs, n),
    decreases xs, n,
{
    if n > 0 && n <= xs.len() {
        lemma_stmts_list_size_nonneg(xs, n - 1);
        lemma_stmt_size_nonneg(xs[n - 1].node);
    }
}

// ---------------------------------------------------------------------------
// Executable lowering: statements.
// ---------------------------------------------------------------------------

impl StmtsCompiled {
    /// Whether the block has no statements.
    pub fn is_empty(&self) -> (r: bool)
        ensures
            r == (self.stmts@.len() == 0),
    {
        self.stmts.len() == 0
    }

    /// Whether the block's last statement is a `return`.
    pub fn ends_in_return(&self) -> (r: bool)
        ensures
            r == s_ends_in_return(*self),
    {
        if self.stmts.len() == 0 {
            false
        } else {
            match &self.stmts[self.stmts.len() - 1].node {
                StmtCompiled::Return(_) => true,
                _ => false,
            }
        }
    }

    /// Lowers every statement of the block in order.
    #[verifier::loop_isolation(false)]
    pub fn write_bc(&self, compiler: &StmtCompileContext, bc: &mut BcWriter)
        requires
            old(bc).wf(),
            stmts_wf(*self),
            old(bc)@.top() + stmts_size(*self) <= u32::MAX,
        ensures
            final(bc)@ == s_stmts_write(*self, *compiler, old(bc)@),
            final(bc)@.stack <= old(bc)@.stack + stmts_size(*self),
            final(bc)@.stack >= old(bc)@.stack,
            final(bc)@.local_count == old(bc)@.local_count,
            final(bc)@.instrs.len() >= old(bc)@.instrs.len(),
            final(bc).wf(),
        decreases stmts_height(*self), 0int,
    {
        let ghost xs = self.stmts@;
        let ghost st0 = bc@;
        let mut i: usize = 0;
        proof {
            lemma_stmts_list_size_nonneg(xs, xs.len() as int);
        }
        while i < self.stmts.len()
            invariant
                i <= xs.len(),
                bc.wf(),
                s_stmts_from(xs, *compiler, i as int, bc@) == s_stmts_from(xs, *compiler, 0, st0),
                bc@.stack <= st0.stack + stmts_list_size(xs, i as int),
                bc@.stack >= st0.stack,
                bc@.local_count == st0.local_count,
                bc@.instrs.len() >= st0.instrs.len(),
            decreases xs.len() - i,
        {
            proof {
                broadcast use vstd::std_specs::vec::axiom_vec_index_decreases;

                lemma_stmts_list_height(xs, xs.len() as int);
                lemma_stmts_list_wf_elem(xs, xs.len() as int);
                lemma_stmts_list_size_nonneg(xs, i as int + 1);
                lemma_stmts_list_size_nonneg(xs, xs.len() as int);
                assert(stmts_list_size(xs, i as int + 1) == stmts_list_size(xs, i as int)
                    + stmt_size(xs[i as int].node));
            }
            self.stmts[i].write_bc(compiler, bc);
            i = i + 1;
        }
    }
}

impl IrSpanned<StmtCompiled> {
    /// Lowers one statement: the optional before-statement marker, then
    /// the statement itself.  A safepoint gets no marker, and the marker
    /// changes no other emitted instruction.
    pub fn write_bc(&self, compiler: &StmtCompileContext, bc: &mut BcWriter)
        requires
            old(bc).wf(),
            stmt_wf(self.node),
            old(bc)@.top() + stmt_size(self.node) <= u32::MAX,
        ensures
            final(bc)@ == s_stmt_write(*self, *compiler, old(bc)@),
            final(bc)@.stack <= old(bc)@.stack + stmt_size(self.node),
            final(bc)@.stack >= old(bc)@.stack,
            final(bc)@.local_count == old(bc)@.local_count,
            final(bc)@.instrs.len() >= old(bc)@.instrs.len(),
            final(bc).wf(),
        decreases stmt_height(self.node), 3int,
    {
        if compiler.has_before_stmt {
            match &self.node {
                StmtCompiled::PossibleGc => {},
                _ => bc.write_instr(BcInstr::BeforeStmt(self.span)),
            }
        }
        self.write_bc_inner(compiler, bc);
    }

    /// Lowers `if`/`else` with one nonempty arm behind a single
    /// conditional skip, negated when the nonempty arm is the `else` one.
    pub fn write_if_then(
        compiler: &StmtCompileContext,
        bc: &mut BcWriter,
        c: &IrSpanned<ExprCompiled>,
        maybe_not: MaybeNot,
        t: &StmtsCompiled,
    )
        requires
            old(bc).wf(),
            stmts_wf(*t),
            old(bc)@.top() + expr_extra(c.node) + stmts_size(*t) <= u32::MAX,
        ensures
            final(bc)@ == s_if_then(*c, maybe_not, *t, *compiler, old(bc)@),
            final(bc)@.stack <= old(bc)@.stack + expr_extra(c.node) + stmts_size(*t),
            final(bc)@.stack >= old(bc)@.stack,
            final(bc)@.local_count == old(bc)@.local_count,
            final(bc)@.instrs.len() >= old(bc)@.instrs.len(),
            final(bc).wf(),
        decreases stmts_height(*t), 1int,
    {
        proof {
            lemma_stmts_size_nonneg(*t);
        }
        let cslot = c.write_bc_slot(bc);
        let idx = bc.next_instr();
        match maybe_not {
            MaybeNot::Id => bc.write_instr(BcInstr::IfNotBr { cond: cslot, target: 0 }),
            MaybeNot::Not => bc.write_instr(BcInstr::IfBr { cond: cslot, target: 0 }),
        }
        t.write_bc(compiler, bc);
        let end = bc.next_instr();
        match maybe_not {
            MaybeNot::Id => bc.patch_instr(idx, BcInstr::IfNotBr { cond: cslot, target: end }),
            MaybeNot::Not => bc.patch_instr(idx, BcInstr::IfBr { cond: cslot, target: end }),
        }
    }

    /// Lowers `if`/`else`: an empty arm collapses to a single conditional
    /// skip, two arms take a conditional skip into the `else` arm and one
    /// forward jump over it.
    pub fn write_if_else(
        c: &IrSpanned<ExprCompiled>,
        t: &StmtsCompiled,
        f: &StmtsCompiled,
        compiler: &StmtCompileContext,
        bc: &mut BcWriter,
    )
        requires
            old(bc).wf(),
            stmts_wf(*t),
            stmts_wf(*f),
            !(t.stmts@.len() == 0 && f.stmts@.len() == 0),
            old(bc)@.top() + expr_extra(c.node) + stmts_size(*t) + stmts_size(*f) <= u32::MAX,
        ensures
            final(bc)@ == s_if_else(
                IfCompiled { cond: *c, then_block: *t, else_block: *f },
                *compiler,
                old(bc)@,
            ),
            final(bc)@.stack <= old(bc)@.stack + expr_extra(c.node) + stmts_size(*t) + stmts_size(
                *f,
            ),
            final(bc)@.stack >= old(bc)@.stack,
            final(bc)@.local_count == old(bc)@.local_count,
            final(bc)@.instrs.len() >= old(bc)@.instrs.len(),
            final(bc).wf(),
        decreases stmts_height(*t) + stmts_height(*f), 9int,
    {
        proof {
            lemma_stmts_size_nonneg(*t);
            lemma_stmts_size_nonneg(*f);
            lemma_stmts_list_height(t.stmts@, t.stmts@.len() as int);
            lemma_stmts_list_height(f.stmts@, f.stmts@.len() as int);
        }
        if f.is_empty() {
            Self::write_if_then(compiler, bc, c, MaybeNot::Id, t);
        } else if t.is_empty() {
            Self::write_if_then(compiler, bc, c, MaybeNot::Not, f);
        } else {
            let cslot = c.write_bc_slot(bc);
            let idx1 = bc.next_instr();
            bc.write_instr(BcInstr::IfNotBr { cond: cslot, target: 0 });
            t.write_bc(compiler, bc);
            let idx2 = bc.next_instr();
            bc.write_instr(BcInstr::Br { target: 0 });
            let else_start = bc.next_instr();
            bc.patch_instr(idx1, BcInstr::IfNotBr { cond: cslot, target: else_start });
            f.write_bc(compiler, bc);
            let end = bc.next_instr();
            bc.patch_instr(idx2, BcInstr::Br { target: end });
        }
    }

    /// Lowers `return`: a known constant returns directly, a declared
    /// return type wraps the value in a checking return, anything else
    /// returns from a slot.
    pub fn write_return(
        span: FileSpan,
        expr: &IrSpanned<ExprCompiled>,
        compiler: &StmtCompileContext,
        bc: &mut BcWriter,
    )
        requires
            old(bc).wf(),
            old(bc)@.top() + expr_extra(expr.node) <= u32::MAX,
        ensures
            final(bc)@ == s_return(*expr, *compiler, old(bc)@),
            final(bc)@.stack <= old(bc)@.stack + expr_extra(expr.node),
            final(bc)@.stack >= old(bc)@.stack,
            final(bc)@.local_count == old(bc)@.local_count,
            final(bc)@.instrs.len() >= old(bc)@.instrs.len(),
            final(bc).wf(),
    {
        if compiler.has_return_type {
            let slot = expr.write_bc_slot(bc);
            bc.write_instr(BcInstr::ReturnCheckType { source: slot });
        } else {
            match expr.as_value() {
                Some(value) => {
                    bc.write_instr(BcInstr::ReturnConst { value });
                },
                None => {
                    let slot = expr.write_bc_slot(bc);
                    bc.write_instr(BcInstr::Return { source: slot });
                },
            }
        }
    }

    /// Lowers one statement's own effect.
    pub fn write_bc_inner(&self, compiler: &StmtCompileContext, bc: &mut BcWriter)
        requires
            old(bc).wf(),
            stmt_wf(self.node),
            old(bc)@.top() + stmt_size(self.node) <= u32::MAX,
        ensures
            final(bc)@ == s_stmt_inner(*self, *compiler, old(bc)@),
            final(bc)@.stack <= old(bc)@.stack + stmt_size(self.node),
            final(bc)@.stack >= old(bc)@.stack,
            final(bc)@.local_count == old(bc)@.local_count,
            final(bc)@.instrs.len() >= old(bc)@.instrs.len(),
            final(bc).wf(),
        decreases stmt_height(self.node), 2int,
    {
        let span = self.span;
        match &self.node {
            StmtCompiled::PossibleGc => bc.write_instr(BcInstr::PossibleGc),
            StmtCompiled::Return(expr) => Self::write_return(span, expr, compiler, bc),
            StmtCompiled::Expr(expr) => {
                let slot = bc.alloc_slots(1);
                expr.write_bc(slot, bc);
            },
            StmtCompiled::Assign(lhs, rhs) => {
                proof {
                    lemma_assign_size_nonneg(lhs.node);
                }
                match lhs.as_local_non_captured() {
                    Some(local) => {
                        rhs.write_bc(local, bc);
                    },
                    None => {
                        let slot = rhs.write_bc_slot(bc);
                        lhs.write_bc(slot, bc);
                    },
                }
            },
            StmtCompiled::If(c) => {
                Self::write_if_else(&c.cond, &c.then_block, &c.else_block, compiler, bc);
            },
            StmtCompiled::For(f) => {
                write_for(&f.over, &f.var, span, bc, &f.body, compiler);
            },
            StmtCompiled::Break => {
                bc.write_instr(BcInstr::Break);
            },
            StmtCompiled::Continue => {
                bc.write_instr(BcInstr::Continue);
            },
        }
    }
}

/// Lowers `for`: the iterable goes into a slot once; one uncaptured
/// local as the loop variable receives each element directly, any other
/// target goes through one stack slot and the shared assignment lowering.
pub fn write_for(
    over: &IrSpanned<ExprCompiled>,
    var: &IrSpanned<AssignCompiledValue>,
    span: FileSpan,
    bc: &mut BcWriter,
    body: &StmtsCompiled,
    compiler: &StmtCompileContext,
)
    requires
        old(bc).wf(),
        stmts_wf(*body),
        old(bc)@.top() + expr_extra(over.node) + 1 + assign_size(var.node) + stmts_size(*body)
            <= u32::MAX,
    ensures
        final(bc)@ == s_write_for(
            ForCompiled { var: *var, over: *over, body: *body },
            *compiler,
            old(bc)@,
        ),
        final(bc)@.stack <= old(bc)@.stack + expr_extra(over.node) + 1 + assign_size(var.node)
            + stmts_size(*body),
        final(bc)@.stack >= old(bc)@.stack,
        final(bc)@.local_count == old(bc)@.local_count,
        final(bc)@.instrs.len() >= old(bc)@.instrs.len(),
        final(bc).wf(),
    decreases stmts_height(*body), 1int,
{
    proof {
        lemma_assign_size_nonneg(var.node);
        lemma_stmts_size_nonneg(*body);
    }
    let oslot = over.write_bc_slot(bc);
    match var.as_local_non_captured() {
        Some(v) => {
            let idx = bc.next_instr();
            bc.write_instr(BcInstr::For { over: oslot, var: v, end: 0 });
            body.write_bc(compiler, bc);
            bc.write_instr(BcInstr::Br { target: idx });
            let end = bc.next_instr();
            bc.patch_instr(idx, BcInstr::For { over: oslot, var: v, end });
        },
        None => {
            let vslot = bc.alloc_slots(1);
            let idx = bc.next_instr();
            bc.write_instr(BcInstr::For { over: oslot, var: vslot, end: 0 });
            var.write_bc(vslot, bc);
            body.write_bc(compiler, bc);
            bc.write_instr(BcInstr::Br { target: idx });
            let end = bc.next_instr();
            bc.patch_instr(idx, BcInstr::For { over: oslot, var: vslot, end });
        },
    }
}

impl StmtsCompiled {
    /// Lowers a whole function body: the block, then an implicit
    /// `return none` unless the block already ends in a return; the
    /// implicit return checks the declared return type when one was
    /// declared.
    pub fn as_bc(
        &self,
        compiler: &StmtCompileContext,
        local_count: u32,
        param_count: u32,
    ) -> (r: Bc)
        requires
            param_count <= local_count,
            stmts_wf(*self),
            local_count + stmts_size(*self) + 1 <= u32::MAX,
        ensures
            r@ == s_as_bc(*self, *compiler, local_count as int).instrs,
            r.local_count == local_count,
            r.param_count == param_count,
    {
        let mut bc = BcWriter::new(local_count);
        proof {
            lemma_stmts_size_nonneg(*self);
        }
        self.write_bc(compiler, &mut bc);
        if !self.ends_in_return() {
            if compiler.has_return_type {
                let slot = bc.alloc_slots(1);
                bc.write_instr(BcInstr::Const { value: ConstValue::new_none(), target: slot });
                bc.write_instr(BcInstr::ReturnCheckType { source: slot });
            } else {
                bc.write_instr(BcInstr::ReturnConst { value: ConstValue::new_none() });
            }
        }
        let BcWriter { instrs, local_count: lc, stack_size, max_stack } = bc;
        Bc { instrs, local_count: lc, param_count, max_stack }
    }
}


// ---------------------------------------------------------------------------
// The shape of `if` lowering.
// ---------------------------------------------------------------------------

/// One instruction appended changes the branch count by exactly its own
/// kind.
pub proof fn lemma_branch_count_push(instrs: Seq<InstrModel>, i: InstrModel)
    ensures
        branch_count(instrs.push(i)) == branch_count(instrs) + (if i.is_branch() {
            1int
        } else {
            0int
        }),
{
    assert(instrs.push(i).drop_last() =~= instrs);
    assert(instrs.push(i).last() == i);
}

/// Patching an instruction with one of the same kind keeps the branch
/// count.
pub proof fn lemma_branch_count_patch(instrs: Seq<InstrModel>, idx: int, i: InstrModel)
    requires
        0 <= idx < instrs.len(),
        instrs[idx].is_branch() == i.is_branch(),
    ensures
        branch_count(instrs.update(idx, i)) == branch_count(instrs),
    decreases instrs.len(),
{
    if instrs.len() > 0 {
        if idx == instrs.len() - 1 {
            assert(instrs.update(idx, i).drop_last() =~= instrs.drop_last());
        } else {
            assert(instrs.update(idx, i).drop_last() =~= instrs.drop_last().update(idx, i));
            lemma_branch_count_patch(instrs.drop_last(), idx, i);
        }
    }
}

/// Materialising an expression in a slot emits no control transfer.
pub proof fn lemma_expr_slot_no_branch(e: ExprCompiled, st: BcState)
    ensures
        branch_count(s_expr_slot(e, st).1.instrs) == branch_count(st.instrs),
{
    match e {
        ExprCompiled::Local(_) => {},
        ExprCompiled::Value(v) => {
            lemma_branch_count_push(
                st.instrs,
                InstrModel::Const { value: v, target: st.top() as u32 },
            );
        },
        ExprCompiled::LocalCaptured(c) => {
            lemma_branch_count_push(
                st.instrs,
                InstrModel::LoadCaptured { cell: c, target: st.top() as u32 },
            );
        },
    }
}

/// Lowering `if` with one empty arm emits a single conditional-skip
/// instruction and no other transfer of control of its own: the branch
/// count grows by exactly one more than the nonempty arm's own lowering
/// grows it.  With both arms there, it grows by exactly two more than the
/// two arms' lowerings grow it: the skip into the `else` arm and the jump
/// over it.
pub proof fn lemma_if_lowering_branches(ifc: IfCompiled, ctx: StmtCompileContext, st: BcState)
    requires
        ifc.then_block.stmts@.len() > 0 || ifc.else_block.stmts@.len() > 0,
    ensures
        ifc.else_block.stmts@.len() == 0 ==> ({
            let (cslot, st1) = s_expr_slot(ifc.cond.node, st);
            let st2 = st1.emit(InstrModel::IfNotBr { cond: cslot as u32, target: 0 });
            let st3 = s_stmts_write(ifc.then_block, ctx, st2);
            branch_count(s_if_else(ifc, ctx, st).instrs) - branch_count(st.instrs) == 1 + (
            branch_count(st3.instrs) - branch_count(st2.instrs))
        }),
        ifc.then_block.stmts@.len() == 0 ==> ({
            let (cslot, st1) = s_expr_slot(ifc.cond.node, st);
            let st2 = st1.emit(InstrModel::IfBr { cond: cslot as u32, target: 0 });
            let st3 = s_stmts_write(ifc.else_block, ctx, st2);
            branch_count(s_if_else(ifc, ctx, st).instrs) - branch_count(st.instrs) == 1 + (
            branch_count(st3.instrs) - branch_count(st2.instrs))
        }),
        ifc.then_block.stmts@.len() > 0 && ifc.else_block.stmts@.len() > 0 ==> ({
            let (cslot, st1) = s_expr_slot(ifc.cond.node, st);
            let st2 = st1.emit(InstrModel::IfNotBr { cond: cslot as u32, target: 0 });
            let st3 = s_stmts_write(ifc.then_block, ctx, st2);
            let st4 = st3.emit(InstrModel::Br { target: 0 });
            let st5 = st4.patch(
                st1.instrs.len() as int,
                InstrModel::IfNotBr { cond: cslot as u32, target: st4.instrs.len() as int },
            );
            let st6 = s_stmts_write(ifc.else_block, ctx, st5);
            branch_count(s_if_else(ifc, ctx, st).instrs) - branch_count(st.instrs) == 2 + (
            branch_count(st3.instrs) - branch_count(st2.instrs)) + (branch_count(st6.instrs)
                - branch_count(st5.instrs))
        }),
{
    let c = ifc.cond;
    let t = ifc.then_block;
    let f = ifc.else_block;
    let (cslot, st1) = s_expr_slot(c.node, st);
    lemma_expr_slot_no_branch(c.node, st);
    if f.stmts@.len() == 0 {
        let st2 = st1.emit(InstrModel::IfNotBr { cond: cslot as u32, target: 0 });
        let st3 = s_stmts_write(t, ctx, st2);
        let idx = st1.instrs.len() as int;
        lemma_branch_count_push(st1.instrs, InstrModel::IfNotBr { cond: cslot as u32, target: 0 });
        lemma_stmts_write_extends(t, ctx, st2);
        lemma_branch_count_patch(
            st3.instrs,
            idx,
            InstrModel::IfNotBr { cond: cslot as u32, target: st3.instrs.len() as int },
        );
    } else if t.stmts@.len() == 0 {
        let st2 = st1.emit(InstrModel::IfBr { cond: cslot as u32, target: 0 });
        let st3 = s_stmts_write(f, ctx, st2);
        let idx = st1.instrs.len() as int;
        lemma_branch_count_push(st1.instrs, InstrModel::IfBr { cond: cslot as u32, target: 0 });
        lemma_stmts_write_extends(f, ctx, st2);
        lemma_branch_count_patch(
            st3.instrs,
            idx,
            InstrModel::IfBr { cond: cslot as u32, target: st3.instrs.len() as int },
        );
    } else {
        let st2 = st1.emit(InstrModel::IfNotBr { cond: cslot as u32, target: 0 });
        let st3 = s_stmts_write(t, ctx, st2);
        let idx1 = st1.instrs.len() as int;
        let st4 = st3.emit(InstrModel::Br { target: 0 });
        let idx2 = st3.instrs.len() as int;
        let st5 = st4.patch(
            idx1,
            InstrModel::IfNotBr { cond: cslot as u32, target: st4.instrs.len() as int },
        );
        let st6 = s_stmts_write(f, ctx, st5);
        lemma_branch_count_push(st1.instrs, InstrModel::IfNotBr { cond: cslot as u32, target: 0 });
        lemma_stmts_write_extends(t, ctx, st2);
        lemma_branch_count_push(st3.instrs, InstrModel::Br { target: 0 });
        lemma_branch_count_patch(
            st4.instrs,
            idx1,
            InstrModel::IfNotBr { cond: cslot as u32, target: st4.instrs.len() as int },
        );
        lemma_stmts_write_extends(f, ctx, st5);
        lemma_branch_count_patch(
            st6.instrs,
            idx2,
            InstrModel::Br { target: st6.instrs.len() as int },
        );
    }
}

/// A block's lowering only appends: what was written before it stays, and
/// a branch instruction it starts from keeps its kind.
pub proof fn lemma_stmts_write_extends(ss: StmtsCompiled, ctx: StmtCompileContext, st: BcState)
    ensures
        s_stmts_write(ss, ctx, st).instrs.len() >= st.instrs.len(),
        forall|k: int|
            0 <= k < st.instrs.len() ==> #[trigger] s_stmts_write(ss, ctx, st).instrs[k]
                == st.instrs[k],
    decreases stmts_height(ss), ss.stmts@.len() + 1,
{
    lemma_stmts_from_extends(ss.stmts@, ctx, 0, st);
}

proof fn lemma_stmts_from_extends(
    xs: Seq<IrSpanned<StmtCompiled>>,
    ctx: StmtCompileContext,
    i: int,
    st: BcState,
)
    ensures
        s_stmts_from(xs, ctx, i, st).instrs.len() >= st.instrs.len(),
        forall|k: int|
            0 <= k < st.instrs.len() ==> #[trigger] s_stmts_from(xs, ctx, i, st).instrs[k]
                == st.instrs[k],
    decreases stmts_list_height(xs, xs.len() as int), xs.len() - i,
{
    if 0 <= i < xs.len() {
        lemma_stmts_list_height(xs, xs.len() as int);
        lemma_stmt_write_extends(xs[i], ctx, st);
        lemma_stmts_from_extends(xs, ctx, i + 1, s_stmt_write(xs[i], ctx, st));
    }
}

proof fn lemma_stmt_write_extends(s: IrSpanned<StmtCompiled>, ctx: StmtCompileContext, st: BcState)
    ensures
        s_stmt_write(s, ctx, st).instrs.len() >= st.instrs.len(),
        forall|k: int|
            0 <= k < st.instrs.len() ==> #[trigger] s_stmt_write(s, ctx, st).instrs[k]
                == st.instrs[k],
    decreases stmt_height(s.node), 3int,
{
    let st1 = if ctx.has_before_stmt && !(s.node is PossibleGc) {
        st.emit(InstrModel::BeforeStmt(s.span))
    } else {
        st
    };
    lemma_stmt_inner_extends(s, ctx, st1);
}

proof fn lemma_stmt_inner_extends(s: IrSpanned<StmtCompiled>, ctx: StmtCompileContext, st: BcState)
    ensures
        s_stmt_inner(s, ctx, st).instrs.len() >= st.instrs.len(),
        forall|k: int|
            0 <= k < st.instrs.len() ==> #[trigger] s_stmt_inner(s, ctx, st).instrs[k]
                == st.instrs[k],
    decreases stmt_height(s.node), 2int,
{
    match s.node {
        StmtCompiled::If(c) => {
            lemma_if_else_extends(*c, ctx, st);
        },
        StmtCompiled::For(fc) => {
            lemma_for_extends(*fc, ctx, st);
        },
        StmtCompiled::Assign(lhs, rhs) => {
            match s_as_local_non_captured(lhs.node) {
                Some(_) => {},
                None => {
                    let (slot, st1) = s_expr_slot(rhs.node, st);
                    lemma_assign_extends(lhs.node, slot as u32, st1);
                },
            }
        },
        _ => {},
    }
}

proof fn lemma_if_else_extends(ifc: IfCompiled, ctx: StmtCompileContext, st: BcState)
    ensures
        s_if_else(ifc, ctx, st).instrs.len() >= st.instrs.len(),
        forall|k: int|
            0 <= k < st.instrs.len() ==> #[trigger] s_if_else(ifc, ctx, st).instrs[k]
                == st.instrs[k],
    decreases stmts_height(ifc.then_block) + stmts_height(ifc.else_block) + 1, 1int,
{
    let c = ifc.cond;
    let t = ifc.then_block;
    let f = ifc.else_block;
    lemma_stmts_list_height(t.stmts@, t.stmts@.len() as int);
    lemma_stmts_list_height(f.stmts@, f.stmts@.len() as int);
    let (cslot, st1) = s_expr_slot(c.node, st);
    if f.stmts@.len() == 0 {
        lemma_if_then_extends(c, MaybeNot::Id, t, ctx, st);
    } else if t.stmts@.len() == 0 {
        lemma_if_then_extends(c, MaybeNot::Not, f, ctx, st);
    } else {
        let st2 = st1.emit(InstrModel::IfNotBr { cond: cslot as u32, target: 0 });
        let st3 = s_stmts_write(t, ctx, st2);
        lemma_stmts_write_extends(t, ctx, st2);
        let st4 = st3.emit(InstrModel::Br { target: 0 });
        let st5 = st4.patch(
            st1.instrs.len() as int,
            InstrModel::IfNotBr { cond: cslot as u32, target: st4.instrs.len() as int },
        );
        lemma_stmts_write_extends(f, ctx, st5);
    }
}

proof fn lemma_if_then_extends(
    c: IrSpanned<ExprCompiled>,
    maybe_not: MaybeNot,
    t: StmtsCompiled,
    ctx: StmtCompileContext,
    st: BcState,
)
    ensures
        s_if_then(c, maybe_not, t, ctx, st).instrs.len() >= st.instrs.len(),
        forall|k: int|
            0 <= k < st.instrs.len() ==> #[trigger] s_if_then(c, maybe_not, t, ctx, st).instrs[k]
                == st.instrs[k],
    decreases stmts_height(t) + 1, 0int,
{
    let (cslot, st1) = s_expr_slot(c.node, st);
    let st2 = if maybe_not is Id {
        st1.emit(InstrModel::IfNotBr { cond: cslot as u32, target: 0 })
    } else {
        st1.emit(InstrModel::IfBr { cond: cslot as u32, target: 0 })
    };
    lemma_stmts_write_extends(t, ctx, st2);
}

proof fn lemma_for_extends(fc: ForCompiled, ctx: StmtCompileContext, st: BcState)
    ensures
        s_write_for(fc, ctx, st).instrs.len() >= st.instrs.len(),
        forall|k: int|
            0 <= k < st.instrs.len() ==> #[trigger] s_write_for(fc, ctx, st).instrs[k]
                == st.instrs[k],
    decreases stmts_height(fc.body) + 1, 1int,
{
    let (oslot, st1) = s_expr_slot(fc.over.node, st);
    match s_as_local_non_captured(fc.var.node) {
        Some(v) => {
            let st2 = st1.emit(InstrModel::For { over: oslot as u32, var: v, end: 0 });
            lemma_stmts_write_extends(fc.body, ctx, st2);
        },
        None => {
            let vslot = st1.top();
            let st2 = st1.grow(1);
            let st3 = st2.emit(InstrModel::For { over: oslot as u32, var: vslot as u32, end: 0 });
            lemma_assign_extends(fc.var.node, vslot as u32, st3);
            let st4 = s_assign_write(fc.var.node, vslot as u32, st3);
            lemma_stmts_write_extends(fc.body, ctx, st4);
        },
    }
}

proof fn lemma_assign_extends(a: AssignCompiledValue, value: u32, st: BcState)
    ensures
        s_assign_write(a, value, st).instrs.len() >= st.instrs.len(),
        forall|k: int|
            0 <= k < st.instrs.len() ==> #[trigger] s_assign_write(a, value, st).instrs[k]
                == st.instrs[k],
    decreases a, 1int,
{
    match a {
        AssignCompiledValue::Tuple(xs) => {
            if all_local_slots(xs@) is None {
                let n = xs@.len() as int;
                let first = st.top();
                let st1 = st.grow(n);
                let st2 = st1.emit(
                    InstrModel::Unpack {
                        source: value,
                        targets: Seq::new(n as nat, |i: int| (first + i) as u32),
                    },
                );
                lemma_assign_list_extends(xs@, first, 0, st2);
            }
        },
        _ => {},
    }
}

proof fn lemma_assign_list_extends(
    xs: Seq<IrSpanned<AssignCompiledValue>>,
    first: int,
    i: int,
    st: BcState,
)
    ensures
        s_assign_list(xs, first, i, st).instrs.len() >= st.instrs.len(),
        forall|k: int|
            0 <= k < st.instrs.len() ==> #[trigger] s_assign_list(xs, first, i, st).instrs[k]
                == st.instrs[k],
    decreases xs, xs.len() - i, 2int,
{
    if 0 <= i < xs.len() {
        lemma_assign_extends(xs[i].node, (first + i) as u32, st);
        lemma_assign_list_extends(xs, first, i + 1, s_assign_write(xs[i].node, (first + i) as u32, st));
    }
}


// ---------------------------------------------------------------------------
// Lowering of function definitions.
// ---------------------------------------------------------------------------

/// One parameter of a compiled function definition: its name and the
/// expression for its default value, when it has one.
#[derive(Debug)]
pub struct ParamCompiled {
    pub name: String,
    pub default_value: Option<IrSpanned<ExprCompiled>>,
}

/// A compiled function definition, before lowering: its name, its
/// parameters, its declared return type's expression, and whether the
/// built function checks types at runtime.
#[derive(Debug)]
pub struct DefCompiled {
    pub function_name: String,
    pub params: Vec<ParamCompiled>,
    pub return_type: Option<IrSpanned<ExprCompiled>>,
    pub check_types: bool,
}

/// The expressions a definition evaluates when it is built: each default
/// value among the first `n` parameters, in order.
pub open spec fn default_exprs(params: Seq<ParamCompiled>, n: int) -> Seq<IrSpanned<ExprCompiled>>
    decreases n,
{
    if n <= 0 || n > params.len() {
        Seq::empty()
    } else {
        match params[n - 1].default_value {
            Some(e) => default_exprs(params, n - 1).push(e),
            None => default_exprs(params, n - 1),
        }
    }
}

/// All expressions a definition evaluates: the parameter defaults, then
/// the return type's expression when one was declared.
pub open spec fn def_exprs(d: DefCompiled) -> Seq<IrSpanned<ExprCompiled>> {
    match d.return_type {
        Some(t) => default_exprs(d.params@, d.params@.len() as int).push(t),
        None => default_exprs(d.params@, d.params@.len() as int),
    }
}

/// Writing the definition's expressions into consecutive slots starting
/// at `first`, from expression `i` on.
pub open spec fn s_def_list(
    exprs: Seq<IrSpanned<ExprCompiled>>,
    first: int,
    i: int,
    st: BcState,
) -> BcState
    decreases exprs.len() - i,
{
    if i < 0 || i >= exprs.len() {
        st
    } else {
        s_def_list(exprs, first, i + 1, s_expr_write(exprs[i].node, (first + i) as u32, st))
    }
}

/// Lowering a function definition: one fresh stack slot per default
/// value and per declared return type, each expression written into its
/// slot in order, then one instruction that builds the function from
/// those slots.
pub open spec fn s_def_write(d: DefCompiled, target: u32, st: BcState) -> BcState {
    let exprs = def_exprs(d);
    let first = st.top();
    let st1 = st.grow(exprs.len() as int);
    let st2 = s_def_list(exprs, first, 0, st1);
    st2.emit(
        InstrModel::Def {
            name: d.function_name@,
            slots: Seq::new(exprs.len(), |i: int| (first + i) as u32),
            target,
        },
    )
}

proof fn lemma_default_exprs_len(params: Seq<ParamCompiled>, n: int)
    ensures
        n >= 0 ==> default_exprs(params, n).len() <= n,
        0 <= default_exprs(params, n).len(),
    decreases n,
{
    if 0 < n <= params.len() {
        lemma_default_exprs_len(params, n - 1);
    }
}

impl DefCompiled {
    /// Lowers this definition: evaluates every default value and the
    /// declared return type into fresh consecutive slots, then emits the
    /// instruction that builds the function value into `target`.
    #[verifier::loop_isolation(false)]
    pub fn write_bc(&self, span: FileSpan, target: u32, bc: &mut BcWriter)
        requires
            old(bc).wf(),
            old(bc)@.top() + self.params@.len() + 1 <= u32::MAX,
        ensures
            final(bc)@ == s_def_write(*self, target, old(bc)@),
            final(bc)@.stack <= old(bc)@.stack + self.params@.len() + 1,
            final(bc)@.stack >= old(bc)@.stack,
            final(bc)@.local_count == old(bc)@.local_count,
            final(bc).wf(),
    {
        proof {
            lemma_default_exprs_len(self.params@, self.params@.len() as int);
        }
        let ghost exprs = def_exprs(*self);
        // Count the slots we need: one per default value, one for the
        // declared return type.
        let mut how_many: u32 = 0;
        let mut i: usize = 0;
        while i < self.params.len()
            invariant
                i <= self.params@.len(),
                how_many == default_exprs(self.params@, i as int).len(),
                *bc == *old(bc),
            decreases self.params@.len() - i,
        {
            proof {
                lemma_default_exprs_len(self.params@, i as int);
            }
            if self.params[i].default_value.is_some() {
                how_many = how_many + 1;
            }
            i = i + 1;
        }
        if self.return_type.is_some() {
            how_many = how_many + 1;
        }
        proof {
            assert(how_many == exprs.len());
        }
        let first = bc.alloc_slots(how_many);
        // Write each expression into its slot, collecting the slots.
        let mut slots: Vec<u32> = Vec::new();
        let mut written: u32 = 0;
        let mut i: usize = 0;
        let ghost st1 = bc@;
        while i < self.params.len()
            invariant
                i <= self.params@.len(),
                written == default_exprs(self.params@, i as int).len(),
                slots@.len() == written,
                forall|j: int| 0 <= j < written ==> slots@[j] == (first + j) as u32,
                bc@ == s_def_list(
                    default_exprs(self.params@, i as int),
                    first as int,
                    0,
                    st1,
                ),
                bc.wf(),
                bc@.stack == st1.stack,
                bc@.local_count == st1.local_count,
            decreases self.params@.len() - i,
        {
            proof {
                lemma_default_exprs_len(self.params@, i as int);
            }
            match &self.params[i].default_value {
                Some(e) => {
                    e.write_bc(first + written, bc);
                    slots.push(first + written);
                    written = written + 1;
                    proof {
                        lemma_def_list_snoc(
                            default_exprs(self.params@, i as int),
                            self.params@[i as int].default_value->0,
                            first as int,
                            st1,
                        );
                    }
                },
                None => {},
            }
            i = i + 1;
        }
        match &self.return_type {
            Some(t) => {
                t.write_bc(first + written, bc);
                slots.push(first + written);
                proof {
                    lemma_def_list_snoc(
                        default_exprs(self.params@, self.params@.len() as int),
                        self.return_type->0,
                        first as int,
                        st1,
                    );
                }
            },
            None => {},
        }
        let name = self.function_name.clone();
        bc.write_instr(BcInstr::Def { name, slots, target });
        proof {
            assert(bc@.instrs.last() matches InstrModel::Def { slots: sl, .. } && sl =~= Seq::new(
                exprs.len(),
                |j: int| (first + j) as u32,
            ));
            assert(bc@ =~= s_def_write(*self, target, old(bc)@));
        }
    }
}

/// Writing one more expression at the end of a definition's list lands
/// at the slot after the ones already written.
proof fn lemma_def_list_snoc(
    exprs: Seq<IrSpanned<ExprCompiled>>,
    e: IrSpanned<ExprCompiled>,
    first: int,
    st: BcState,
)
    ensures
        s_def_list(exprs.push(e), first, 0, st) == s_expr_write(
            e.node,
            (first + exprs.len()) as u32,
            s_def_list(exprs, first, 0, st),
        ),
{
    lemma_def_list_snoc_from(exprs, e, first, 0, st);
}

proof fn lemma_def_list_snoc_from(
    exprs: Seq<IrSpanned<ExprCompiled>>,
    e: IrSpanned<ExprCompiled>,
    first: int,
    i: int,
    st: BcState,
)
    requires
        0 <= i <= exprs.len(),
    ensures
        s_def_list(exprs.push(e), first, i, st) == s_expr_write(
            e.node,
            (first + exprs.len()) as u32,
            s_def_list(exprs, first, i, st),
        ),
    decreases exprs.len() - i,
{
    if i < exprs.len() {
        assert(exprs.push(e)[i] == exprs[i]);
        lemma_def_list_snoc_from(
            exprs,
            e,
            first,
            i + 1,
            s_expr_write(exprs[i].node, (first + i) as u32, st),
        );
    } else {
        assert(exprs.push(e)[i] == e);
        let st2 = s_expr_write(e.node, (first + exprs.len()) as u32, st);
        assert(s_def_list(exprs.push(e), first, i + 1, st2) == st2);
        assert(s_def_list(exprs, first, i, st) == st);
    }
}

} // verus!
