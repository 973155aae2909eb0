//! The bytecode instruction set and the writer that emits it.
//!
//! Instructions address register slots of the current call frame.  Slots
//! below the writer's local count belong to parameters and named locals;
//! slots at or above it form a small evaluation stack whose depth the
//! writer tracks while lowering.  Forward jumps are emitted as
//! placeholders and patched once the jump target is known.

use vstd::prelude::*;

verus! {

/// A constant value referenced from bytecode.
#[derive(Debug, Clone, PartialEq, Eq)]
pub enum ConstValue {
    NoneV,
    Bool(bool),
    Int(i64),
    Str(String),
}

impl ConstValue {
    /// The canonical "none" constant.
    pub fn new_none() -> (r: ConstValue)
        ensures
            r == ConstValue::NoneV,
    {
        ConstValue::NoneV
    }
}

/// A source span carried on statements and markers.
#[derive(Debug, Clone, Copy, PartialEq, Eq, Structural)]
pub struct FileSpan {
    pub lo: u32,
    pub hi: u32,
}

/// One bytecode instruction.  Slot operands index the frame's register
/// file; jump targets are instruction indices.
#[derive(Debug, Clone, PartialEq, Eq)]
pub enum BcInstr {
    /// Marker before a statement, for profiling and stepping.
    BeforeStmt(FileSpan),
    /// Safepoint at which a garbage collection may run.
    PossibleGc,
    /// Leave the innermost loop.
    Break,
    /// Next iteration of the innermost loop.
    Continue,
    /// Write a constant into a slot.
    Const { value: ConstValue, target: u32 },
    /// Copy one slot into another.
    Mov { source: u32, target: u32 },
    /// Read a captured local's cell into a slot.
    LoadCaptured { cell: u32, target: u32 },
    /// Write a slot into a captured local's cell.
    StoreCaptured { source: u32, cell: u32 },
    /// Write a slot into a module-level slot and export the name.
    StoreModuleAndExport { source: u32, module_slot: u32, name: String },
    /// Write a slot into an object's field.
    SetObjectField { source: u32, object: u32, field: String },
    /// Write a slot into a collection at an index.
    SetArrayIndex { source: u32, array: u32, index: u32 },
    /// Split a sequence value into the target slots, one element each.
    Unpack { source: u32, targets: Vec<u32> },
    /// Jump to `target` when the condition slot is false.
    IfNotBr { cond: u32, target: usize },
    /// Jump to `target` when the condition slot is true.
    IfBr { cond: u32, target: usize },
    /// Unconditional jump.
    Br { target: usize },
    /// Evaluate the iterable in `over`; on each round write the next
    /// element into `var` and run the body; jump past `end` when the
    /// iterable is exhausted.
    For { over: u32, var: u32, end: usize },
    /// Return the value of a slot.
    Return { source: u32 },
    /// Return a constant.
    ReturnConst { value: ConstValue },
    /// Return the value of a slot after checking the declared return type.
    ReturnCheckType { source: u32 },
    /// Build a function value from its name and captured slots.
    Def { name: String, slots: Vec<u32>, target: u32 },
}

/// The mathematical form of one instruction: lists as sequences, strings
/// as their characters.
#[verifier::ext_equal]
pub enum InstrModel {
    BeforeStmt(FileSpan),
    PossibleGc,
    Break,
    Continue,
    Const { value: ConstValue, target: u32 },
    Mov { source: u32, target: u32 },
    LoadCaptured { cell: u32, target: u32 },
    StoreCaptured { source: u32, cell: u32 },
    StoreModuleAndExport { source: u32, module_slot: u32, name: Seq<char> },
    SetObjectField { source: u32, object: u32, field: Seq<char> },
    SetArrayIndex { source: u32, array: u32, index: u32 },
    Unpack { source: u32, targets: Seq<u32> },
    IfNotBr { cond: u32, target: int },
    IfBr { cond: u32, target: int },
    Br { target: int },
    For { over: u32, var: u32, end: int },
    Return { source: u32 },
    ReturnConst { value: ConstValue },
    ReturnCheckType { source: u32 },
    Def { name: Seq<char>, slots: Seq<u32>, target: u32 },
}

impl View for BcInstr {
    type V = InstrModel;

    open spec fn view(&self) -> InstrModel {
        match self {
            BcInstr::BeforeStmt(sp) => InstrModel::BeforeStmt(*sp),
            BcInstr::PossibleGc => InstrModel::PossibleGc,
            BcInstr::Break => InstrModel::Break,
            BcInstr::Continue => InstrModel::Continue,
            BcInstr::Const { value, target } => InstrModel::Const { value: *value, target: *target },
            BcInstr::Mov { source, target } => InstrModel::Mov { source: *source, target: *target },
            BcInstr::LoadCaptured { cell, target } => InstrModel::LoadCaptured { cell: *cell, target: *target },
            BcInstr::StoreCaptured { source, cell } => InstrModel::StoreCaptured { source: *source, cell: *cell },
            BcInstr::StoreModuleAndExport { source, module_slot, name } => InstrModel::StoreModuleAndExport { source: *source, module_slot: *module_slot, name: name@ },
            BcInstr::SetObjectField { source, object, field } => InstrModel::SetObjectField { source: *source, object: *object, field: field@ },
            BcInstr::SetArrayIndex { source, array, index } => InstrModel::SetArrayIndex { source: *source, array: *array, index: *index },
            BcInstr::Unpack { source, targets } => InstrModel::Unpack { source: *source, targets: targets@ },
            BcInstr::IfNotBr { cond, target } => InstrModel::IfNotBr { cond: *cond, target: *target as int },
            BcInstr::IfBr { cond, target } => InstrModel::IfBr { cond: *cond, target: *target as int },
            BcInstr::Br { target } => InstrModel::Br { target: *target as int },
            BcInstr::For { over, var, end } => InstrModel::For { over: *over, var: *var, end: *end as int },
            BcInstr::Return { source } => InstrModel::Return { source: *source },
            BcInstr::ReturnConst { value } => InstrModel::ReturnConst { value: *value },
            BcInstr::ReturnCheckType { source } => InstrModel::ReturnCheckType { source: *source },
            BcInstr::Def { name, slots, target } => InstrModel::Def { name: name@, slots: slots@, target: *target },
        }
    }
}

impl DeepView for BcInstr {
    type V = InstrModel;

    open spec fn deep_view(&self) -> InstrModel {
        self.view()
    }
}

impl InstrModel {
    /// Whether this instruction transfers control.
    pub open spec fn is_branch(self) -> bool {
        match self {
            InstrModel::IfNotBr { .. } => true,
            InstrModel::IfBr { .. } => true,
            InstrModel::Br { .. } => true,
            _ => false,
        }
    }
}

/// How many of the instructions transfer control.
pub open spec fn branch_count(instrs: Seq<InstrModel>) -> int
    decreases instrs.len(),
{
    if instrs.len() == 0 {
        0
    } else {
        branch_count(instrs.drop_last()) + (if instrs.last().is_branch() {
            1int
        } else {
            0int
        })
    }
}

/// The writer's abstract state: the instructions emitted so far and the
/// evaluation stack accounting.
#[verifier::ext_equal]
pub struct BcState {
    pub instrs: Seq<InstrModel>,
    pub local_count: int,
    pub stack: int,
    pub max_stack: int,
}

impl BcState {
    /// The empty state for a frame with the given number of named slots.
    pub open spec fn empty(local_count: int) -> BcState {
        BcState { instrs: Seq::empty(), local_count, stack: 0, max_stack: 0 }
    }

    /// One instruction appended.
    pub open spec fn emit(self, i: InstrModel) -> BcState {
        BcState { instrs: self.instrs.push(i), ..self }
    }

    /// The slot the next stack allocation returns.
    pub open spec fn top(self) -> int {
        self.local_count + self.stack
    }

    /// `n` stack slots allocated.
    pub open spec fn grow(self, n: int) -> BcState {
        BcState {
            stack: self.stack + n,
            max_stack: if self.stack + n > self.max_stack {
                self.stack + n
            } else {
                self.max_stack
            },
            ..self
        }
    }

    /// `n` stack slots released.
    pub open spec fn release(self, n: int) -> BcState {
        BcState { stack: self.stack - n, ..self }
    }

    /// The instruction at `idx` replaced.
    pub open spec fn patch(self, idx: int, i: InstrModel) -> BcState {
        BcState { instrs: self.instrs.update(idx, i), ..self }
    }
}

/// The bytecode writer for one call frame.
#[derive(Debug)]
pub struct BcWriter {
    pub instrs: Vec<BcInstr>,
    pub local_count: u32,
    pub stack_size: u32,
    pub max_stack: u32,
}

impl View for BcWriter {
    type V = BcState;

    open spec fn view(&self) -> BcState {
        BcState {
            instrs: self.instrs.deep_view(),
            local_count: self.local_count as int,
            stack: self.stack_size as int,
            max_stack: self.max_stack as int,
        }
    }
}

impl BcWriter {
    /// The writer's slot arithmetic stays inside the machine's bounds.
    pub open spec fn wf(self) -> bool {
        &&& self.stack_size <= self.max_stack
        &&& self.local_count + self.max_stack <= u32::MAX
    }

    /// A fresh writer for a frame with the given number of named slots.
    pub fn new(local_count: u32) -> (r: BcWriter)
        ensures
            r@ == BcState::empty(local_count as int),
            r.wf(),
    {
        BcWriter { instrs: Vec::new(), local_count, stack_size: 0, max_stack: 0 }
    }

    /// Appends one instruction.
    pub fn write_instr(&mut self, i: BcInstr)
        requires
            old(self).wf(),
        ensures
            final(self)@ == old(self)@.emit(i@),
            final(self).wf(),
    {
        let ghost pre = self.instrs.deep_view();
        self.instrs.push(i);
        proof {
            assert(self.instrs.deep_view() =~= pre.push(i@));
        }
    }

    /// The index the next instruction will get.
    pub fn next_instr(&self) -> (r: usize)
        ensures
            r == self@.instrs.len(),
    {
        self.instrs.len()
    }

    /// Allocates `n` stack slots and returns the first one.
    pub fn alloc_slots(&mut self, n: u32) -> (first: u32)
        requires
            old(self).wf(),
            old(self).local_count + old(self).stack_size + n <= u32::MAX,
        ensures
            final(self)@ == old(self)@.grow(n as int),
            final(self).wf(),
            first == old(self)@.top(),
    {
        let first = self.local_count + self.stack_size;
        self.stack_size = self.stack_size + n;
        if self.stack_size > self.max_stack {
            self.max_stack = self.stack_size;
        }
        first
    }

    /// Releases the topmost `n` stack slots.
    pub fn release_slots(&mut self, n: u32)
        requires
            old(self).wf(),
            n <= old(self).stack_size,
        ensures
            final(self)@ == old(self)@.release(n as int),
            final(self).wf(),
    {
        self.stack_size = self.stack_size - n;
    }

    /// Replaces the instruction at `idx`, patching a forward jump.
    pub fn patch_instr(&mut self, idx: usize, i: BcInstr)
        requires
            old(self).wf(),
            idx < old(self)@.instrs.len(),
        ensures
            final(self)@ == old(self)@.patch(idx as int, i@),
            final(self).wf(),
    {
        let ghost pre = self.instrs.deep_view();
        self.instrs[idx] = i;
        proof {
            assert(self.instrs.deep_view() =~= pre.update(idx as int, i@));
        }
    }
}

} // verus!
