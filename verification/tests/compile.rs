use buckeval::bc::BcInstr;
use buckeval::bc::BcWriter;
use buckeval::bc::ConstValue;
use buckeval::bc::FileSpan;
use buckeval::compile::AssignCompiledValue;
use buckeval::compile::Captured;
use buckeval::compile::ExprCompiled;
use buckeval::compile::IfCompiled;
use buckeval::compile::IrSpanned;
use buckeval::compile::StmtCompileContext;
use buckeval::compile::StmtCompiled;
use buckeval::compile::ForCompiled;
use buckeval::compile::StmtsCompiled;

fn span() -> FileSpan {
    FileSpan { lo: 0, hi: 0 }
}

fn spanned<T>(node: T) -> IrSpanned<T> {
    IrSpanned { node, span: span() }
}

fn local(slot: u32) -> IrSpanned<AssignCompiledValue> {
    spanned(AssignCompiledValue::Local(slot, Captured::No))
}

fn ctx() -> StmtCompileContext {
    StmtCompileContext {
        has_before_stmt: false,
        has_return_type: false,
    }
}

#[test]
fn tuple_unpack_all_locals_single_instruction() {
    // (a, b) = v with both targets uncaptured locals: exactly one unpack
    // instruction, straight into the local slots, and no stack slot.
    let mut bc = BcWriter::new(4);
    let target = spanned(AssignCompiledValue::Tuple(vec![local(0), local(1)]));
    target.write_bc(3, &mut bc);
    assert_eq!(
        bc.instrs,
        vec![BcInstr::Unpack {
            source: 3,
            targets: vec![0, 1],
        }]
    );
    assert_eq!(bc.stack_size, 0);
}

#[test]
fn tuple_unpack_with_field_target_allocates_temporaries() {
    // (a, obj.f) = v: the elements go through freshly allocated stack
    // slots before the per-element assignments run.
    let mut bc = BcWriter::new(4);
    let field_target = spanned(AssignCompiledValue::Dot(
        spanned(ExprCompiled::Local(2)),
        "f".to_string(),
    ));
    let target = spanned(AssignCompiledValue::Tuple(vec![local(0), field_target]));
    target.write_bc(3, &mut bc);
    assert!(bc.stack_size >= 2);
    assert_eq!(
        bc.instrs,
        vec![
            BcInstr::Unpack {
                source: 3,
                targets: vec![4, 5],
            },
            BcInstr::Mov {
                source: 4,
                target: 0,
            },
            BcInstr::SetObjectField {
                source: 5,
                object: 2,
                field: "f".to_string(),
            },
        ]
    );
}

fn assign_const(slot: u32, value: i64) -> IrSpanned<StmtCompiled> {
    spanned(StmtCompiled::Assign(
        local(slot),
        spanned(ExprCompiled::Value(ConstValue::Int(value))),
    ))
}

#[test]
fn if_with_empty_else_emits_single_conditional_skip() {
    // `if cond: stmt` lowers to one conditional skip guarding the body:
    // no second branch instruction for the missing arm.
    let body = StmtsCompiled {
        stmts: vec![assign_const(1, 7)],
    };
    let stmts = StmtsCompiled {
        stmts: vec![spanned(StmtCompiled::If(Box::new(IfCompiled {
            cond: spanned(ExprCompiled::Local(0)),
            then_block: body,
            else_block: StmtsCompiled { stmts: vec![] },
        })))],
    };
    let bc = stmts.as_bc(&ctx(), 2, 0);
    assert_eq!(
        bc.instrs,
        vec![
            BcInstr::IfNotBr { cond: 0, target: 2 },
            BcInstr::Const {
                value: ConstValue::Int(7),
                target: 1,
            },
            BcInstr::ReturnConst {
                value: ConstValue::NoneV,
            },
        ]
    );
}

#[test]
fn if_with_empty_then_negates_the_test() {
    // `if not cond: else_stmt` (empty then) also lowers to a single
    // conditional skip, with the test negated.
    let body = StmtsCompiled {
        stmts: vec![assign_const(1, 9)],
    };
    let stmts = StmtsCompiled {
        stmts: vec![spanned(StmtCompiled::If(Box::new(IfCompiled {
            cond: spanned(ExprCompiled::Local(0)),
            then_block: StmtsCompiled { stmts: vec![] },
            else_block: body,
        })))],
    };
    let bc = stmts.as_bc(&ctx(), 2, 0);
    assert_eq!(
        bc.instrs,
        vec![
            BcInstr::IfBr { cond: 0, target: 2 },
            BcInstr::Const {
                value: ConstValue::Int(9),
                target: 1,
            },
            BcInstr::ReturnConst {
                value: ConstValue::NoneV,
            },
        ]
    );
}

#[test]
fn if_with_both_arms_takes_skip_and_jump() {
    let stmts = StmtsCompiled {
        stmts: vec![spanned(StmtCompiled::If(Box::new(IfCompiled {
            cond: spanned(ExprCompiled::Local(0)),
            then_block: StmtsCompiled {
                stmts: vec![assign_const(1, 1)],
            },
            else_block: StmtsCompiled {
                stmts: vec![assign_const(1, 2)],
            },
        })))],
    };
    let bc = stmts.as_bc(&ctx(), 2, 0);
    assert_eq!(
        bc.instrs,
        vec![
            BcInstr::IfNotBr { cond: 0, target: 3 },
            BcInstr::Const {
                value: ConstValue::Int(1),
                target: 1,
            },
            BcInstr::Br { target: 4 },
            BcInstr::Const {
                value: ConstValue::Int(2),
                target: 1,
            },
            BcInstr::ReturnConst {
                value: ConstValue::NoneV,
            },
        ]
    );
}

#[test]
fn return_shapes() {
    // A known constant returns directly; a declared return type wraps the
    // value in a checking return.
    let ret_const = StmtsCompiled {
        stmts: vec![spanned(StmtCompiled::Return(spanned(ExprCompiled::Value(
            ConstValue::Int(3),
        ))))],
    };
    let bc = ret_const.as_bc(&ctx(), 1, 0);
    assert_eq!(
        bc.instrs,
        vec![BcInstr::ReturnConst {
            value: ConstValue::Int(3),
        }]
    );

    let typed = StmtCompileContext {
        has_before_stmt: false,
        has_return_type: true,
    };
    let ret_typed = StmtsCompiled {
        stmts: vec![spanned(StmtCompiled::Return(spanned(ExprCompiled::Local(
            0,
        ))))],
    };
    let bc = ret_typed.as_bc(&typed, 1, 0);
    assert_eq!(bc.instrs, vec![BcInstr::ReturnCheckType { source: 0 }]);
}

#[test]
fn empty_body_returns_none_with_type_check() {
    let typed = StmtCompileContext {
        has_before_stmt: false,
        has_return_type: true,
    };
    let empty = StmtsCompiled { stmts: vec![] };
    let bc = empty.as_bc(&typed, 1, 0);
    assert_eq!(
        bc.instrs,
        vec![
            BcInstr::Const {
                value: ConstValue::NoneV,
                target: 1,
            },
            BcInstr::ReturnCheckType { source: 1 },
        ]
    );
}

#[test]
fn before_stmt_markers_precede_statements() {
    let profiled = StmtCompileContext {
        has_before_stmt: true,
        has_return_type: false,
    };
    let stmts = StmtsCompiled {
        stmts: vec![assign_const(0, 1), spanned(StmtCompiled::PossibleGc)],
    };
    let bc = stmts.as_bc(&profiled, 1, 0);
    // The safepoint gets no marker.
    assert_eq!(
        bc.instrs,
        vec![
            BcInstr::BeforeStmt(span()),
            BcInstr::Const {
                value: ConstValue::Int(1),
                target: 0,
            },
            BcInstr::PossibleGc,
            BcInstr::ReturnConst {
                value: ConstValue::NoneV,
            },
        ]
    );
}

#[test]
fn for_loop_fast_path_uses_the_local_directly() {
    let stmts = StmtsCompiled {
        stmts: vec![spanned(StmtCompiled::For(Box::new(ForCompiled {
            var: local(0),
            over: spanned(ExprCompiled::Local(1)),
            body: StmtsCompiled {
                stmts: vec![assign_const(2, 5)],
            },
        })))],
    };
    let bc = stmts.as_bc(&ctx(), 3, 0);
    assert_eq!(
        bc.instrs,
        vec![
            BcInstr::For {
                over: 1,
                var: 0,
                end: 3,
            },
            BcInstr::Const {
                value: ConstValue::Int(5),
                target: 2,
            },
            BcInstr::Br { target: 0 },
            BcInstr::ReturnConst {
                value: ConstValue::NoneV,
            },
        ]
    );
}
