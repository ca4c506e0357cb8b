use ir_lowering::ast::{Expression, FunctionDecl, Literal, Operator};
use ir_lowering::function::can_translate_expression;
use ir_lowering::ir::{ArithOp, FunctionCode, Instr};
use ir_lowering::lowering::{
    translate_assignment, translate_block, translate_expression, translate_infix,
    translate_literal, translate_statements,
};
use ir_lowering::symbols::Ctx;
use ir_lowering::types::{MachineType, Primitive, SourceType};

fn int_type() -> SourceType {
    SourceType::Primitive(Primitive::Int)
}

fn lit(i: i32) -> Expression {
    Expression::Literal(Literal::Int(i))
}

fn name(n: &str) -> Expression {
    Expression::Identifier(n.to_string())
}

fn assign(n: &str, value: Expression, ty: SourceType) -> Expression {
    Expression::Assignment {
        name: n.to_string(),
        bound_expression: Box::new(value),
        inferred_type: ty,
    }
}

fn binary(operator: Operator, left: Expression, right: Expression) -> Expression {
    Expression::BinaryOp { operator, left: Box::new(left), right: Box::new(right) }
}

fn fresh() -> (FunctionCode, Ctx) {
    (FunctionCode::new("f".to_string(), vec![], None), Ctx::new())
}

#[test]
fn a_boolean_literal_is_one_byte() {
    let (mut code, _) = fresh();
    assert_eq!(translate_literal(&Literal::Bool(true), &mut code), 0);
    assert_eq!(translate_literal(&Literal::Bool(false), &mut code), 1);
    assert_eq!(
        code.code(),
        &vec![
            Instr::Const { ty: MachineType::I8, imm: 1 },
            Instr::Const { ty: MachineType::I8, imm: 0 },
        ]
    );
}

#[test]
fn an_integer_literal_is_four_bytes() {
    let (mut code, _) = fresh();
    assert_eq!(translate_literal(&Literal::Int(-7), &mut code), 0);
    assert_eq!(translate_literal(&Literal::Int(i32::MAX), &mut code), 1);
    assert_eq!(translate_literal(&Literal::Int(i32::MIN), &mut code), 2);
    assert_eq!(
        code.code(),
        &vec![
            Instr::Const { ty: MachineType::I32, imm: -7 },
            Instr::Const { ty: MachineType::I32, imm: 2147483647 },
            Instr::Const { ty: MachineType::I32, imm: -2147483648 },
        ]
    );
}

#[test]
fn an_identifier_reads_its_slot() {
    let (mut code, mut ctx) = fresh();
    ctx.declare_variable("x", &mut code, MachineType::I32);
    ctx.declare_variable("y", &mut code, MachineType::I32);
    let value = translate_expression(&name("y"), &mut code, &mut ctx);
    assert_eq!(value, 2);
    assert_eq!(code.code()[2], Instr::UseVar { slot: 1 });
}

#[test]
fn an_assignment_declares_defines_and_yields_a_null() {
    let (mut code, mut ctx) = fresh();
    let value = translate_expression(&assign("x", lit(1), int_type()), &mut code, &mut ctx);
    assert_eq!(value, 3);
    assert_eq!(
        code.code(),
        &vec![
            Instr::Const { ty: MachineType::I32, imm: 1 },
            Instr::DeclareVar { slot: 0, ty: MachineType::I32 },
            Instr::DefVar { slot: 0, value: 0 },
            Instr::Const { ty: MachineType::I64, imm: 0 },
        ]
    );
    assert_eq!(ctx.get_variable("x"), Some(0));
}

#[test]
fn translate_assignment_leaves_the_placeholder_to_the_caller() {
    let (mut code, mut ctx) = fresh();
    translate_assignment("flag", &Expression::Literal(Literal::Bool(true)),
        &SourceType::Primitive(Primitive::Bool), &mut code, &mut ctx);
    assert_eq!(
        code.code(),
        &vec![
            Instr::Const { ty: MachineType::I8, imm: 1 },
            Instr::DeclareVar { slot: 0, ty: MachineType::I8 },
            Instr::DefVar { slot: 0, value: 0 },
        ]
    );
    assert_eq!(ctx.get_variable("flag"), Some(0));
}

#[test]
fn the_slot_is_sized_by_the_recorded_type() {
    let (mut code, mut ctx) = fresh();
    let record = SourceType::Record(vec![]);
    translate_expression(&assign("r", lit(0), record), &mut code, &mut ctx);
    assert_eq!(code.code()[1], Instr::DeclareVar { slot: 0, ty: MachineType::I64 });
}

#[test]
fn each_operator_has_its_arithmetic() {
    let pairs = vec![
        (Operator::Plus, ArithOp::Add),
        (Operator::Minus, ArithOp::Sub),
        (Operator::Times, ArithOp::Mul),
        (Operator::Divide, ArithOp::SignedDiv),
    ];
    for (operator, op) in pairs {
        let (mut code, mut ctx) = fresh();
        let value = translate_infix(&operator, &lit(10), &lit(3), &mut code, &mut ctx);
        assert_eq!(value, 2);
        assert_eq!(
            code.code(),
            &vec![
                Instr::Const { ty: MachineType::I32, imm: 10 },
                Instr::Const { ty: MachineType::I32, imm: 3 },
                Instr::Arith { op, lhs: 0, rhs: 1 },
            ]
        );
    }
}

#[test]
fn operands_are_lowered_left_first() {
    let (mut code, mut ctx) = fresh();
    let expr = binary(
        Operator::Minus,
        binary(Operator::Times, lit(2), lit(3)),
        binary(Operator::Plus, lit(4), lit(5)),
    );
    let value = translate_expression(&expr, &mut code, &mut ctx);
    assert_eq!(value, 6);
    assert_eq!(
        code.code(),
        &vec![
            Instr::Const { ty: MachineType::I32, imm: 2 },
            Instr::Const { ty: MachineType::I32, imm: 3 },
            Instr::Arith { op: ArithOp::Mul, lhs: 0, rhs: 1 },
            Instr::Const { ty: MachineType::I32, imm: 4 },
            Instr::Const { ty: MachineType::I32, imm: 5 },
            Instr::Arith { op: ArithOp::Add, lhs: 3, rhs: 4 },
            Instr::Arith { op: ArithOp::Sub, lhs: 2, rhs: 5 },
        ]
    );
}

#[test]
fn a_return_yields_what_it_returns() {
    let (mut code, mut ctx) = fresh();
    let value = translate_expression(&Expression::Return(Box::new(lit(9))), &mut code, &mut ctx);
    assert_eq!(value, 0);
    assert_eq!(
        code.code(),
        &vec![Instr::Const { ty: MachineType::I32, imm: 9 }, Instr::Return { value: 0 }]
    );
}

#[test]
fn a_block_allocates_a_label_and_stays_in_the_current_block() {
    let (mut code, mut ctx) = fresh();
    let block = Expression::Block(vec![assign("x", lit(1), int_type()), name("x")]);
    let value = translate_expression(&block, &mut code, &mut ctx);
    assert_eq!(value, 6);
    assert_eq!(
        code.code(),
        &vec![
            Instr::NewBlock,
            Instr::Const { ty: MachineType::I32, imm: 1 },
            Instr::DeclareVar { slot: 0, ty: MachineType::I32 },
            Instr::DefVar { slot: 0, value: 1 },
            Instr::Const { ty: MachineType::I64, imm: 0 },
            Instr::UseVar { slot: 0 },
            Instr::Const { ty: MachineType::I64, imm: 0 },
        ]
    );
    assert_eq!(ctx.get_variable("x"), Some(0));
}

#[test]
fn translate_block_hands_back_the_label() {
    let (mut code, mut ctx) = fresh();
    translate_literal(&Literal::Int(0), &mut code);
    let label = translate_block(&vec![lit(1)], &mut code, &mut ctx);
    assert_eq!(label, 1);
    assert_eq!(code.code()[1], Instr::NewBlock);
    assert_eq!(code.code().len(), 3);
}

#[test]
fn an_empty_block_is_a_label_and_a_null() {
    let (mut code, mut ctx) = fresh();
    translate_expression(&Expression::Block(vec![]), &mut code, &mut ctx);
    assert_eq!(
        code.code(),
        &vec![Instr::NewBlock, Instr::Const { ty: MachineType::I64, imm: 0 }]
    );
}

#[test]
fn statements_are_lowered_in_order() {
    let (mut code, mut ctx) = fresh();
    let statements = vec![assign("x", lit(1), int_type()), assign("x", lit(2), int_type()),
        Expression::Return(Box::new(name("x")))];
    translate_statements(&statements, &mut code, &mut ctx);
    assert_eq!(
        code.code(),
        &vec![
            Instr::Const { ty: MachineType::I32, imm: 1 },
            Instr::DeclareVar { slot: 0, ty: MachineType::I32 },
            Instr::DefVar { slot: 0, value: 0 },
            Instr::Const { ty: MachineType::I64, imm: 0 },
            Instr::Const { ty: MachineType::I32, imm: 2 },
            Instr::DeclareVar { slot: 1, ty: MachineType::I32 },
            Instr::DefVar { slot: 1, value: 4 },
            Instr::Const { ty: MachineType::I64, imm: 0 },
            Instr::UseVar { slot: 1 },
            Instr::Return { value: 8 },
        ]
    );
}

#[test]
fn what_can_be_lowered_is_told_apart() {
    let (code, mut ctx) = fresh();
    assert!(can_translate_expression(&lit(1), &code, &ctx));
    assert!(can_translate_expression(&assign("x", lit(1), int_type()), &code, &ctx));
    assert!(can_translate_expression(
        &Expression::Block(vec![assign("x", lit(1), int_type()), name("x")]),
        &code,
        &ctx
    ));
    assert!(!can_translate_expression(&name("x"), &code, &ctx));
    ctx.bind("x");
    assert!(can_translate_expression(&name("x"), &code, &ctx));
    assert!(can_translate_expression(&binary(Operator::Divide, name("x"), lit(2)), &code, &ctx));
}

#[test]
fn an_unbound_identifier_cannot_be_lowered() {
    let (code, ctx) = fresh();
    assert!(!can_translate_expression(&name("nowhere"), &code, &ctx));
    assert!(!can_translate_expression(&binary(Operator::Plus, lit(1), name("y")), &code, &ctx));
    assert!(!can_translate_expression(
        &Expression::Block(vec![name("x"), assign("x", lit(1), int_type())]),
        &code,
        &ctx
    ));
}

#[test]
fn a_reserved_operator_cannot_be_lowered() {
    let (code, ctx) = fresh();
    assert!(!can_translate_expression(&binary(Operator::Equal, lit(1), lit(1)), &code, &ctx));
    assert!(!can_translate_expression(&binary(Operator::Less, lit(1), lit(2)), &code, &ctx));
}

#[test]
fn a_reserved_expression_cannot_be_lowered() {
    let (code, ctx) = fresh();
    let call = Expression::Call { callee: "g".to_string(), arguments: vec![lit(1)] };
    let conditional = Expression::Conditional {
        condition: Box::new(Expression::Literal(Literal::Bool(true))),
        then_branch: Box::new(lit(1)),
        else_branch: Box::new(lit(2)),
    };
    let nested = Expression::FunctionDeclaration(FunctionDecl {
        name: "inner".to_string(),
        params: vec![],
        return_type: int_type(),
        body: vec![Expression::Return(Box::new(lit(1)))],
    });
    assert!(!can_translate_expression(&call, &code, &ctx));
    assert!(!can_translate_expression(&conditional, &code, &ctx));
    assert!(!can_translate_expression(&nested, &code, &ctx));
    assert!(!can_translate_expression(&Expression::Return(Box::new(call)), &code, &ctx));
}

#[test]
fn an_assignment_without_a_value_type_cannot_be_lowered() {
    let (code, ctx) = fresh();
    assert!(!can_translate_expression(&assign("x", lit(1), SourceType::Unresolved), &code, &ctx));
    assert!(!can_translate_expression(&assign("x", lit(1), SourceType::Unit), &code, &ctx));
    assert!(!can_translate_expression(
        &binary(Operator::Plus, lit(1), assign("x", lit(1), SourceType::Unresolved)),
        &code,
        &ctx
    ));
}

#[test]
fn checking_changes_nothing() {
    let (code, ctx) = fresh();
    assert!(can_translate_expression(&assign("x", lit(1), int_type()), &code, &ctx));
    assert_eq!(ctx.get_variable("x"), None);
    assert!(code.code().is_empty());
}
