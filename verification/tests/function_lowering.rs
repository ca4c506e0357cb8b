use ir_lowering::ast::{Expression, FunctionDecl, Literal, Operator};
use ir_lowering::function::{is_lowerable, lower_function};
use ir_lowering::ir::{ArithOp, Instr};
use ir_lowering::types::{MachineType, Primitive, SourceType};

fn int_type() -> SourceType {
    SourceType::Primitive(Primitive::Int)
}

fn lit(i: i32) -> Expression {
    Expression::Literal(Literal::Int(i))
}

fn name(n: &str) -> Expression {
    Expression::Identifier(n.to_string())
}

fn ret(e: Expression) -> Expression {
    Expression::Return(Box::new(e))
}

fn assign(n: &str, value: Expression, ty: SourceType) -> Expression {
    Expression::Assignment {
        name: n.to_string(),
        bound_expression: Box::new(value),
        inferred_type: ty,
    }
}

fn function(
    name: &str,
    params: Vec<(&str, SourceType)>,
    return_type: SourceType,
    body: Vec<Expression>,
) -> FunctionDecl {
    FunctionDecl {
        name: name.to_string(),
        params: params.into_iter().map(|(n, t)| (n.to_string(), t)).collect(),
        return_type,
        body,
    }
}

fn add() -> FunctionDecl {
    function(
        "add",
        vec![("a", int_type()), ("b", int_type())],
        int_type(),
        vec![ret(Expression::BinaryOp {
            operator: Operator::Plus,
            left: Box::new(name("a")),
            right: Box::new(name("b")),
        })],
    )
}

#[test]
fn add_binds_its_parameters_and_returns_their_sum() {
    let func = add();
    assert!(is_lowerable(&func));
    let code = lower_function(&func);
    assert_eq!(code.name(), "add");
    assert_eq!(code.params(), &vec![MachineType::I32, MachineType::I32]);
    assert_eq!(code.result(), Some(MachineType::I32));
    assert_eq!(
        code.code(),
        &vec![
            Instr::DeclareVar { slot: 0, ty: MachineType::I32 },
            Instr::Param { index: 0 },
            Instr::DefVar { slot: 0, value: 1 },
            Instr::DeclareVar { slot: 1, ty: MachineType::I32 },
            Instr::Param { index: 1 },
            Instr::DefVar { slot: 1, value: 4 },
            Instr::UseVar { slot: 0 },
            Instr::UseVar { slot: 1 },
            Instr::Arith { op: ArithOp::Add, lhs: 6, rhs: 7 },
            Instr::Return { value: 8 },
        ]
    );
}

#[test]
fn a_unit_return_type_gives_no_result() {
    let func = function("f", vec![], SourceType::Unit, vec![]);
    assert!(is_lowerable(&func));
    let code = lower_function(&func);
    assert_eq!(code.result(), None);
    assert!(code.params().is_empty());
    assert!(code.code().is_empty());
}

#[test]
fn a_trailing_unit_parameter_is_dropped() {
    let func = function(
        "f",
        vec![("a", int_type()), ("u", SourceType::Unit)],
        int_type(),
        vec![ret(name("a"))],
    );
    assert!(is_lowerable(&func));
    let code = lower_function(&func);
    assert_eq!(code.params(), &vec![MachineType::I32]);
    assert_eq!(
        code.code(),
        &vec![
            Instr::DeclareVar { slot: 0, ty: MachineType::I32 },
            Instr::Param { index: 0 },
            Instr::DefVar { slot: 0, value: 1 },
            Instr::UseVar { slot: 0 },
            Instr::Return { value: 3 },
        ]
    );
}

#[test]
fn a_unit_parameter_in_front_shifts_the_names() {
    let body = vec![ret(name("u"))];
    let func = function("f", vec![("u", SourceType::Unit), ("b", int_type())], int_type(), body);
    assert!(is_lowerable(&func));
    let code = lower_function(&func);
    assert_eq!(code.params(), &vec![MachineType::I32]);
    assert_eq!(
        code.code(),
        &vec![
            Instr::DeclareVar { slot: 0, ty: MachineType::I32 },
            Instr::Param { index: 0 },
            Instr::DefVar { slot: 0, value: 1 },
            Instr::UseVar { slot: 0 },
            Instr::Return { value: 3 },
        ]
    );
    let reads_b = function("f", vec![("u", SourceType::Unit), ("b", int_type())], int_type(), vec![ret(name("b"))]);
    assert!(!is_lowerable(&reads_b));
}

#[test]
fn parameter_types_map_to_machine_types() {
    let func = function(
        "f",
        vec![
            ("flag", SourceType::Primitive(Primitive::Bool)),
            ("x", SourceType::Primitive(Primitive::Float)),
            ("s", SourceType::Primitive(Primitive::String)),
            ("r", SourceType::Record(vec![])),
        ],
        SourceType::Primitive(Primitive::Char),
        vec![],
    );
    let code = lower_function(&func);
    assert_eq!(
        code.params(),
        &vec![MachineType::I8, MachineType::F64, MachineType::I64, MachineType::I64]
    );
    assert_eq!(code.result(), Some(MachineType::I8));
}

#[test]
fn reassignment_reads_the_newest_slot() {
    let func = function(
        "f",
        vec![],
        int_type(),
        vec![assign("x", lit(1), int_type()), assign("x", lit(2), int_type()), ret(name("x"))],
    );
    assert!(is_lowerable(&func));
    let code = lower_function(&func);
    assert_eq!(code.code()[4], Instr::Const { ty: MachineType::I32, imm: 2 });
    assert_eq!(code.code()[6], Instr::DefVar { slot: 1, value: 4 });
    assert_eq!(code.code()[8], Instr::UseVar { slot: 1 });
    assert_eq!(code.code()[9], Instr::Return { value: 8 });
}

#[test]
fn an_assignment_may_shadow_a_parameter() {
    let func = function(
        "f",
        vec![("a", int_type())],
        int_type(),
        vec![assign("a", lit(7), int_type()), ret(name("a"))],
    );
    let code = lower_function(&func);
    assert_eq!(code.code()[4], Instr::DeclareVar { slot: 1, ty: MachineType::I32 });
    assert_eq!(code.code()[7], Instr::UseVar { slot: 1 });
}

#[test]
fn an_unresolved_parameter_type_cannot_be_lowered() {
    let func = function("f", vec![("a", int_type()), ("h", SourceType::Unresolved)], int_type(), vec![ret(lit(1))]);
    assert!(!is_lowerable(&func));
}

#[test]
fn an_unresolved_return_type_cannot_be_lowered() {
    let func = function("f", vec![], SourceType::Unresolved, vec![ret(lit(1))]);
    assert!(!is_lowerable(&func));
}

#[test]
fn an_unresolved_assignment_cannot_be_lowered() {
    let func = function(
        "f",
        vec![],
        int_type(),
        vec![assign("x", lit(1), int_type()), assign("y", name("x"), SourceType::Unresolved), ret(lit(1))],
    );
    assert!(!is_lowerable(&func));
    let nested = function(
        "f",
        vec![],
        int_type(),
        vec![ret(Expression::Block(vec![assign("y", lit(1), SourceType::Unresolved)]))],
    );
    assert!(!is_lowerable(&nested));
}

#[test]
fn a_hole_inside_a_parameter_type_is_lowered_unseen() {
    let record = SourceType::Record(vec![("f".to_string(), SourceType::Unresolved)]);
    let func = function("f", vec![("r", record)], int_type(), vec![ret(lit(1))]);
    assert!(is_lowerable(&func));
    assert_eq!(lower_function(&func).params(), &vec![MachineType::I64]);
}

#[test]
fn an_unbound_name_in_the_body_cannot_be_lowered() {
    let func = function("f", vec![("a", int_type())], int_type(), vec![ret(name("b"))]);
    assert!(!is_lowerable(&func));
}
