use ir_lowering::ast::{Expression, FunctionDecl, Literal, Operator};
use ir_lowering::function::lower_function;
use ir_lowering::interpreter::{arith_values, evaluate, execute, is_aligned, Value};
use ir_lowering::ir::{ArithOp, FunctionCode};
use ir_lowering::types::{MachineType, Primitive, SourceType};

fn int_type() -> SourceType {
    SourceType::Primitive(Primitive::Int)
}

fn lit(i: i32) -> Expression {
    Expression::Literal(Literal::Int(i))
}

fn name(n: &str) -> Expression {
    Expression::Identifier(n.to_string())
}

fn ret(e: Expression) -> Expression {
    Expression::Return(Box::new(e))
}

fn binary(operator: Operator, left: Expression, right: Expression) -> Expression {
    Expression::BinaryOp { operator, left: Box::new(left), right: Box::new(right) }
}

fn assign(n: &str, value: Expression, ty: SourceType) -> Expression {
    Expression::Assignment {
        name: n.to_string(),
        bound_expression: Box::new(value),
        inferred_type: ty,
    }
}

fn function(params: Vec<(&str, SourceType)>, return_type: SourceType, body: Vec<Expression>) -> FunctionDecl {
    FunctionDecl {
        name: "f".to_string(),
        params: params.into_iter().map(|(n, t)| (n.to_string(), t)).collect(),
        return_type,
        body,
    }
}

fn add() -> FunctionDecl {
    function(
        vec![("a", int_type()), ("b", int_type())],
        int_type(),
        vec![ret(binary(Operator::Plus, name("a"), name("b")))],
    )
}

fn i8v(bits: i64) -> Value {
    Value { ty: MachineType::I8, bits }
}

fn i32v(bits: i64) -> Value {
    Value { ty: MachineType::I32, bits }
}

fn i64v(bits: i64) -> Value {
    Value { ty: MachineType::I64, bits }
}

#[test]
fn sums_wrap_around_at_the_width_of_the_type() {
    assert_eq!(arith_values(ArithOp::Add, i32v(3), i32v(5)), Some(i32v(8)));
    assert_eq!(arith_values(ArithOp::Add, i32v(2147483647), i32v(1)), Some(i32v(-2147483648)));
    assert_eq!(arith_values(ArithOp::Add, i8v(127), i8v(1)), Some(i8v(-128)));
    assert_eq!(arith_values(ArithOp::Add, i8v(-128), i8v(-1)), Some(i8v(127)));
    assert_eq!(arith_values(ArithOp::Add, i64v(i64::MAX), i64v(1)), Some(i64v(i64::MIN)));
}

#[test]
fn differences_wrap_around() {
    assert_eq!(arith_values(ArithOp::Sub, i32v(3), i32v(5)), Some(i32v(-2)));
    assert_eq!(arith_values(ArithOp::Sub, i32v(-2147483648), i32v(1)), Some(i32v(2147483647)));
    assert_eq!(arith_values(ArithOp::Sub, i64v(i64::MIN), i64v(1)), Some(i64v(i64::MAX)));
}

#[test]
fn products_wrap_around() {
    assert_eq!(arith_values(ArithOp::Mul, i32v(-4), i32v(6)), Some(i32v(-24)));
    assert_eq!(arith_values(ArithOp::Mul, i32v(65536), i32v(65536)), Some(i32v(0)));
    assert_eq!(arith_values(ArithOp::Mul, i32v(2147483647), i32v(2)), Some(i32v(-2)));
    assert_eq!(arith_values(ArithOp::Mul, i8v(16), i8v(8)), Some(i8v(-128)));
    assert_eq!(arith_values(ArithOp::Mul, i64v(i64::MIN), i64v(i64::MIN)), Some(i64v(0)));
    assert_eq!(arith_values(ArithOp::Mul, i64v(i64::MAX), i64v(i64::MAX)), Some(i64v(1)));
}

#[test]
fn quotients_round_toward_zero() {
    assert_eq!(arith_values(ArithOp::SignedDiv, i32v(10), i32v(3)), Some(i32v(3)));
    assert_eq!(arith_values(ArithOp::SignedDiv, i32v(-10), i32v(3)), Some(i32v(-3)));
    assert_eq!(arith_values(ArithOp::SignedDiv, i32v(10), i32v(-3)), Some(i32v(-3)));
    assert_eq!(arith_values(ArithOp::SignedDiv, i32v(-10), i32v(-3)), Some(i32v(3)));
    assert_eq!(arith_values(ArithOp::SignedDiv, i32v(0), i32v(-3)), Some(i32v(0)));
    assert_eq!(arith_values(ArithOp::SignedDiv, i32v(2), i32v(3)), Some(i32v(0)));
    assert_eq!(arith_values(ArithOp::SignedDiv, i32v(-2), i32v(3)), Some(i32v(0)));
    assert_eq!(arith_values(ArithOp::SignedDiv, i64v(i64::MIN), i64v(2)), Some(i64v(i64::MIN / 2)));
}

#[test]
fn some_quotients_do_not_exist() {
    assert_eq!(arith_values(ArithOp::SignedDiv, i32v(1), i32v(0)), None);
    assert_eq!(arith_values(ArithOp::SignedDiv, i32v(-2147483648), i32v(-1)), None);
    assert_eq!(arith_values(ArithOp::SignedDiv, i8v(-128), i8v(-1)), None);
    assert_eq!(arith_values(ArithOp::SignedDiv, i64v(i64::MIN), i64v(-1)), None);
    assert_eq!(arith_values(ArithOp::SignedDiv, i32v(-2147483647), i32v(-1)), Some(i32v(2147483647)));
}

#[test]
fn arithmetic_needs_integers_of_one_type() {
    assert_eq!(arith_values(ArithOp::Add, i32v(1), i8v(1)), None);
    assert_eq!(arith_values(ArithOp::Mul, i64v(1), i32v(1)), None);
    let x = Value { ty: MachineType::F64, bits: 0 };
    assert_eq!(arith_values(ArithOp::Add, x, x), None);
}

#[test]
fn add_is_carried_out() {
    let code = lower_function(&add());
    assert_eq!(execute(&code, &vec![i32v(3), i32v(5)]), Some(i32v(8)));
    assert_eq!(execute(&code, &vec![i32v(-2), i32v(2)]), Some(i32v(0)));
}

#[test]
fn arguments_must_fit_the_parameters() {
    let code = lower_function(&add());
    assert_eq!(execute(&code, &vec![i32v(3)]), None);
    assert_eq!(execute(&code, &vec![i32v(3), i32v(5), i32v(7)]), None);
    assert_eq!(execute(&code, &vec![i32v(3), i64v(5)]), None);
    assert_eq!(execute(&code, &vec![i8v(3), i32v(5)]), None);
}

#[test]
fn a_function_that_does_not_return_has_no_result() {
    let open = function(vec![], int_type(), vec![assign("x", lit(1), int_type())]);
    assert_eq!(execute(&lower_function(&open), &vec![]), None);
    let empty = function(vec![], SourceType::Unit, vec![]);
    assert_eq!(execute(&lower_function(&empty), &vec![]), None);
}

#[test]
fn the_result_must_be_of_the_result_type() {
    let flag = function(vec![], int_type(), vec![ret(Expression::Literal(Literal::Bool(true)))]);
    assert_eq!(execute(&lower_function(&flag), &vec![]), None);
    let unit = function(vec![], SourceType::Unit, vec![ret(lit(1))]);
    assert_eq!(execute(&lower_function(&unit), &vec![]), None);
}

#[test]
fn the_first_return_ends_the_function() {
    let twice = function(vec![], int_type(), vec![ret(lit(1)), ret(lit(2))]);
    assert_eq!(execute(&lower_function(&twice), &vec![]), Some(i32v(1)));
    let early = function(
        vec![],
        int_type(),
        vec![ret(binary(Operator::Plus, ret(lit(1)), lit(2)))],
    );
    assert_eq!(execute(&lower_function(&early), &vec![]), Some(i32v(1)));
}

#[test]
fn a_fault_ends_the_function() {
    let func = function(
        vec![("a", int_type())],
        int_type(),
        vec![assign("q", binary(Operator::Divide, lit(1), name("a")), int_type()), ret(lit(7))],
    );
    let code = lower_function(&func);
    assert_eq!(execute(&code, &vec![i32v(0)]), None);
    assert_eq!(execute(&code, &vec![i32v(1)]), Some(i32v(7)));
}

#[test]
fn a_value_of_another_type_than_the_slot_is_a_fault() {
    let func = function(
        vec![],
        int_type(),
        vec![assign("x", Expression::Literal(Literal::Bool(true)), int_type()), ret(lit(1))],
    );
    assert_eq!(execute(&lower_function(&func), &vec![]), None);
}

#[test]
fn a_slot_that_took_no_value_reads_as_zero() {
    let mut code = FunctionCode::new("f".to_string(), vec![], Some(MachineType::I32));
    code.declare_var(0, MachineType::I32);
    let read = code.use_var(0);
    code.return_(read);
    assert_eq!(execute(&code, &vec![]), Some(i32v(0)));
}

#[test]
fn a_constant_wraps_to_its_type() {
    let mut code = FunctionCode::new("f".to_string(), vec![], Some(MachineType::I8));
    let c = code.iconst(MachineType::I8, 0x1ff);
    code.return_(c);
    assert_eq!(execute(&code, &vec![]), Some(i8v(-1)));
    let mut float = FunctionCode::new("f".to_string(), vec![], Some(MachineType::F64));
    let c = float.iconst(MachineType::F64, 0);
    float.return_(c);
    assert_eq!(execute(&float, &vec![]), None);
}

#[test]
fn evaluation_is_interpretation() {
    assert_eq!(evaluate(&add(), &vec![i32v(3), i32v(5)]), Some(i32v(8)));
    assert_eq!(evaluate(&add(), &vec![i32v(-2), i32v(2)]), Some(i32v(0)));
    let rebinding = function(
        vec![],
        int_type(),
        vec![assign("x", lit(1), int_type()), assign("x", lit(2), int_type()), ret(name("x"))],
    );
    assert_eq!(evaluate(&rebinding, &vec![]), Some(i32v(2)));
    let division = function(
        vec![("a", int_type()), ("b", int_type())],
        int_type(),
        vec![ret(binary(Operator::Divide, name("a"), name("b")))],
    );
    assert_eq!(evaluate(&division, &vec![i32v(10), i32v(3)]), Some(i32v(3)));
    assert_eq!(evaluate(&division, &vec![i32v(-10), i32v(3)]), Some(i32v(-3)));
    assert_eq!(evaluate(&division, &vec![i32v(-10), i32v(0)]), None);
}

#[test]
fn names_and_machine_parameters_line_up_unless_a_unit_stands_in_front() {
    assert!(is_aligned(&add()));
    assert!(is_aligned(&function(vec![], int_type(), vec![])));
    assert!(is_aligned(&function(
        vec![("a", int_type()), ("u", SourceType::Unit), ("v", SourceType::Unit)],
        int_type(),
        vec![]
    )));
    assert!(!is_aligned(&function(
        vec![("u", SourceType::Unit), ("b", int_type())],
        int_type(),
        vec![]
    )));
    assert!(!is_aligned(&function(
        vec![("a", int_type()), ("u", SourceType::Unit), ("b", int_type())],
        int_type(),
        vec![]
    )));
}
