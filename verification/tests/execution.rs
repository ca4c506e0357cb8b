use cranelift::codegen::data_value::DataValue;
use cranelift::codegen::ir::{types, AbiParam, Signature, Type};
use cranelift::codegen::isa::CallConv;
use cranelift::codegen::Context;
use cranelift_interpreter::environment::FunctionStore;
use cranelift_interpreter::interpreter::{Interpreter, InterpreterState};
use cranelift_interpreter::step::ControlFlow;
use ir_lowering::ast::{Expression, FunctionDecl, Literal, Operator};
use ir_lowering::backend::build_function;
use ir_lowering::function::{is_lowerable, lower_function};
use ir_lowering::interpreter::{execute, Value};
use ir_lowering::ir::FunctionCode;
use ir_lowering::types::{MachineType, Primitive, SourceType};

fn int_type() -> SourceType {
    SourceType::Primitive(Primitive::Int)
}

fn lit(i: i32) -> Expression {
    Expression::Literal(Literal::Int(i))
}

fn name(n: &str) -> Expression {
    Expression::Identifier(n.to_string())
}

fn ret(e: Expression) -> Expression {
    Expression::Return(Box::new(e))
}

fn binary(operator: Operator, left: Expression, right: Expression) -> Expression {
    Expression::BinaryOp { operator, left: Box::new(left), right: Box::new(right) }
}

fn assign(n: &str, value: Expression, ty: SourceType) -> Expression {
    Expression::Assignment {
        name: n.to_string(),
        bound_expression: Box::new(value),
        inferred_type: ty,
    }
}

fn function(params: Vec<(&str, SourceType)>, return_type: SourceType, body: Vec<Expression>) -> FunctionDecl {
    FunctionDecl {
        name: "f".to_string(),
        params: params.into_iter().map(|(n, t)| (n.to_string(), t)).collect(),
        return_type,
        body,
    }
}

fn clif(ty: MachineType) -> Type {
    match ty {
        MachineType::I8 => types::I8,
        MachineType::I32 => types::I32,
        MachineType::I64 => types::I64,
        MachineType::F64 => types::F64,
    }
}

fn signature_of(code: &FunctionCode) -> Signature {
    let mut signature = Signature::new(CallConv::SystemV);
    for ty in code.params() {
        signature.params.push(AbiParam::new(clif(*ty)));
    }
    if let Some(ty) = code.result() {
        signature.returns.push(AbiParam::new(clif(ty)));
    }
    signature
}

/// Lowers `func`, builds it, and runs what was built on `args`.
fn run(func: &FunctionDecl, args: &[DataValue]) -> Vec<DataValue> {
    assert!(is_lowerable(func));
    let code = lower_function(func);
    let mut context = Context::new();
    build_function(&mut context, signature_of(&code), &code).unwrap();
    let mut store = FunctionStore::default();
    store.add("f".to_string(), &context.func);
    let state = InterpreterState::default().with_function_store(store);
    match Interpreter::new(state).call_by_name("f", args).unwrap() {
        ControlFlow::Return(values) => values.to_vec(),
        other => panic!("{other:?}"),
    }
}

fn constant(e: Expression) -> Vec<DataValue> {
    run(&function(vec![], int_type(), vec![ret(e)]), &[])
}

#[test]
fn add_returns_the_sum_of_its_arguments() {
    let add = function(
        vec![("a", int_type()), ("b", int_type())],
        int_type(),
        vec![ret(binary(Operator::Plus, name("a"), name("b")))],
    );
    assert_eq!(run(&add, &[DataValue::I32(3), DataValue::I32(5)]), vec![DataValue::I32(8)]);
    assert_eq!(run(&add, &[DataValue::I32(-2), DataValue::I32(2)]), vec![DataValue::I32(0)]);
}

#[test]
fn addition_wraps_around() {
    assert_eq!(
        constant(binary(Operator::Plus, lit(i32::MAX), lit(1))),
        vec![DataValue::I32(i32::MIN)]
    );
}

#[test]
fn subtraction_and_multiplication_compute() {
    assert_eq!(constant(binary(Operator::Minus, lit(3), lit(5))), vec![DataValue::I32(-2)]);
    assert_eq!(constant(binary(Operator::Times, lit(-4), lit(6))), vec![DataValue::I32(-24)]);
}

#[test]
fn the_newest_assignment_is_read() {
    let func = function(
        vec![],
        int_type(),
        vec![assign("x", lit(1), int_type()), assign("x", lit(2), int_type()), ret(name("x"))],
    );
    assert_eq!(run(&func, &[]), vec![DataValue::I32(2)]);
}

#[test]
fn division_is_signed_and_rounds_toward_zero() {
    assert_eq!(constant(binary(Operator::Divide, lit(10), lit(3))), vec![DataValue::I32(3)]);
    assert_eq!(constant(binary(Operator::Divide, lit(-10), lit(3))), vec![DataValue::I32(-3)]);
    assert_eq!(constant(binary(Operator::Divide, lit(10), lit(-3))), vec![DataValue::I32(-3)]);
    assert_eq!(constant(binary(Operator::Divide, lit(-10), lit(-3))), vec![DataValue::I32(3)]);
}

#[test]
fn division_by_zero_traps() {
    let func = function(vec![], int_type(), vec![ret(binary(Operator::Divide, lit(1), lit(0)))]);
    let code = lower_function(&func);
    let mut context = Context::new();
    build_function(&mut context, signature_of(&code), &code).unwrap();
    let mut store = FunctionStore::default();
    store.add("f".to_string(), &context.func);
    let state = InterpreterState::default().with_function_store(store);
    match Interpreter::new(state).call_by_name("f", &[]).unwrap() {
        ControlFlow::Trap(_) => {}
        other => panic!("{other:?}"),
    }
}

#[test]
fn an_expression_over_parameters_and_locals_computes() {
    let func = function(
        vec![("a", int_type()), ("b", int_type())],
        int_type(),
        vec![
            assign("sum", binary(Operator::Plus, name("a"), name("b")), int_type()),
            assign("a", binary(Operator::Times, name("sum"), lit(2)), int_type()),
            ret(binary(Operator::Minus, name("a"), name("b"))),
        ],
    );
    assert_eq!(run(&func, &[DataValue::I32(3), DataValue::I32(4)]), vec![DataValue::I32(10)]);
}

#[test]
fn statements_in_a_block_run_in_the_current_block() {
    let func = function(
        vec![],
        int_type(),
        vec![
            Expression::Block(vec![assign("x", lit(41), int_type())]),
            ret(binary(Operator::Plus, name("x"), lit(1))),
        ],
    );
    assert_eq!(run(&func, &[]), vec![DataValue::I32(42)]);
}

#[test]
fn a_boolean_is_zero_or_one() {
    let func = function(
        vec![],
        SourceType::Primitive(Primitive::Bool),
        vec![ret(Expression::Literal(Literal::Bool(true)))],
    );
    assert_eq!(run(&func, &[]), vec![DataValue::I8(1)]);
}

#[test]
fn a_trailing_unit_parameter_takes_no_argument() {
    let func = function(vec![("a", int_type()), ("u", SourceType::Unit)], int_type(), vec![ret(name("a"))]);
    assert_eq!(run(&func, &[DataValue::I32(9)]), vec![DataValue::I32(9)]);
}

#[test]
fn a_unit_parameter_in_front_takes_the_next_ones_value() {
    let func = function(vec![("u", SourceType::Unit), ("b", int_type())], int_type(), vec![ret(name("u"))]);
    assert_eq!(run(&func, &[DataValue::I32(9)]), vec![DataValue::I32(9)]);
}

fn as_data(value: Value) -> DataValue {
    match value.ty {
        MachineType::I8 => DataValue::I8(value.bits as i8),
        MachineType::I32 => DataValue::I32(value.bits as i32),
        MachineType::I64 => DataValue::I64(value.bits),
        MachineType::F64 => panic!("no floats here"),
    }
}

/// What the code generator's own interpreter makes of `func` on `args`:
/// the value returned, or nothing where it traps.
fn reference(func: &FunctionDecl, args: &[Value]) -> Option<DataValue> {
    let code = lower_function(func);
    let mut context = Context::new();
    build_function(&mut context, signature_of(&code), &code).unwrap();
    let mut store = FunctionStore::default();
    store.add("f".to_string(), &context.func);
    let state = InterpreterState::default().with_function_store(store);
    let given: Vec<DataValue> = args.iter().map(|v| as_data(*v)).collect();
    match Interpreter::new(state).call_by_name("f", &given).unwrap() {
        ControlFlow::Return(values) => Some(values[0].clone()),
        ControlFlow::Trap(_) => None,
        other => panic!("{other:?}"),
    }
}

#[test]
fn the_model_agrees_with_the_code_generators_interpreter() {
    let operators = vec![Operator::Plus, Operator::Minus, Operator::Times, Operator::Divide];
    let samples: Vec<i64> = vec![
        0, 1, -1, 2, -2, 3, -3, 7, 10, -10, 65536, -65536, 2147483647, -2147483647, -2147483648,
    ];
    for operator in operators {
        let func = function(
            vec![("a", int_type()), ("b", int_type())],
            int_type(),
            vec![ret(binary(operator, name("a"), name("b")))],
        );
        let code = lower_function(&func);
        for a in &samples {
            for b in &samples {
                let args = vec![
                    Value { ty: MachineType::I32, bits: *a },
                    Value { ty: MachineType::I32, bits: *b },
                ];
                let ours = execute(&code, &args).map(as_data);
                assert_eq!(ours, reference(&func, &args), "{operator:?} {a} {b}");
            }
        }
    }
}

#[test]
fn the_model_agrees_on_a_longer_body() {
    let func = function(
        vec![("a", int_type()), ("b", int_type()), ("u", SourceType::Unit)],
        int_type(),
        vec![
            assign("c", binary(Operator::Times, name("a"), name("a")), int_type()),
            Expression::Block(vec![assign("a", binary(Operator::Minus, name("c"), name("b")), int_type())]),
            assign("c", binary(Operator::Divide, name("a"), name("b")), int_type()),
            ret(binary(Operator::Plus, name("c"), lit(1))),
        ],
    );
    let code = lower_function(&func);
    for a in [-7i64, -1, 0, 3, 46341, 2147483647] {
        for b in [-3i64, -1, 0, 1, 5] {
            let args = vec![
                Value { ty: MachineType::I32, bits: a },
                Value { ty: MachineType::I32, bits: b },
            ];
            let ours = execute(&code, &args).map(as_data);
            assert_eq!(ours, reference(&func, &args), "{a} {b}");
        }
    }
}

#[test]
fn a_slot_without_a_value_reads_as_zero_in_both() {
    let mut code = FunctionCode::new("f".to_string(), vec![], Some(MachineType::I32));
    code.declare_var(0, MachineType::I32);
    let read = code.use_var(0);
    let one = code.iconst(MachineType::I32, 1);
    let sum = code.arith(ir_lowering::ir::ArithOp::Add, read, one);
    code.return_(sum);
    let mut context = Context::new();
    build_function(&mut context, signature_of(&code), &code).unwrap();
    let mut store = FunctionStore::default();
    store.add("f".to_string(), &context.func);
    let state = InterpreterState::default().with_function_store(store);
    let theirs = match Interpreter::new(state).call_by_name("f", &[]).unwrap() {
        ControlFlow::Return(values) => values.to_vec(),
        other => panic!("{other:?}"),
    };
    assert_eq!(theirs, vec![DataValue::I32(1)]);
    assert_eq!(execute(&code, &vec![]).map(as_data), Some(DataValue::I32(1)));
}

#[test]
fn bytes_and_pointers_compute_alike_in_both() {
    for (ty, samples) in [
        (MachineType::I8, vec![-128i64, -1, 0, 1, 100, 127]),
        (MachineType::I64, vec![i64::MIN, -1, 0, 1, 3, i64::MAX]),
    ] {
        for op in [
            ir_lowering::ir::ArithOp::Add,
            ir_lowering::ir::ArithOp::Sub,
            ir_lowering::ir::ArithOp::Mul,
            ir_lowering::ir::ArithOp::SignedDiv,
        ] {
            let mut code = FunctionCode::new("f".to_string(), vec![ty, ty], Some(ty));
            let a = code.block_param(0);
            let b = code.block_param(1);
            let r = code.arith(op, a, b);
            code.return_(r);
            let mut context = Context::new();
            build_function(&mut context, signature_of(&code), &code).unwrap();
            for x in &samples {
                for y in &samples {
                    let args = vec![Value { ty, bits: *x }, Value { ty, bits: *y }];
                    let given: Vec<DataValue> = args.iter().map(|v| as_data(*v)).collect();
                    let mut store = FunctionStore::default();
                    store.add("f".to_string(), &context.func);
                    let state = InterpreterState::default().with_function_store(store);
                    let theirs = match Interpreter::new(state).call_by_name("f", &given).unwrap() {
                        ControlFlow::Return(values) => Some(values[0].clone()),
                        ControlFlow::Trap(_) => None,
                        other => panic!("{other:?}"),
                    };
                    assert_eq!(execute(&code, &args).map(as_data), theirs, "{ty:?} {op:?} {x} {y}");
                }
            }
        }
    }
}

#[test]
fn a_parameter_that_the_signature_lacks_cannot_be_read() {
    let func = function(vec![("a", int_type()), ("b", int_type())], int_type(), vec![ret(name("b"))]);
    let code = lower_function(&func);
    let mut short = Signature::new(CallConv::SystemV);
    short.params.push(AbiParam::new(types::I32));
    short.returns.push(AbiParam::new(types::I32));
    let mut context = Context::new();
    match build_function(&mut context, short, &code) {
        Err(ir_lowering::backend::DefineFault::MissingParameter { at }) => assert_eq!(at, 4),
        other => panic!("{other:?}"),
    }
    let mut context = Context::new();
    assert!(build_function(&mut context, signature_of(&code), &code).is_ok());
    assert_eq!(context.func.signature.params.len(), 2);
    assert!(context.func.layout.entry_block().is_some());
}
