use ir_lowering::ast::{Expression, FunctionDecl, Literal, Operator};
use ir_lowering::backend::{
    define_lowered, host_module, is_translatable, output_file_name, serialize, translate,
    translate_function, translate_items, written_out, DefineFault, TranslateError,
};
use ir_lowering::demo::generate;
use ir_lowering::function::lower_function;
use ir_lowering::ir::FunctionCode;
use ir_lowering::types::{MachineType, Primitive, SourceType};

fn int_type() -> SourceType {
    SourceType::Primitive(Primitive::Int)
}

fn lit(i: i32) -> Expression {
    Expression::Literal(Literal::Int(i))
}

fn name(n: &str) -> Expression {
    Expression::Identifier(n.to_string())
}

fn ret(e: Expression) -> Expression {
    Expression::Return(Box::new(e))
}

fn assign(n: &str, value: Expression, ty: SourceType) -> Expression {
    Expression::Assignment {
        name: n.to_string(),
        bound_expression: Box::new(value),
        inferred_type: ty,
    }
}

fn function(
    name: &str,
    params: Vec<(&str, SourceType)>,
    return_type: SourceType,
    body: Vec<Expression>,
) -> FunctionDecl {
    FunctionDecl {
        name: name.to_string(),
        params: params.into_iter().map(|(n, t)| (n.to_string(), t)).collect(),
        return_type,
        body,
    }
}

fn add(symbol: &str) -> FunctionDecl {
    function(
        symbol,
        vec![("a", int_type()), ("b", int_type())],
        int_type(),
        vec![ret(Expression::BinaryOp {
            operator: Operator::Plus,
            left: Box::new(name("a")),
            right: Box::new(name("b")),
        })],
    )
}

fn constant(symbol: &str, value: i32) -> FunctionDecl {
    function(symbol, vec![], int_type(), vec![ret(lit(value))])
}

fn is_object(bytes: &[u8]) -> bool {
    let elf = bytes.starts_with(&[0x7f, b'E', b'L', b'F']);
    let macho = bytes.starts_with(&[0xcf, 0xfa, 0xed, 0xfe]);
    let coff = bytes.starts_with(&[0x64, 0x86]) || bytes.starts_with(&[0x64, 0xaa]);
    elf || macho || coff
}

fn contains(bytes: &[u8], needle: &[u8]) -> bool {
    bytes.windows(needle.len()).any(|window| window == needle)
}

#[test]
fn the_object_file_is_named_after_the_module() {
    assert_eq!(output_file_name("main"), "main.o");
    assert_eq!(output_file_name(""), ".o");
    assert_eq!(output_file_name("dir/unit.x"), "dir/unit.x.o");
}

#[test]
fn a_module_with_one_function_becomes_an_object() {
    let ast = vec![Expression::FunctionDeclaration(add("add"))];
    assert!(is_translatable(&ast));
    let file = translate(ast, "sum").unwrap();
    assert_eq!(file.file_name, "sum.o");
    assert!(is_object(&file.bytes));
    assert!(contains(&file.bytes, b"add"));
}

#[test]
fn every_function_gets_its_symbol() {
    let ast = vec![
        Expression::FunctionDeclaration(add("first_symbol")),
        Expression::FunctionDeclaration(constant("second_symbol", 7)),
    ];
    assert!(is_translatable(&ast));
    let file = translate(ast, "two").unwrap();
    assert!(contains(&file.bytes, b"first_symbol"));
    assert!(contains(&file.bytes, b"second_symbol"));
}

#[test]
fn a_module_without_functions_is_a_bare_object() {
    let ast: Vec<Expression> = vec![];
    assert!(is_translatable(&ast));
    let empty = translate(ast, "empty").unwrap();
    assert_eq!(empty.file_name, "empty.o");
    assert!(is_object(&empty.bytes));
    let one = translate(vec![Expression::FunctionDeclaration(constant("lonely_symbol", 1))], "one")
        .unwrap();
    assert!(empty.bytes.len() < one.bytes.len());
    assert!(!contains(&empty.bytes, b"lonely_symbol"));
}

#[test]
fn translating_no_items_leaves_the_unit_alone() {
    let mut module = host_module("test").unwrap();
    assert!(translate_items(&vec![], &mut module).is_ok());
    let bare = serialize(host_module("test").unwrap()).unwrap();
    assert_eq!(serialize(module).unwrap(), bare);
}

#[test]
fn a_top_level_item_that_is_no_function_is_refused() {
    assert!(!is_translatable(&vec![lit(1)]));
    assert!(!is_translatable(&vec![
        Expression::FunctionDeclaration(add("add")),
        assign("x", lit(1), int_type()),
    ]));
    assert!(!is_translatable(&vec![
        Expression::Block(vec![]),
        Expression::FunctionDeclaration(add("add")),
    ]));
}

#[test]
fn a_function_with_a_hole_is_refused() {
    let with_hole = function("f", vec![("h", SourceType::Unresolved)], int_type(), vec![ret(lit(1))]);
    assert!(!is_translatable(&vec![
        Expression::FunctionDeclaration(add("add")),
        Expression::FunctionDeclaration(with_hole),
    ]));
}

#[test]
fn code_after_the_return_is_reported() {
    let func = function("twice", vec![], int_type(), vec![ret(lit(1)), ret(lit(2))]);
    let ast = vec![Expression::FunctionDeclaration(func)];
    assert!(is_translatable(&ast));
    match translate(ast, "m") {
        Err(TranslateError::Define { function, fault: DefineFault::CodeAfterReturn { at } }) => {
            assert_eq!(function, "twice");
            assert_eq!(at, 2);
        }
        other => panic!("{other:?}"),
    }
}

#[test]
fn a_return_inside_an_operand_leaves_code_after_it() {
    let func = function(
        "early",
        vec![],
        int_type(),
        vec![ret(Expression::BinaryOp {
            operator: Operator::Plus,
            left: Box::new(ret(lit(1))),
            right: Box::new(lit(2)),
        })],
    );
    let mut module = host_module("test").unwrap();
    match translate_function(&func, &mut module) {
        Err(TranslateError::Define { fault: DefineFault::CodeAfterReturn { at }, .. }) => {
            assert_eq!(at, 2)
        }
        other => panic!("{other:?}"),
    }
}

#[test]
fn a_body_without_a_return_is_reported() {
    let func = function("open", vec![], int_type(), vec![assign("x", lit(1), int_type())]);
    let mut module = host_module("test").unwrap();
    match translate_function(&func, &mut module) {
        Err(TranslateError::Define { function, fault: DefineFault::MissingReturn }) => {
            assert_eq!(function, "open")
        }
        other => panic!("{other:?}"),
    }
    let empty = function("nothing", vec![], SourceType::Unit, vec![]);
    match translate_function(&empty, &mut module) {
        Err(TranslateError::Define { fault: DefineFault::MissingReturn, .. }) => {}
        other => panic!("{other:?}"),
    }
}

#[test]
fn a_value_of_another_type_than_the_slot_is_reported() {
    let func = function(
        "odd",
        vec![],
        int_type(),
        vec![assign("x", Expression::Literal(Literal::Bool(true)), int_type()), ret(lit(1))],
    );
    let mut module = host_module("test").unwrap();
    match translate_function(&func, &mut module) {
        Err(TranslateError::Define { fault: DefineFault::SlotRejected { at }, .. }) => {
            assert_eq!(at, 2)
        }
        other => panic!("{other:?}"),
    }
}

#[test]
fn operands_of_different_types_are_refused_by_the_code_generator() {
    let func = function(
        "mixed",
        vec![],
        int_type(),
        vec![ret(Expression::BinaryOp {
            operator: Operator::Plus,
            left: Box::new(lit(1)),
            right: Box::new(Expression::Literal(Literal::Bool(true))),
        })],
    );
    let mut module = host_module("test").unwrap();
    match translate_function(&func, &mut module) {
        Err(TranslateError::Define { function, fault: DefineFault::Refused(reason) }) => {
            assert_eq!(function, "mixed");
            assert!(!reason.is_empty());
        }
        other => panic!("{other:?}"),
    }
}

#[test]
fn a_value_returned_from_a_unit_function_is_refused() {
    let func = function("unit", vec![], SourceType::Unit, vec![ret(lit(1))]);
    let mut module = host_module("test").unwrap();
    match translate_function(&func, &mut module) {
        Err(TranslateError::Define { fault: DefineFault::Refused(_), .. }) => {}
        other => panic!("{other:?}"),
    }
}

#[test]
fn a_second_body_for_one_name_is_refused() {
    let mut module = host_module("test").unwrap();
    assert!(translate_function(&constant("same", 1), &mut module).is_ok());
    match translate_function(&constant("same", 2), &mut module) {
        Err(TranslateError::Define { function, fault: DefineFault::Refused(_) }) => {
            assert_eq!(function, "same")
        }
        other => panic!("{other:?}"),
    }
}

#[test]
fn a_second_signature_for_one_name_is_refused() {
    let mut module = host_module("test").unwrap();
    assert!(translate_function(&constant("clash", 1), &mut module).is_ok());
    match translate_function(&add("clash"), &mut module) {
        Err(TranslateError::Declare { function, reason }) => {
            assert_eq!(function, "clash");
            assert!(!reason.is_empty());
        }
        other => panic!("{other:?}"),
    }
}

#[test]
fn a_name_with_a_null_byte_is_refused() {
    let mut module = host_module("test").unwrap();
    match translate_function(&constant("a\0b", 1), &mut module) {
        Err(TranslateError::Declare { .. }) => {}
        other => panic!("{other:?}"),
    }
}

#[test]
fn the_first_failure_stops_the_module() {
    let ast = vec![
        Expression::FunctionDeclaration(constant("good", 1)),
        Expression::FunctionDeclaration(function("bad", vec![], int_type(), vec![])),
        Expression::FunctionDeclaration(function("worse", vec![], int_type(), vec![ret(lit(1)), lit(2)])),
    ];
    match translate(ast, "m") {
        Err(TranslateError::Define { function, fault: DefineFault::MissingReturn }) => {
            assert_eq!(function, "bad")
        }
        other => panic!("{other:?}"),
    }
}

#[test]
fn lowered_code_can_be_registered_directly() {
    let mut module = host_module("test").unwrap();
    let code = lower_function(&add("direct_symbol"));
    assert!(define_lowered(&code, &mut module).is_ok());
    let bytes = serialize(module).unwrap();
    assert!(is_object(&bytes));
    assert!(contains(&bytes, b"direct_symbol"));
}

#[test]
fn all_machine_types_pass_through_a_signature() {
    let func = function(
        "wide",
        vec![
            ("flag", SourceType::Primitive(Primitive::Bool)),
            ("x", SourceType::Primitive(Primitive::Float)),
            ("s", SourceType::Primitive(Primitive::String)),
            ("n", int_type()),
        ],
        SourceType::Primitive(Primitive::Float),
        vec![ret(name("x"))],
    );
    let mut module = host_module("test").unwrap();
    assert!(translate_function(&func, &mut module).is_ok());
}

#[test]
fn the_demonstration_object_holds_tester() {
    let file = generate().unwrap();
    assert_eq!(file.file_name, "example.o");
    assert!(is_object(&file.bytes));
    assert!(contains(&file.bytes, b"tester"));
}

#[test]
fn what_the_writer_gave_is_handed_on_as_it_is() {
    let given: Result<Vec<u8>, cranelift_object::object::write::Error> = Ok(vec![0x7f, 1, 2, 3]);
    assert_eq!(written_out(given).unwrap(), vec![0x7f, 1, 2, 3]);
    let nothing: Result<Vec<u8>, cranelift_object::object::write::Error> = Ok(vec![]);
    assert!(written_out(nothing).unwrap().is_empty());
}

#[test]
fn the_same_unit_is_written_out_as_the_same_bytes() {
    let mut first = host_module("test").unwrap();
    let mut second = host_module("test").unwrap();
    for module in [&mut first, &mut second] {
        assert!(translate_function(&add("sum_symbol"), module).is_ok());
        assert!(translate_function(&constant("seven_symbol", 7), module).is_ok());
    }
    let bytes = serialize(first).unwrap();
    assert_eq!(bytes, serialize(second).unwrap());
    assert!(is_object(&bytes));
    assert!(contains(&bytes, b"sum_symbol"));
    let mut other = host_module("test").unwrap();
    assert!(translate_function(&constant("seven_symbol", 8), &mut other).is_ok());
    assert_ne!(bytes, serialize(other).unwrap());
}

#[test]
fn a_constant_of_a_float_type_is_reported_and_never_compiled() {
    let mut code = FunctionCode::new("floating".to_string(), vec![], Some(MachineType::F64));
    let c = code.iconst(MachineType::F64, 0);
    code.return_(c);
    let mut module = host_module("test").unwrap();
    match define_lowered(&code, &mut module) {
        Err(TranslateError::Define { function, fault: DefineFault::FloatConstant { at } }) => {
            assert_eq!(function, "floating");
            assert_eq!(at, 0);
        }
        other => panic!("{other:?}"),
    }
    let mut late = FunctionCode::new("late".to_string(), vec![], Some(MachineType::I32));
    let one = late.iconst(MachineType::I32, 1);
    late.iconst(MachineType::F64, 2);
    late.return_(one);
    match define_lowered(&late, &mut module) {
        Err(TranslateError::Define { fault: DefineFault::FloatConstant { at }, .. }) => {
            assert_eq!(at, 1)
        }
        other => panic!("{other:?}"),
    }
    assert!(is_object(&serialize(module).unwrap()));
}

#[test]
fn a_unit_name_with_a_null_is_refused() {
    match host_module("a\0") {
        Err(TranslateError::Host(reason)) => assert!(!reason.is_empty()),
        other => panic!("{:?}", other.is_ok()),
    }
    match host_module("\0") {
        Err(TranslateError::Host(_)) => {}
        other => panic!("{:?}", other.is_ok()),
    }
    assert!(host_module("").is_ok());
    assert!(host_module("unit").is_ok());
    assert!(is_object(&serialize(host_module("unit\u{e9}").unwrap()).unwrap()));
}
