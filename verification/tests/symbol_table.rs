use ir_lowering::ir::{FunctionCode, Instr};
use ir_lowering::symbols::Ctx;
use ir_lowering::types::MachineType;

fn empty_code() -> FunctionCode {
    FunctionCode::new("f".to_string(), vec![], None)
}

#[test]
fn a_new_table_binds_nothing() {
    let ctx = Ctx::new();
    assert_eq!(ctx.get_variable("x"), None);
    assert_eq!(ctx.get_variable(""), None);
    assert!(ctx.has_free_slot());
}

#[test]
fn slots_are_handed_out_in_order() {
    let mut ctx = Ctx::new();
    let mut code = empty_code();
    assert_eq!(ctx.declare_variable("a", &mut code, MachineType::I32), 0);
    assert_eq!(ctx.declare_variable("b", &mut code, MachineType::I8), 1);
    assert_eq!(ctx.declare_variable("c", &mut code, MachineType::F64), 2);
    assert_eq!(ctx.get_variable("a"), Some(0));
    assert_eq!(ctx.get_variable("b"), Some(1));
    assert_eq!(ctx.get_variable("c"), Some(2));
    assert_eq!(ctx.get_variable("d"), None);
}

#[test]
fn a_declaration_is_recorded_in_the_code() {
    let mut ctx = Ctx::new();
    let mut code = empty_code();
    ctx.declare_variable("a", &mut code, MachineType::I32);
    ctx.declare_variable("a", &mut code, MachineType::I64);
    assert_eq!(
        code.code(),
        &vec![
            Instr::DeclareVar { slot: 0, ty: MachineType::I32 },
            Instr::DeclareVar { slot: 1, ty: MachineType::I64 },
        ]
    );
}

#[test]
fn redeclaring_a_name_rebinds_it() {
    let mut ctx = Ctx::new();
    let mut code = empty_code();
    let first = ctx.declare_variable("x", &mut code, MachineType::I32);
    let other = ctx.declare_variable("y", &mut code, MachineType::I32);
    assert_eq!(ctx.get_variable("x"), Some(first));
    let second = ctx.declare_variable("x", &mut code, MachineType::I32);
    assert_ne!(first, second);
    assert_eq!(ctx.get_variable("x"), Some(second));
    assert_eq!(ctx.get_variable("y"), Some(other));
}

#[test]
fn bind_takes_a_slot_without_recording() {
    let mut ctx = Ctx::new();
    assert_eq!(ctx.bind("x"), 0);
    assert_eq!(ctx.bind("x"), 1);
    assert_eq!(ctx.get_variable("x"), Some(1));
}

#[test]
fn a_duplicate_has_the_same_bindings_and_counter() {
    let mut ctx = Ctx::new();
    ctx.bind("x");
    ctx.bind("y");
    ctx.bind("x");
    let mut copy = ctx.duplicate();
    assert_eq!(copy.get_variable("x"), Some(2));
    assert_eq!(copy.get_variable("y"), Some(1));
    assert_eq!(copy.bind("z"), 3);
    assert_eq!(ctx.get_variable("z"), None);
}

#[test]
fn names_are_compared_whole() {
    let mut ctx = Ctx::new();
    ctx.bind("ab");
    assert_eq!(ctx.get_variable("a"), None);
    assert_eq!(ctx.get_variable("abc"), None);
    assert_eq!(ctx.get_variable("ab"), Some(0));
}
