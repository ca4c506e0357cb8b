use ir_lowering::types::{is_unresolved, lower_type, MachineType, Primitive, SourceType};

fn record() -> SourceType {
    SourceType::Record(vec![
        ("x".to_string(), SourceType::Primitive(Primitive::Int)),
        ("y".to_string(), SourceType::Unit),
    ])
}

fn function_type() -> SourceType {
    SourceType::FunctionType {
        param_types: vec![SourceType::Primitive(Primitive::Int)],
        return_type: Box::new(SourceType::Unit),
    }
}

#[test]
fn unit_has_no_machine_type() {
    assert_eq!(lower_type(&SourceType::Unit), None);
}

#[test]
fn int_is_four_bytes() {
    assert_eq!(lower_type(&SourceType::Primitive(Primitive::Int)), Some(MachineType::I32));
}

#[test]
fn float_is_eight_byte_float() {
    assert_eq!(lower_type(&SourceType::Primitive(Primitive::Float)), Some(MachineType::F64));
}

#[test]
fn bool_and_char_are_one_byte() {
    assert_eq!(lower_type(&SourceType::Primitive(Primitive::Bool)), Some(MachineType::I8));
    assert_eq!(lower_type(&SourceType::Primitive(Primitive::Char)), Some(MachineType::I8));
}

#[test]
fn string_and_array_are_pointers() {
    assert_eq!(lower_type(&SourceType::Primitive(Primitive::String)), Some(MachineType::I64));
    assert_eq!(lower_type(&SourceType::Primitive(Primitive::Array)), Some(MachineType::I64));
}

#[test]
fn record_and_function_are_pointers() {
    assert_eq!(lower_type(&record()), Some(MachineType::I64));
    assert_eq!(lower_type(&function_type()), Some(MachineType::I64));
}

#[test]
fn a_hole_inside_a_record_is_not_seen() {
    let ty = SourceType::Record(vec![("hole".to_string(), SourceType::Unresolved)]);
    assert!(!is_unresolved(&ty));
    assert_eq!(lower_type(&ty), Some(MachineType::I64));
}

#[test]
fn only_the_hole_is_unresolved() {
    assert!(is_unresolved(&SourceType::Unresolved));
    assert!(!is_unresolved(&SourceType::Unit));
    assert!(!is_unresolved(&SourceType::Primitive(Primitive::Int)));
    assert!(!is_unresolved(&record()));
    assert!(!is_unresolved(&function_type()));
}

#[test]
fn lowering_a_type_twice_gives_the_same() {
    let all = vec![
        SourceType::Unit,
        SourceType::Primitive(Primitive::Int),
        SourceType::Primitive(Primitive::Float),
        SourceType::Primitive(Primitive::String),
        SourceType::Primitive(Primitive::Array),
        SourceType::Primitive(Primitive::Char),
        SourceType::Primitive(Primitive::Bool),
        record(),
        function_type(),
    ];
    for ty in &all {
        assert_eq!(lower_type(ty), lower_type(ty));
    }
}
