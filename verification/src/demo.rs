//! A fixed demonstration: one function, built by hand, in an object file.

use vstd::prelude::*;
use cranelift_module::Linkage;
use crate::backend::{host_module, serialize, DefineFault, ObjectFile, TranslateError};
use cranelift_object::ObjectModule;
use crate::types::MachineType;
use crate::clif::{
    module_declared, module_defined, module_object, no_functions, signature_params,
    signature_returns, Declared,
    append_function_params, create_block, declare_function, declare_var, define_function,
    describe_module_error, finalize, has_entry_block, ins_iadd, ins_iconst, ins_return, make_context,
    make_signature, new_builder, new_builder_context, push_return, seal_block, set_signature,
    switch_to_block, try_def_var, type_i32, use_var,
};

verus! {

/// What a unit knows of `tester` once it is declared: it takes nothing,
/// returns a 32-bit integer, and is exported.
pub open spec fn tester() -> Declared {
    Declared {
        name: "tester"@,
        params: Seq::empty(),
        returns: seq![Some(MachineType::I32)],
        exported: true,
    }
}

/// Whether the unit declares `tester`, has a body for it, and declares and
/// defines nothing else.
pub open spec fn holds_tester_alone(unit: ObjectModule) -> bool {
    exists|id: u32|
        {
            &&& #[trigger] module_declared(unit).contains_key(id)
            &&& module_declared(unit) == no_functions().insert(id, tester())
            &&& module_defined(unit) == Set::<u32>::empty().insert(id)
        }
}

/// Whether `bytes` are what a unit is written out as that holds `tester`
/// alone.
pub open spec fn example_object(bytes: Seq<u8>) -> bool {
    exists|unit: ObjectModule| #[trigger] module_object(unit) == Some(bytes) && holds_tester_alone(unit)
}

/// Builds the object file `example.o` with one exported function, `tester`,
/// which takes nothing and returns a 32-bit integer: an unset variable
/// plus 5.
///
/// The function has two blocks. The first takes the function's parameters
/// and stays empty; the body stands in the second.
pub fn generate() -> (done: Result<ObjectFile, TranslateError>)
    ensures
        done matches Ok(file) ==> file.file_name@ == "example.o"@ && example_object(
            file.bytes@,
        ),
        done matches Err(error) ==> !(error is Define) || (error matches TranslateError::Define {
            fault,
            ..
        } && (fault is Refused || fault is NoEntryBlock)),
{
    let mut module = match host_module("test") {
        Ok(module) => module,
        Err(error) => {
            return Err(error);
        },
    };
    let mut sig = make_signature(&module);
    push_return(&mut sig, type_i32());
    let func_id = match declare_function(&mut module, "tester", Linkage::Export, &sig) {
        Ok(id) => id,
        Err(error) => {
            return Err(
                TranslateError::Declare {
                    function: "tester".to_owned(),
                    reason: describe_module_error(&error),
                },
            );
        },
    };
    proof {
        assert(signature_params(sig) =~= Seq::empty());
        assert(signature_returns(sig) =~= seq![Some(MachineType::I32)]);
        assert(module_declared(module).dom() =~= Set::<u32>::empty().insert(func_id));
        assert(module_declared(module)[func_id] == tester());
        assert(module_declared(module) =~= no_functions().insert(func_id, tester()));
    }
    let mut ctx = make_context(&module);
    set_signature(&mut ctx, sig);
    let mut fb_ctx = new_builder_context();
    let mut builder = new_builder(&mut ctx, &mut fb_ctx);

    let block0 = create_block(&mut builder);
    let block1 = create_block(&mut builder);

    let x: u32 = 0;
    let z: u32 = 1;

    declare_var(&mut builder, x, type_i32());
    declare_var(&mut builder, z, type_i32());
    append_function_params(&mut builder, block0);

    switch_to_block(&mut builder, block0);
    seal_block(&mut builder, block0);

    switch_to_block(&mut builder, block1);
    let arg1 = use_var(&mut builder, x);
    let arg2 = ins_iconst(&mut builder, type_i32(), 5);
    let ret = ins_iadd(&mut builder, arg1, arg2);
    if !try_def_var(&mut builder, z, ret) {
        return Err(
            TranslateError::Define {
                function: "tester".to_owned(),
                fault: DefineFault::Refused("the sum is not of the variable's type".to_owned()),
            },
        );
    }
    let ret_arg = use_var(&mut builder, z);
    ins_return(&mut builder, ret_arg);
    seal_block(&mut builder, block1);

    finalize(builder);

    if !has_entry_block(&ctx) {
        return Err(
            TranslateError::Define { function: "tester".to_owned(), fault: DefineFault::NoEntryBlock },
        );
    }
    match define_function(&mut module, func_id, &mut ctx) {
        Ok(()) => {},
        Err(error) => {
            return Err(
                TranslateError::Define {
                    function: "tester".to_owned(),
                    fault: DefineFault::Refused(describe_module_error(&error)),
                },
            );
        },
    }
    let ghost unit = module;
    assert(module_defined(unit) =~= Set::<u32>::empty().insert(func_id));
    assert(holds_tester_alone(unit));
    match serialize(module) {
        Ok(bytes) => {
            let file = ObjectFile { file_name: "example.o".to_owned(), bytes };
            assert(module_object(unit) == Some(file.bytes@) && holds_tester_alone(unit));
            assert(example_object(file.bytes@));
            Ok(file)
        },
        Err(error) => Err(error),
    }
}

} // verus!
