//! Emission: carrying a lowered function out on the code generator, and
//! assembling the functions of a module into one object file.

use vstd::prelude::*;
use vstd::string::{StrSliceExecFns, StringExecFns};
use cranelift::codegen::ir::{Signature, Type};
use cranelift::codegen::Context;
use cranelift::frontend::FunctionBuilder;
use cranelift_module::Linkage;
use cranelift_object::ObjectModule;
use crate::ast::{Expression, FunctionDecl};
use crate::clif::{
    all_values, append_function_params, block_params, builder_code, builder_defs,
    builder_value_kind, builder_var_kind, context_has_entry, has_null, module_made, Made, definition_accepted, context_params, context_returns,
    keeps_kinds, typed_as, Placed, declaration_accepted, declared_alike,
    keeps, Declared, builder_blocks, builder_position, builder_values,
    builder_vars, create_block, declare_function, declare_var, define_function,
    describe_module_error, describe_write_error, emit_product, finalize, finish_module, flags_of,
    has_entry_block, host_object_builder, ins_iadd, ins_iconst, ins_imul, ins_isub, ins_return, ins_sdiv,
    make_context, make_signature, module_declared, module_defined, module_object, new_builder,
    new_builder_context, new_object_module, push_param, push_return, seal_block, set_signature,
    settings_builder, signature_params, signature_returns, switch_to_block, try_def_var,
    type_f64, type_i32, type_i64, type_i8, type_kind, use_var, Fill,
};
use cranelift_object::object::write::Error as WriteError;
use crate::function::{bind_params, is_lowerable, lemma_unresolved_not_lowerable, lower_function};
use crate::lowering::{
    arith_op, assignment_result, literal_instr, lower_expression, lower_statements,
    lowerable_expression, lowerable_statements, Lowering,
};
use crate::ir::extends;
use crate::function::machine_params;
use crate::preservation::{
    empty_lowering, lemma_lowering_appends, lemma_machine_params_of_valued, parameter_names, plain,
    plain_function,
};
use crate::types::SourceType;
use crate::ir::{declared_slots, ArithOp, FunctionCode, FunctionCodeView, Instr};
use crate::types::MachineType;

verus! {

/// Why the code generator did not take a function's body.
#[derive(Debug)]
pub enum DefineFault {
    /// The instruction at this position would place code after the
    /// function's return.
    CodeAfterReturn { at: usize },
    /// The body ends without a return.
    MissingReturn,
    /// The code generator refused the definition at this position: the
    /// value is not of the slot's type.
    SlotRejected { at: usize },
    /// The parameter read at this position is not among the entry block's.
    MissingParameter { at: usize },
    /// The constant at this position is of a type that is no integer type.
    FloatConstant { at: usize },
    /// The body was built, and the unit refused the finished function, for
    /// the reason it gives.
    Refused(String),
    /// The body was built, and the finished function has no entry block.
    NoEntryBlock,
}

/// Why no object came out.
#[derive(Debug)]
pub enum TranslateError {
    /// The code generator cannot target the machine this runs on.
    Host(String),
    /// The compilation unit did not take the function's declaration.
    Declare { function: String, reason: String },
    /// The compilation unit did not take the function's body.
    Define { function: String, fault: DefineFault },
    /// The compilation unit could not be written out as an object.
    Serialize(String),
}

/// An object file, not yet on disk: the name to write it under, and what
/// to write.
#[derive(Debug)]
pub struct ObjectFile {
    pub file_name: String,
    pub bytes: Vec<u8>,
}

/// Whether one of the first `n` instructions is a return.
pub open spec fn returned_within(code: Seq<Instr>, n: nat) -> bool
    decreases n,
{
    n > 0 && n <= code.len() && (code[n - 1] is Return || returned_within(code, (n - 1) as nat))
}

/// Whether instruction `i` would place code after a return.
pub open spec fn misplaced(code: Seq<Instr>, i: int) -> bool {
    0 <= i < code.len() && code[i].inserts_code() && returned_within(code, i as nat)
}

/// Whether the code is a body that the code generator is offered whole: it
/// returns, and places nothing after the return.
pub open spec fn well_terminated(code: Seq<Instr>) -> bool {
    &&& returned_within(code, code.len())
    &&& forall|i: int| !misplaced(code, i)
}

/// Whether instruction `i` is a constant of a type that is no integer
/// type.
pub open spec fn unplaceable(code: Seq<Instr>, i: int) -> bool {
    0 <= i < code.len() && code[i] is Const && !code[i]->Const_ty.is_integer()
}

/// Whether instruction `i` reads a parameter that a function of `given`
/// parameters does not have.
pub open spec fn unread(code: Seq<Instr>, given: nat, i: int) -> bool {
    0 <= i < code.len() && code[i] is Param && code[i]->Param_index >= given
}

/// The instruction that the code generator is asked to place for `instr`,
/// which stands at position `at`, where `vals` gives the code generator's
/// value for each position that yields one: a constant, an arithmetic
/// instruction on the values of the operands, left and right as they
/// stand, or a return. Declarations, definitions, reads and labels place
/// nothing.
pub open spec fn placed_for(instr: Instr, vals: Seq<Option<u32>>, at: int) -> Option<Placed> {
    match instr {
        Instr::Const { ty, imm } => Some(
            Placed::Iconst { kind: Some(ty), imm, result: vals[at].unwrap() },
        ),
        Instr::Arith { op, lhs, rhs } => {
            let l = vals[lhs as int].unwrap();
            let r = vals[rhs as int].unwrap();
            let result = vals[at].unwrap();
            Some(
                match op {
                    ArithOp::Add => Placed::Iadd { lhs: l, rhs: r, result },
                    ArithOp::Sub => Placed::Isub { lhs: l, rhs: r, result },
                    ArithOp::Mul => Placed::Imul { lhs: l, rhs: r, result },
                    ArithOp::SignedDiv => Placed::Sdiv { lhs: l, rhs: r, result },
                },
            )
        },
        Instr::Return { value } => Some(Placed::Return { value: vals[value as int].unwrap() }),
        _ => None,
    }
}

/// The instructions that the code generator is asked to place for the
/// first `n` instructions of `code`, in order.
pub open spec fn placed(code: Seq<Instr>, vals: Seq<Option<u32>>, n: nat) -> Seq<Placed>
    decreases n,
{
    if n == 0 || n > code.len() {
        Seq::empty()
    } else {
        let earlier = placed(code, vals, (n - 1) as nat);
        match placed_for(code[n - 1], vals, n - 1) {
            Some(instruction) => earlier.push(instruction),
            None => earlier,
        }
    }
}

/// The position whose value `slot` took last among the first `n`
/// instructions, if it took one.
pub open spec fn defined_value(code: Seq<Instr>, slot: u32, n: nat) -> Option<usize>
    decreases n,
{
    if n == 0 || n > code.len() {
        None
    } else {
        match code[n - 1] {
            Instr::DefVar { slot: taken, value } => if taken == slot {
                Some(value)
            } else {
                defined_value(code, slot, (n - 1) as nat)
            },
            _ => defined_value(code, slot, (n - 1) as nat),
        }
    }
}

/// Whether every read among the first `n` instructions is of a slot that
/// took a value before.
pub open spec fn reads_defined(code: Seq<Instr>, n: nat) -> bool {
    forall|i: int|
        0 <= i < n && i < code.len() && (#[trigger] code[i]) is UseVar ==> defined_value(
            code,
            code[i]->UseVar_slot,
            i as nat,
        ) is Some
}

/// Whether the code generator's value at position `i` is the one that the
/// position stands for: a read of a slot has the value that the slot took
/// last, a read of a parameter the entry block's parameter at that index.
pub open spec fn value_agrees(code: Seq<Instr>, vals: Seq<Option<u32>>, params: Seq<u32>, i: int) -> bool {
    match code[i] {
        Instr::UseVar { slot } => match defined_value(code, slot, i as nat) {
            Some(source) => vals[i] == vals[source as int],
            None => true,
        },
        Instr::Param { index } => index < params.len() ==> vals[i] == Some(params[index as int]),
        _ => true,
    }
}

/// Whether `after` is `before` with the instructions of `code` carried out,
/// under the code generator's values `vals` and with the entry block's
/// parameters `params`.
pub open spec fn carried_out(
    before: Seq<Placed>,
    after: Seq<Placed>,
    code: Seq<Instr>,
    params: Seq<u32>,
    vals: Seq<Option<u32>>,
) -> bool {
    &&& vals.len() == code.len()
    &&& after == before + placed(code, vals, code.len())
    &&& forall|i: int| 0 <= i < code.len() ==> value_agrees(code, vals, params, i)
}

/// Whether the slots hold, by the code generator's books, the values that
/// they took among the first `n` instructions.
pub open spec fn defs_agree(defs: Map<u32, u32>, code: Seq<Instr>, vals: Seq<Option<u32>>, n: nat) -> bool {
    forall|slot: u32|
        (#[trigger] defined_value(code, slot, n)) is Some ==> defs.contains_key(slot) && vals[defined_value(
            code,
            slot,
            n,
        ).unwrap() as int] == Some(defs[slot])
}

/// The position whose value a slot took last is an earlier one that
/// yields a value.
proof fn lemma_defined_in_range(code: Seq<Instr>, params: nat, slot: u32, n: nat)
    requires
        crate::ir::code_ok(code, params),
        n <= code.len(),
    ensures
        defined_value(code, slot, n) matches Some(source) ==> source < n && code[source as int].yields_value(),
    decreases n,
{
    if n > 0 {
        lemma_defined_in_range(code, params, slot, (n - 1) as nat);
        assert(crate::ir::instr_ok(code, params, n - 1));
    }
}

/// What is placed for the first `n` instructions depends on the values at
/// the first `n` positions alone.
proof fn lemma_placed_agree(code: Seq<Instr>, params: nat, a: Seq<Option<u32>>, b: Seq<Option<u32>>, n: nat)
    requires
        crate::ir::code_ok(code, params),
        n <= code.len(),
        n <= a.len(),
        n <= b.len(),
        forall|i: int| 0 <= i < n ==> a[i] == b[i],
    ensures
        placed(code, a, n) == placed(code, b, n),
    decreases n,
{
    if n > 0 {
        lemma_placed_agree(code, params, a, b, (n - 1) as nat);
        assert(crate::ir::instr_ok(code, params, n - 1));
    }
}

/// The type that the first `n` instructions declare `slot` with, if they
/// declare it.
pub open spec fn slot_kind(code: Seq<Instr>, slot: u32, n: nat) -> Option<MachineType>
    decreases n,
{
    if n == 0 || n > code.len() {
        None
    } else {
        match code[n - 1] {
            Instr::DeclareVar { slot: declared, ty } => if declared == slot {
                Some(ty)
            } else {
                slot_kind(code, slot, (n - 1) as nat)
            },
            _ => slot_kind(code, slot, (n - 1) as nat),
        }
    }
}

/// The type of the value that position `i` yields, in a function whose
/// parameters have the types `given`: that of the constant, of the left
/// operand, of the slot read, or of the parameter read.
pub open spec fn kind_at(code: Seq<Instr>, given: Seq<Option<MachineType>>, i: nat) -> Option<MachineType>
    decreases i,
{
    if i >= code.len() {
        None
    } else {
        match code[i as int] {
            Instr::Const { ty, .. } => Some(ty),
            Instr::Arith { lhs, .. } => if lhs < i {
                kind_at(code, given, lhs as nat)
            } else {
                None
            },
            Instr::UseVar { slot } => slot_kind(code, slot, i),
            Instr::Param { index } => if index < given.len() {
                given[index as int]
            } else {
                None
            },
            _ => None,
        }
    }
}

/// Whether instruction `i` stores a value in a slot of the value's type.
pub open spec fn fits(code: Seq<Instr>, given: Seq<Option<MachineType>>, i: int) -> bool {
    &&& 0 <= i < code.len()
    &&& code[i] is DefVar
    &&& kind_at(code, given, code[i]->DefVar_value as nat) is Some
    &&& kind_at(code, given, code[i]->DefVar_value as nat) == slot_kind(
        code,
        code[i]->DefVar_slot,
        i as nat,
    )
}

/// Whether instruction `i` stores a value in a slot of another type than
/// the value's.
pub open spec fn mistyped(code: Seq<Instr>, given: Seq<Option<MachineType>>, i: int) -> bool {
    &&& 0 <= i < code.len()
    &&& code[i] is DefVar
    &&& kind_at(code, given, code[i]->DefVar_value as nat) is Some
    &&& kind_at(code, given, code[i]->DefVar_value as nat) != slot_kind(
        code,
        code[i]->DefVar_slot,
        i as nat,
    )
}

/// Whether instruction `i` cannot be carried out on a function whose
/// parameters have the types `given`: it would place code after a return,
/// is a constant of no integer type, reads a parameter that the function
/// does not have, or stores a value in a slot of another type.
pub open spec fn faulty(code: Seq<Instr>, given: Seq<Option<MachineType>>, i: int) -> bool {
    ||| misplaced(code, i)
    ||| unplaceable(code, i)
    ||| unread(code, given.len(), i)
    ||| mistyped(code, given, i)
}

/// Whether the code is a body that is offered to the code generator whole,
/// for a function whose parameters have the types `given`: it returns, and
/// none of its instructions is faulty.
pub open spec fn buildable(code: Seq<Instr>, given: Seq<Option<MachineType>>) -> bool {
    &&& returned_within(code, code.len())
    &&& forall|i: int| !#[trigger] faulty(code, given, i)
}

/// A buildable body is well terminated.
pub proof fn lemma_buildable_is_well_terminated(code: Seq<Instr>, given: Seq<Option<MachineType>>)
    requires
        buildable(code, given),
    ensures
        well_terminated(code),
{
    assert forall|i: int| !misplaced(code, i) by {
        assert(!faulty(code, given, i));
    }
}

/// What building a body from `code` comes to, for a function whose
/// parameters have the types `given`. Success means the body is buildable,
/// and so does the code generator's refusal of the finished body.
/// Otherwise the first instruction that cannot be carried out is reported,
/// with what is wrong with it; a body without such an instruction that
/// never returns is reported as such. A definition is refused only where
/// the value is not known to be of the slot's type, and always where it is
/// of another.
pub open spec fn build_outcome(code: Seq<Instr>, given: Seq<Option<MachineType>>, built: Result<(), DefineFault>) -> bool {
    match built {
        Ok(()) => buildable(code, given),
        Err(DefineFault::CodeAfterReturn { at }) => misplaced(code, at as int) && forall|j: int|
            0 <= j < at ==> !#[trigger] faulty(code, given, j),
        Err(DefineFault::FloatConstant { at }) => unplaceable(code, at as int) && !misplaced(
            code,
            at as int,
        ) && forall|j: int| 0 <= j < at ==> !#[trigger] faulty(code, given, j),
        Err(DefineFault::MissingParameter { at }) => unread(code, given.len(), at as int)
            && forall|j: int| 0 <= j < at ==> !#[trigger] faulty(code, given, j),
        Err(DefineFault::MissingReturn) => !returned_within(code, code.len()) && forall|j: int|
            !#[trigger] faulty(code, given, j),
        Err(DefineFault::SlotRejected { at }) => at < code.len() && code[at as int] is DefVar
            && !fits(code, given, at as int) && forall|j: int|
            0 <= j < at ==> !#[trigger] faulty(code, given, j),
        Err(DefineFault::Refused(_)) => buildable(code, given),
        Err(DefineFault::NoEntryBlock) => buildable(code, given),
    }
}

/// A slot that is declared has a type.
pub proof fn lemma_declared_has_kind(code: Seq<Instr>, slot: u32, n: nat)
    requires
        n <= code.len(),
        declared_slots(code, n).contains(slot),
    ensures
        slot_kind(code, slot, n) is Some,
    decreases n,
{
    if n > 0 {
        if declared_slots(code, (n - 1) as nat).contains(slot) {
            lemma_declared_has_kind(code, slot, (n - 1) as nat);
        }
    }
}

/// In code that is in order, for a function whose parameters all have one
/// of the four types, every value has one.
pub proof fn lemma_kinds_known(code: Seq<Instr>, given: Seq<Option<MachineType>>, i: nat)
    requires
        crate::ir::code_ok(code, given.len()),
        forall|k: int| 0 <= k < given.len() ==> (#[trigger] given[k]) is Some,
        i < code.len(),
        code[i as int].yields_value(),
    ensures
        kind_at(code, given, i) is Some,
    decreases i,
{
    assert(crate::ir::instr_ok(code, given.len(), i as int));
    match code[i as int] {
        Instr::Arith { lhs, .. } => {
            lemma_kinds_known(code, given, lhs as nat);
        },
        Instr::UseVar { slot } => {
            lemma_declared_has_kind(code, slot, i);
        },
        _ => {},
    }
}

/// When success is owed: a body that is in order and buildable, for a
/// function whose parameters all have one of the four types, is built, or
/// built and then refused by the code generator; no fault of the body is
/// reported.
pub proof fn lemma_buildable_is_built(
    code: Seq<Instr>,
    given: Seq<Option<MachineType>>,
    built: Result<(), DefineFault>,
)
    requires
        crate::ir::code_ok(code, given.len()),
        forall|k: int| 0 <= k < given.len() ==> (#[trigger] given[k]) is Some,
        buildable(code, given),
        build_outcome(code, given, built),
    ensures
        built is Ok || (built is Err && (built->Err_0 is Refused || built->Err_0 is NoEntryBlock)),
{
    match built {
        Err(DefineFault::CodeAfterReturn { at }) => {
            assert(faulty(code, given, at as int));
        },
        Err(DefineFault::FloatConstant { at }) => {
            assert(faulty(code, given, at as int));
        },
        Err(DefineFault::MissingParameter { at }) => {
            assert(faulty(code, given, at as int));
        },
        Err(DefineFault::SlotRejected { at }) => {
            assert(crate::ir::instr_ok(code, given.len(), at as int));
            lemma_kinds_known(code, given, code[at as int]->DefVar_value as nat);
            assert(!faulty(code, given, at as int));
        },
        _ => {},
    }
}

/// The machine types `types` as the code generator's signatures hold them.
pub open spec fn kinds(types: Seq<MachineType>) -> Seq<Option<MachineType>> {
    Seq::new(types.len(), |i: int| Some(types[i]))
}

/// The result type `result` as the code generator's signatures hold it: one
/// result, or none.
pub open spec fn result_kinds(result: Option<MachineType>) -> Seq<Option<MachineType>> {
    match result {
        Some(ty) => seq![Some(ty)],
        None => Seq::empty(),
    }
}

/// The code generator's type for a machine type.
fn clif_type(ty: MachineType) -> (given: Type)
    ensures
        type_kind(given) == Some(ty),
{
    match ty {
        MachineType::I8 => type_i8(),
        MachineType::I32 => type_i32(),
        MachineType::I64 => type_i64(),
        MachineType::F64 => type_f64(),
    }
}

/// Gives `signature` the parameters and the result of `code`, in order:
/// one parameter for each machine parameter, after those that it has, and
/// one result where the function has a result type.
fn fill_signature(signature: &mut Signature, code: &FunctionCode)
    ensures
        signature_params(*final(signature)) == signature_params(*old(signature)) + kinds(
            code@.params,
        ),
        signature_returns(*final(signature)) == signature_returns(*old(signature)) + result_kinds(
            code@.result,
        ),
{
    let params = code.params();
    let mut i: usize = 0;
    assert(signature_params(*signature) =~= signature_params(*old(signature)) + kinds(
        params@.take(0),
    ));
    while i < params.len()
        invariant
            i <= params@.len(),
            params@ == code@.params,
            signature_params(*signature) == signature_params(*old(signature)) + kinds(
                params@.take(i as int),
            ),
            signature_returns(*signature) == signature_returns(*old(signature)),
        decreases params@.len() - i,
    {
        let ghost before = signature_params(*signature);
        push_param(signature, clif_type(params[i]));
        assert(params@.take(i + 1) =~= params@.take(i as int).push(params@[i as int]));
        assert(kinds(params@.take(i + 1)) =~= kinds(params@.take(i as int)).push(
            Some(params@[i as int]),
        ));
        assert(signature_params(*signature) =~= signature_params(*old(signature)) + kinds(
            params@.take(i + 1),
        ));
        i = i + 1;
    }
    assert(params@.take(i as int) =~= params@);
    match code.result() {
        Some(ty) => {
            push_return(signature, clif_type(ty));
            assert(signature_returns(*signature) =~= signature_returns(*old(signature))
                + result_kinds(code@.result));
        },
        None => {
            assert(signature_returns(*signature) =~= signature_returns(*old(signature))
                + result_kinds(code@.result));
        },
    }
}

/// Whether the builder is ready to take more instructions of `code`, of
/// which it has taken the first `i`, `filled` telling whether one of them
/// returned.
spec fn taking(builder: FunctionBuilder, entry: u32, code: Seq<Instr>, i: nat, filled: bool) -> bool {
    &&& builder_position(builder) == Some(entry)
    &&& builder_blocks(builder).contains_key(entry)
    &&& builder_blocks(builder)[entry].sealed
    &&& filled == (builder_blocks(builder)[entry].fill is Filled)
    &&& filled == returned_within(code, i)
    &&& forall|block: u32| #[trigger]
        builder_blocks(builder).contains_key(block) && block != entry ==> builder_blocks(
            builder,
        )[block].fill is Empty
    &&& builder_vars(builder) == declared_slots(code, i)
    &&& forall|slot: u32| #[trigger] builder_vars(builder).contains(slot) ==> slot < u32::MAX
}

/// Whether the code generator's values `vals` stand for the first `i`
/// positions of `code`: each position that yields a value has one, which is
/// a value of the function, and reads have the values they stand for.
spec fn standing(
    builder: FunctionBuilder,
    code: Seq<Instr>,
    params: Seq<u32>,
    given: Seq<Option<MachineType>>,
    vals: Seq<Option<u32>>,
    i: nat,
) -> bool {
    &&& vals.len() == i
    &&& typed_as(builder, params, given)
    &&& forall|j: int|
        0 <= j < i && code[j].yields_value() ==> builder_value_kind(
            builder,
            (#[trigger] vals[j]).unwrap(),
        ) == kind_at(code, given, j as nat)
    &&& forall|slot: u32| #[trigger]
        builder_vars(builder).contains(slot) ==> slot_kind(code, slot, i) is Some
            && builder_var_kind(builder, slot) == slot_kind(code, slot, i)
    &&& forall|j: int|
        0 <= j < i && code[j].yields_value() ==> (#[trigger] vals[j]) is Some && builder_values(
            builder,
        ).contains(vals[j].unwrap())
    &&& forall|j: int| 0 <= j < i ==> value_agrees(code, vals, params, j)
    &&& defs_agree(builder_defs(builder), code, vals, i)
    &&& all_values(builder, params)
}

/// Carries the instructions of `code` out, in order, on a builder whose
/// current block is the entry block, empty and sealed, with the
/// parameters `params`.
fn emit_code(
    builder: &mut FunctionBuilder,
    code: &FunctionCode,
    entry: u32,
    params: &Vec<u32>,
    Ghost(given): Ghost<Seq<Option<MachineType>>>,
) -> (built: Result<(), DefineFault>)
    requires
        typed_as(*old(builder), params@, given),
        code.wf(),
        builder_position(*old(builder)) == Some(entry),
        builder_blocks(*old(builder)).contains_key(entry),
        builder_blocks(*old(builder))[entry].fill is Empty,
        builder_blocks(*old(builder))[entry].sealed,
        forall|block: u32| #[trigger]
            builder_blocks(*old(builder)).contains_key(block) ==> builder_blocks(
                *old(builder),
            )[block].fill is Empty,
        builder_vars(*old(builder)) == Set::<u32>::empty(),
        all_values(*old(builder), params@),
    ensures
        build_outcome(code@.code, given, built),
        built matches Err(fault) ==> !(fault is Refused) && !(fault is NoEntryBlock),
        built is Ok ==> forall|block: u32| #[trigger]
            builder_blocks(*final(builder)).contains_key(block) ==> builder_blocks(
                *final(builder),
            )[block].fill is Empty || (builder_blocks(*final(builder))[block].fill is Filled
                && builder_blocks(*final(builder))[block].sealed),
        built is Ok && reads_defined(code@.code, code@.code.len()) ==> exists|vals: Seq<Option<u32>>|
            #[trigger] carried_out(
                builder_code(*old(builder)),
                builder_code(*final(builder)),
                code@.code,
                params@,
                vals,
            ),
{
    let instrs = code.code();
    let mut vals: Vec<Option<u32>> = Vec::new();
    let mut filled = false;
    let mut i: usize = 0;
    assert(builder_code(*builder) =~= builder_code(*old(builder)) + placed(instrs@, vals@, 0));
    while i < instrs.len()
        invariant
            i <= instrs@.len(),
            instrs@ == code@.code,
            code.wf(),
            taking(*builder, entry, instrs@, i as nat, filled),
            standing(*builder, instrs@, params@, given, vals@, i as nat),
            reads_defined(instrs@, i as nat) ==> builder_code(*builder) == builder_code(
                *old(builder),
            ) + placed(instrs@, vals@, i as nat),
            forall|j: int| 0 <= j < i ==> !#[trigger] faulty(instrs@, given, j),
        decreases instrs@.len() - i,
    {
        let instr = instrs[i];
        let ghost before = vals@;
        let ghost trace = builder_code(*builder);
        let ghost defs = builder_defs(*builder);
        let ghost earlier = *builder;
        assert(crate::ir::instr_ok(instrs@, code@.params.len(), i as int));
        let mut yielded: Option<u32> = None;
        match instr {
            Instr::Const { ty, imm } => {
                if filled {
                    return Err(DefineFault::CodeAfterReturn { at: i });
                }
                if ty == MachineType::F64 {
                    return Err(DefineFault::FloatConstant { at: i });
                }
                yielded = Some(ins_iconst(builder, clif_type(ty), imm));
            },
            Instr::Arith { op, lhs, rhs } => {
                if filled {
                    return Err(DefineFault::CodeAfterReturn { at: i });
                }
                let left = vals[lhs].unwrap();
                let right = vals[rhs].unwrap();
                yielded = Some(
                    match op {
                        ArithOp::Add => ins_iadd(builder, left, right),
                        ArithOp::Sub => ins_isub(builder, left, right),
                        ArithOp::Mul => ins_imul(builder, left, right),
                        ArithOp::SignedDiv => ins_sdiv(builder, left, right),
                    },
                );
            },
            Instr::DeclareVar { slot, ty } => {
                declare_var(builder, slot, clif_type(ty));
            },
            Instr::DefVar { slot, value } => {
                let source = vals[value].unwrap();
                if !try_def_var(builder, slot, source) {
                    return Err(DefineFault::SlotRejected { at: i });
                }
            },
            Instr::UseVar { slot } => {
                if filled {
                    return Err(DefineFault::CodeAfterReturn { at: i });
                }
                yielded = Some(use_var(builder, slot));
            },
            Instr::Param { index } => {
                if index < params.len() {
                    yielded = Some(params[index]);
                } else {
                    return Err(DefineFault::MissingParameter { at: i });
                }
            },
            Instr::Return { value } => {
                if filled {
                    return Err(DefineFault::CodeAfterReturn { at: i });
                }
                let source = vals[value].unwrap();
                ins_return(builder, source);
                filled = true;
            },
            Instr::NewBlock => {
                let _ = create_block(builder);
            },
        }
        vals.push(yielded);
        proof {
            let n = (i + 1) as nat;
            assert(vals@ == before.push(yielded));
            assert(keeps_kinds(earlier, *builder));
            assert forall|slot: u32| #[trigger] builder_vars(*builder).contains(slot) implies slot_kind(
                instrs@,
                slot,
                n,
            ) is Some && builder_var_kind(*builder, slot) == slot_kind(instrs@, slot, n) by {
                if instr is DeclareVar && instr->DeclareVar_slot == slot {
                } else {
                    assert(builder_vars(earlier).contains(slot));
                    assert(slot_kind(instrs@, slot, n) == slot_kind(instrs@, slot, i as nat));
                }
            }
            assert forall|j: int| 0 <= j < n && instrs@[j].yields_value() implies builder_value_kind(
                *builder,
                (#[trigger] vals@[j]).unwrap(),
            ) == kind_at(instrs@, given, j as nat) by {
                if j < i {
                    assert(before[j] is Some);
                    assert(builder_values(earlier).contains(before[j].unwrap()));
                    assert(builder_value_kind(earlier, before[j].unwrap()) == kind_at(
                        instrs@,
                        given,
                        j as nat,
                    ));
                }
            }
            assert(typed_as(*builder, params@, given)) by {
                assert forall|k: int| 0 <= k < params@.len() implies builder_value_kind(
                    *builder,
                    #[trigger] params@[k],
                ) == given[k] by {
                    assert(builder_values(earlier).contains(params@[k]));
                }
            }
            assert forall|slot: u32, m: nat| m <= instrs@.len() implies (#[trigger] defined_value(
                instrs@,
                slot,
                m,
            ) matches Some(source) ==> source < m && instrs@[source as int].yields_value()) by {
                lemma_defined_in_range(instrs@, code@.params.len(), slot, m);
            }
            assert(defs_agree(defs, instrs@, before, i as nat));
            assert forall|slot: u32| (#[trigger] defined_value(instrs@, slot, n)) is Some implies builder_defs(
                *builder,
            ).contains_key(slot) && vals@[defined_value(instrs@, slot, n).unwrap() as int] == Some(
                builder_defs(*builder)[slot],
            ) by {
                let source = defined_value(instrs@, slot, n).unwrap();
                assert(source < n);
                if instr is DefVar && instr->DefVar_slot == slot {
                    assert(source == instr->DefVar_value);
                    assert(before[source as int] is Some);
                    assert(vals@[source as int] == before[source as int]);
                } else {
                    assert(defined_value(instrs@, slot, n) == defined_value(instrs@, slot, i as nat));
                    assert(source < i);
                    assert(defs.contains_key(slot));
                    assert(before[source as int] == Some(defs[slot]));
                    assert(vals@[source as int] == before[source as int]);
                    assert(builder_defs(*builder).contains_key(slot));
                    assert(builder_defs(*builder)[slot] == defs[slot]);
                }
            }
            assert forall|j: int| 0 <= j < n implies value_agrees(instrs@, vals@, params@, j) by {
                if j < i {
                    assert(value_agrees(instrs@, before, params@, j));
                    assert(crate::ir::instr_ok(instrs@, code@.params.len(), j));
                } else {
                    if instr is UseVar {
                        let slot = instr->UseVar_slot;
                        if defined_value(instrs@, slot, i as nat) is Some {
                            assert(defs.contains_key(slot));
                        }
                    }
                }
            }
            if reads_defined(instrs@, n) {
                assert(reads_defined(instrs@, i as nat));
                lemma_placed_agree(instrs@, code@.params.len(), before, vals@, i as nat);
                if instr is UseVar {
                    assert(defined_value(instrs@, instr->UseVar_slot, i as nat) is Some);
                    assert(defs.contains_key(instr->UseVar_slot));
                }
                assert(builder_code(*builder) =~= builder_code(*old(builder)) + placed(
                    instrs@,
                    vals@,
                    n,
                ));
            }
        }
        i = i + 1;
    }
    if !filled {
        return Err(DefineFault::MissingReturn);
    }
    proof {
        if reads_defined(instrs@, instrs@.len()) {
            assert(carried_out(
                builder_code(*old(builder)),
                builder_code(*builder),
                instrs@,
                params@,
                vals@,
            ));
        }
    }
    Ok(())
}

/// Builds the body of one function in `context`: gives the function the
/// signature, opens the entry block with one parameter per parameter of the
/// signature, seals it, and carries out the instructions of `code`.
///
/// The function of the context has the signature afterwards, whatever
/// comes of the body. A parameter that the signature does not have cannot
/// be read.
pub fn build_function(context: &mut Context, signature: Signature, code: &FunctionCode) -> (built: Result<(), DefineFault>)
    requires
        code.wf(),
    ensures
        build_outcome(code@.code, signature_params(signature), built),
        !(built matches Err(fault) && fault is Refused),
        built is Ok ==> context_has_entry(*final(context)),
        built matches Err(fault) ==> fault is NoEntryBlock ==> !context_has_entry(*final(context)),
        context_params(*final(context)) == signature_params(signature),
        context_returns(*final(context)) == signature_returns(signature),
{
    set_signature(context, signature);
    let mut scratch = new_builder_context();
    let mut builder = new_builder(context, &mut scratch);
    let block = create_block(&mut builder);
    append_function_params(&mut builder, block);
    let params = block_params(&builder, block);
    switch_to_block(&mut builder, block);
    seal_block(&mut builder, block);
    match emit_code(&mut builder, code, block, &params, Ghost(signature_params(signature))) {
        Ok(()) => {
            finalize(builder);
        },
        Err(fault) => {
            return Err(fault);
        },
    }
    if !has_entry_block(context) {
        return Err(DefineFault::NoEntryBlock);
    }
    Ok(())
}

/// What a unit knows of the function `code` once it is declared: its name,
/// its machine signature, and that it is exported.
pub open spec fn declaration_of(code: FunctionCodeView) -> Declared {
    Declared {
        name: code.name,
        params: kinds(code.params),
        returns: result_kinds(code.result),
        exported: true,
    }
}

/// Whether the unit declares the function `code` under the index `id`.
pub open spec fn declared_as(module: ObjectModule, code: FunctionCodeView, id: u32) -> bool {
    module_declared(module).contains_key(id) && module_declared(module)[id] == declaration_of(code)
}

/// Whether the unit declares the function `code`.
pub open spec fn declares(module: ObjectModule, code: FunctionCodeView) -> bool {
    exists|id: u32| #[trigger] declared_as(module, code, id)
}

/// Whether the unit holds the function `code`: declares it and has a body
/// for the declaration.
pub open spec fn holds(module: ObjectModule, code: FunctionCodeView) -> bool {
    exists|id: u32| #[trigger] declared_as(module, code, id) && module_defined(module).contains(id)
}

/// Whether the unit takes the declaration of the function `code`.
pub open spec fn accepts(module: ObjectModule, code: FunctionCodeView) -> bool {
    declaration_accepted(module, code.name, kinds(code.params), result_kinds(code.result))
}

/// A unit that keeps what another had declares and holds what the other
/// did.
pub proof fn lemma_kept(before: ObjectModule, after: ObjectModule, code: FunctionCodeView)
    requires
        keeps(before, after),
    ensures
        declares(before, code) ==> declares(after, code),
        holds(before, code) ==> holds(after, code),
{
    if declares(before, code) {
        let id = choose|id: u32| #[trigger] declared_as(before, code, id);
        assert(declared_alike(before, after, id));
        assert(declared_as(after, code, id));
    }
    if holds(before, code) {
        let id = choose|id: u32| #[trigger]
            declared_as(before, code, id) && module_defined(before).contains(id);
        assert(declared_alike(before, after, id));
        assert(declared_as(after, code, id) && module_defined(after).contains(id));
    }
}

/// Keeping is transitive, and every unit keeps what it has.
pub proof fn lemma_keeps_on(first: ObjectModule, second: ObjectModule, third: ObjectModule)
    requires
        keeps(first, second),
        keeps(second, third),
    ensures
        keeps(first, third),
        keeps(first, first),
{
    assert forall|id: u32| #[trigger] module_declared(first).contains_key(id) implies declared_alike(
        first,
        third,
        id,
    ) by {
        assert(declared_alike(first, second, id));
        assert(declared_alike(second, third, id));
    }
}

/// Whether `after` is `before` with the function `code` declared under
/// `id`: nothing is lost, nothing else is declared anew, and the unit is
/// made with what it was made with.
pub open spec fn declared_under(before: ObjectModule, code: FunctionCodeView, id: u32, after: ObjectModule) -> bool {
    &&& keeps(before, after)
    &&& declared_as(after, code, id)
    &&& module_declared(after).dom() == module_declared(before).dom().insert(id)
    &&& module_made(after) == module_made(before)
}

/// Whether the function of the context has the machine signature of the
/// function `code`.
pub open spec fn signed_as(context: Context, code: FunctionCodeView) -> bool {
    &&& context_params(context) == kinds(code.params)
    &&& context_returns(context) == result_kinds(code.result)
}

/// Whether the unit `mid` and the context `context` are what a body for
/// the function `code` is offered with: the unit is `before` with the
/// function declared under `id` and defines what `before` defined; the
/// function of the context has the machine signature of `code` and an
/// entry block.
pub open spec fn offered(
    before: ObjectModule,
    code: FunctionCodeView,
    id: u32,
    mid: ObjectModule,
    context: Context,
) -> bool {
    &&& declared_under(before, code, id, mid)
    &&& module_defined(mid) == module_defined(before)
    &&& signed_as(context, code)
    &&& context_has_entry(context)
}

/// Whether `after` is the unit once a body was offered for the function
/// `code` as [`offered`] says, and was taken if `taken`: then the function
/// has a body in `after`, else `after` defines what `before` defined. The
/// unit took the body exactly where [`definition_accepted`] says so.
pub open spec fn asked(before: ObjectModule, code: FunctionCodeView, after: ObjectModule, taken: bool) -> bool {
    exists|id: u32, mid: ObjectModule, context: Context|
        {
            &&& #[trigger] offered(before, code, id, mid, context)
            &&& taken == definition_accepted(mid, id, context)
            &&& module_declared(after) == module_declared(mid)
            &&& module_made(after) == module_made(mid)
            &&& module_defined(after) == if taken {
                module_defined(mid).insert(id)
            } else {
                module_defined(mid)
            }
        }
}

/// Whether `after` is `before` with the function `code` declared and
/// nothing defined anew.
pub open spec fn declared_only(before: ObjectModule, code: FunctionCodeView, after: ObjectModule) -> bool {
    &&& module_defined(after) == module_defined(before)
    &&& exists|id: u32| #[trigger] declared_under(before, code, id, after)
}

/// Whether a function with the machine signature of `code` came out
/// without an entry block.
pub open spec fn unbuilt(code: FunctionCodeView) -> bool {
    exists|context: Context| #[trigger] signed_as(context, code) && !context_has_entry(context)
}

/// What registering the function `code` in a compilation unit comes to,
/// `before` and `after` being the unit before and after.
///
/// The unit loses nothing. The declaration fails exactly where the unit
/// does not take it, and then nothing is declared or defined anew. Past
/// the declaration the function stands declared under its name, with its
/// machine signature, for export, and nothing else is declared anew. On
/// success the body is buildable, the unit was asked to take a function
/// with the machine signature and an entry block as the body and took it,
/// and so holds the function. Where the body fails, nothing is defined
/// anew, and the fault is one that [`build_outcome`] admits for the code;
/// the unit's refusal is reported only where it was asked and refused, a
/// missing entry block only where a function with the signature came out
/// without one.
pub open spec fn registered(
    code: FunctionCodeView,
    before: ObjectModule,
    after: ObjectModule,
    done: Result<(), TranslateError>,
) -> bool {
    &&& keeps(before, after)
    &&& module_made(after) == module_made(before)
    &&& match done {
        Ok(()) => {
            &&& accepts(before, code)
            &&& buildable(code.code, kinds(code.params))
            &&& asked(before, code, after, true)
            &&& holds(after, code)
        },
        Err(TranslateError::Declare { function, .. }) => {
            &&& function@ == code.name
            &&& !accepts(before, code)
            &&& module_declared(after).dom() == module_declared(before).dom()
            &&& module_defined(after) == module_defined(before)
        },
        Err(TranslateError::Define { function, fault }) => {
            &&& function@ == code.name
            &&& accepts(before, code)
            &&& declared_only(before, code, after)
            &&& build_outcome(code.code, kinds(code.params), Err(fault))
            &&& fault is Refused ==> asked(before, code, after, false)
            &&& fault is NoEntryBlock ==> unbuilt(code)
        },
        _ => false,
    }
}

/// What is declared in `after` and was not in `before` is the function
/// `code`.
pub proof fn lemma_registered_declares_one(
    code: FunctionCodeView,
    before: ObjectModule,
    after: ObjectModule,
    done: Result<(), TranslateError>,
    id: u32,
)
    requires
        registered(code, before, after, done),
        module_declared(after).contains_key(id),
        !module_declared(before).contains_key(id),
    ensures
        declared_as(after, code, id),
{
    match done {
        Ok(()) => {
            let (new, mid, context) = choose|new: u32, mid: ObjectModule, context: Context|
                {
                    &&& #[trigger] offered(before, code, new, mid, context)
                    &&& true == definition_accepted(mid, new, context)
                    &&& module_declared(after) == module_declared(mid)
                    &&& module_made(after) == module_made(mid)
                    &&& module_defined(after) == if true {
                        module_defined(mid).insert(new)
                    } else {
                        module_defined(mid)
                    }
                };
            assert(module_declared(mid).dom().contains(id));
            assert(id == new);
        },
        Err(TranslateError::Define { .. }) => {
            let new = choose|new: u32| #[trigger] declared_under(before, code, new, after);
            assert(module_declared(after).dom().contains(id));
            assert(id == new);
        },
        Err(TranslateError::Declare { .. }) => {
            assert(module_declared(after).dom().contains(id));
            assert(module_declared(before).dom().contains(id));
        },
        _ => {},
    }
}

/// Whether registering ended with a body that was built and then refused
/// by the unit, or came out without an entry block.
pub open spec fn refused(done: Result<(), TranslateError>) -> bool {
    done matches Err(TranslateError::Define { fault, .. }) && (fault is Refused
        || fault is NoEntryBlock)
}

/// When success is owed: where the unit takes the declaration and the body
/// is in order and buildable, registering succeeds, unless the code
/// generator refuses the body that was built.
pub proof fn lemma_success_is_owed(
    code: FunctionCodeView,
    before: ObjectModule,
    after: ObjectModule,
    done: Result<(), TranslateError>,
)
    requires
        code.wf(),
        registered(code, before, after, done),
        accepts(before, code),
        buildable(code.code, kinds(code.params)),
    ensures
        done is Ok || refused(done),
{
    match done {
        Err(TranslateError::Define { fault, .. }) => {
            lemma_buildable_is_built(code.code, kinds(code.params), Err(fault));
        },
        _ => {},
    }
}

/// Registers a lowered function in the compilation unit: declares it under
/// its name for export, with its machine signature, builds its body in a
/// context of its own, and defines it.
pub fn define_lowered(code: &FunctionCode, module: &mut ObjectModule) -> (done: Result<(), TranslateError>)
    requires
        code.wf(),
    ensures
        registered(code@, *old(module), *final(module), done),
        accepts(*old(module), code@) && buildable(code@.code, kinds(code@.params)) ==> done is Ok
            || refused(done),
{
    proof {
        if accepts(*module, code@) && buildable(code@.code, kinds(code@.params)) {
            assert forall|done: Result<(), TranslateError>, after: ObjectModule| #[trigger]
                registered(code@, *module, after, done) implies done is Ok || refused(done) by {
                lemma_success_is_owed(code@, *module, after, done);
            }
        }
    }
    let mut func_sig = make_signature(module);
    fill_signature(&mut func_sig, code);
    assert(signature_params(func_sig) =~= kinds(code@.params));
    assert(signature_returns(func_sig) =~= result_kinds(code@.result));
    let func_id = match declare_function(module, code.name().as_str(), Linkage::Export, &func_sig) {
        Ok(id) => id,
        Err(error) => {
            return Err(
                TranslateError::Declare {
                    function: code.name().clone(),
                    reason: describe_module_error(&error),
                },
            );
        },
    };
    let ghost declared = *module;
    assert(declared_as(declared, code@, func_id));
    assert(declared_under(*old(module), code@, func_id, declared));
    let mut func_ctx = make_context(module);
    match build_function(&mut func_ctx, func_sig, code) {
        Ok(()) => {},
        Err(fault) => {
            assert(fault is NoEntryBlock ==> signed_as(func_ctx, code@) && !context_has_entry(func_ctx));
            proof {
                if buildable(code@.code, kinds(code@.params)) {
                    lemma_buildable_is_built(code@.code, kinds(code@.params), Err(fault));
                }
            }
            return Err(TranslateError::Define { function: code.name().clone(), fault });
        },
    }
    let ghost built = func_ctx;
    assert(offered(*old(module), code@, func_id, declared, built));
    match define_function(module, func_id, &mut func_ctx) {
        Ok(()) => {
            proof {
                assert(declared_as(*module, code@, func_id));
                lemma_keeps_on(*old(module), declared, *module);
                assert(asked(*old(module), code@, *module, true));
            }
            Ok(())
        },
        Err(error) => {
            proof {
                assert(declared_as(*module, code@, func_id));
                lemma_keeps_on(*old(module), declared, *module);
                assert(asked(*old(module), code@, *module, false));
                assert(declared_under(*old(module), code@, func_id, *module));
            }
            Err(
                TranslateError::Define {
                    function: code.name().clone(),
                    fault: DefineFault::Refused(describe_module_error(&error)),
                },
            )
        },
    }
}

/// Lowers one function and registers it in the compilation unit.
pub fn translate_function(func: &FunctionDecl, module: &mut ObjectModule) -> (done: Result<(), TranslateError>)
    requires
        func.lowerable(),
    ensures
        registered(func.lowered(), *old(module), *final(module), done),
        accepts(*old(module), func.lowered()) && buildable(
            func.lowered().code,
            kinds(func.lowered().params),
        ) ==> done is Ok || refused(done),
{
    let code = lower_function(func);
    define_lowered(&code, module)
}

/// The function that stands at position `i` of a module's items.
pub open spec fn function_at(ast: Seq<Expression>, i: int) -> FunctionDecl {
    match ast[i] {
        Expression::FunctionDeclaration(func) => func,
        _ => arbitrary(),
    }
}

/// Whether a module can be translated: every top-level item is a function
/// declaration, and every function can be lowered.
pub open spec fn translatable(ast: Seq<Expression>) -> bool {
    forall|i: int|
        0 <= i < ast.len() ==> (#[trigger] ast[i]) is FunctionDeclaration && function_at(
            ast,
            i,
        ).lowerable()
}

/// A module with an item that is no function declaration cannot be
/// translated.
pub proof fn lemma_non_function_item_not_translatable(ast: Seq<Expression>, i: int)
    requires
        0 <= i < ast.len(),
        !(ast[i] is FunctionDeclaration),
    ensures
        !translatable(ast),
{
}

/// A module with a function that mentions the hole cannot be translated.
pub proof fn lemma_unresolved_not_translatable(ast: Seq<Expression>, i: int)
    requires
        0 <= i < ast.len(),
        ast[i] is FunctionDeclaration,
        function_at(ast, i).mentions_unresolved(),
    ensures
        !translatable(ast),
{
    lemma_unresolved_not_lowerable(function_at(ast, i));
}

/// A module without items can be translated.
pub proof fn lemma_empty_module_translatable(ast: Seq<Expression>)
    requires
        ast.len() == 0,
    ensures
        translatable(ast),
{
}

/// Exec counterpart of [`translatable`].
pub fn is_translatable(ast: &Vec<Expression>) -> (ok: bool)
    ensures
        ok == translatable(ast@),
{
    let mut i: usize = 0;
    while i < ast.len()
        invariant
            i <= ast@.len(),
            forall|j: int|
                0 <= j < i ==> (#[trigger] ast@[j]) is FunctionDeclaration && function_at(
                    ast@,
                    j,
                ).lowerable(),
        decreases ast@.len() - i,
    {
        match &ast[i] {
            Expression::FunctionDeclaration(func) => {
                if !is_lowerable(func) {
                    return false;
                }
            },
            _ => {
                return false;
            },
        }
        i = i + 1;
    }
    true
}

/// Whether the unit holds each of the first `n` functions of a module.
pub open spec fn holds_first(module: ObjectModule, ast: Seq<Expression>, n: int) -> bool {
    forall|i: int| 0 <= i < n ==> holds(module, #[trigger] function_at(ast, i).lowered())
}

/// Whether two units declare and define the same and are made with the
/// same.
pub open spec fn same_unit(a: ObjectModule, b: ObjectModule) -> bool {
    &&& module_declared(a) == module_declared(b)
    &&& module_defined(a) == module_defined(b)
    &&& module_made(a) == module_made(b)
}

/// What the run over the first `n` functions of a module comes to, from
/// the unit `before` to the unit `after`: each function is registered in
/// turn, in the unit as the functions before it left it, as
/// [`registered`] says; the first failure is the outcome of the run, and
/// the unit stays as that function left it.
pub open spec fn ran(
    ast: Seq<Expression>,
    n: nat,
    before: ObjectModule,
    after: ObjectModule,
    done: Result<(), TranslateError>,
) -> bool
    decreases n,
{
    if n == 0 || n > ast.len() {
        done is Ok && same_unit(before, after)
    } else {
        exists|mid: ObjectModule, earlier: Result<(), TranslateError>|
            {
                &&& #[trigger] between(mid, earlier)
                &&& ran(ast, (n - 1) as nat, before, mid, earlier)
                &&& match earlier {
                    Ok(()) => registered(function_at(ast, n - 1).lowered(), mid, after, done),
                    Err(_) => done == earlier && same_unit(mid, after),
                }
            }
    }
}

/// A unit and an outcome, as they stand between two steps of a run.
pub open spec fn between(mid: ObjectModule, earlier: Result<(), TranslateError>) -> bool {
    true
}

/// The last step of a run over the first `n` functions: the functions
/// before the last left the unit `mid` with the outcome `earlier`; where
/// that was success the last function is registered in `mid`, and else
/// nothing is done any more.
pub open spec fn run_step(
    ast: Seq<Expression>,
    n: nat,
    before: ObjectModule,
    mid: ObjectModule,
    earlier: Result<(), TranslateError>,
    after: ObjectModule,
    done: Result<(), TranslateError>,
) -> bool {
    &&& 1 <= n <= ast.len()
    &&& ran(ast, (n - 1) as nat, before, mid, earlier)
    &&& match earlier {
        Ok(()) => registered(function_at(ast, n - 1).lowered(), mid, after, done),
        Err(_) => done == earlier && same_unit(mid, after),
    }
}

/// A run is made of its last step.
pub proof fn lemma_step_is_run(
    ast: Seq<Expression>,
    n: nat,
    before: ObjectModule,
    mid: ObjectModule,
    earlier: Result<(), TranslateError>,
    after: ObjectModule,
    done: Result<(), TranslateError>,
)
    requires
        run_step(ast, n, before, mid, earlier, after, done),
    ensures
        ran(ast, n, before, after, done),
{
    assert(between(mid, earlier));
}

/// A run that has failed stays failed, and the unit stays as it is: no
/// later function is registered.
pub proof fn lemma_run_stops(
    ast: Seq<Expression>,
    m: nat,
    n: nat,
    before: ObjectModule,
    after: ObjectModule,
    done: Result<(), TranslateError>,
)
    requires
        1 <= m <= n <= ast.len(),
        done is Err,
        ran(ast, m, before, after, done),
    ensures
        ran(ast, n, before, after, done),
    decreases n,
{
    if m < n {
        lemma_run_stops(ast, m, (n - 1) as nat, before, after, done);
        lemma_step_is_run(ast, n, before, after, done, after, done);
    }
}

/// Whether everything that `after` declares and `before` did not is one
/// of the first `n` functions of the module.
pub open spec fn only_declares(before: ObjectModule, after: ObjectModule, ast: Seq<Expression>, n: int) -> bool {
    forall|id: u32| #[trigger]
        module_declared(after).contains_key(id) && !module_declared(before).contains_key(id)
            ==> exists|j: int| 0 <= j < n && #[trigger] declared_as(after, function_at(ast, j).lowered(), id)
}

/// Whether `error` reports the failure of the function at position `i`:
/// a declaration that failed under the function's name, or a body that
/// failed with a fault that [`build_outcome`] admits for its code.
pub open spec fn failure_of(ast: Seq<Expression>, i: int, error: TranslateError) -> bool {
    let code = function_at(ast, i).lowered();
    match error {
        TranslateError::Declare { function, .. } => function@ == code.name,
        TranslateError::Define { function, fault } => function@ == code.name && build_outcome(
            code.code,
            kinds(code.params),
            Err(fault),
        ),
        _ => false,
    }
}

/// Whether the run over a module from the unit `before` ended at the
/// function at position `i` with `error`: the unit `mid` is what the
/// functions before it left, it has lost nothing and holds them all, and
/// registering the function in it failed with `error` and left `after`.
pub open spec fn failed_at(
    before: ObjectModule,
    mid: ObjectModule,
    after: ObjectModule,
    ast: Seq<Expression>,
    i: int,
    error: TranslateError,
) -> bool {
    &&& 0 <= i < ast.len()
    &&& keeps(before, mid)
    &&& holds_first(mid, ast, i)
    &&& registered(function_at(ast, i).lowered(), mid, after, Err(error))
}

/// Whether the run over a module from the unit `before` to the unit
/// `after` failed with `error`, as [`failed_at`] says of some function.
pub open spec fn failed(before: ObjectModule, after: ObjectModule, ast: Seq<Expression>, error: TranslateError) -> bool {
    exists|i: int, mid: ObjectModule| #[trigger] failed_at(before, mid, after, ast, i, error)
}

/// A failure of a function is a failure as [`failure_of`] says.
pub proof fn lemma_failed_is_failure(
    before: ObjectModule,
    mid: ObjectModule,
    after: ObjectModule,
    ast: Seq<Expression>,
    i: int,
    error: TranslateError,
)
    requires
        failed_at(before, mid, after, ast, i, error),
    ensures
        failure_of(ast, i, error),
{
}

/// Lowers the functions of a module in order and registers each in the
/// compilation unit, stopping at the first that fails.
///
/// The run is what [`ran`] says. On success the unit holds every function
/// of the module: each is declared under its name, with its machine
/// signature, for export, and has a body. On failure the error is that of
/// the first function that failed, as the unit gave it, and the functions
/// after it are not touched. The unit loses nothing, declares nothing
/// anew but functions of the module, and with no functions it is left as
/// it is.
pub fn translate_items(ast: &Vec<Expression>, module: &mut ObjectModule) -> (done: Result<(), TranslateError>)
    requires
        translatable(ast@),
    ensures
        keeps(*old(module), *final(module)),
        ran(ast@, ast@.len(), *old(module), *final(module), done),
        only_declares(*old(module), *final(module), ast@, ast@.len() as int),
        done is Ok ==> holds_first(*final(module), ast@, ast@.len() as int),
        done is Ok ==> forall|i: int|
            0 <= i < ast@.len() ==> well_terminated(#[trigger] function_at(ast@, i).lowered().code),
        done matches Err(error) ==> failed(*old(module), *final(module), ast@, error),
        ast@.len() == 0 ==> done is Ok && same_unit(*old(module), *final(module)),
{
    let mut i: usize = 0;
    proof {
        lemma_keeps_on(*module, *module, *module);
    }
    while i < ast.len()
        invariant
            i <= ast@.len(),
            translatable(ast@),
            keeps(*old(module), *module),
            ran(ast@, i as nat, *old(module), *module, Ok(())),
            only_declares(*old(module), *module, ast@, i as int),
            holds_first(*module, ast@, i as int),
            forall|j: int|
                0 <= j < i ==> well_terminated(#[trigger] function_at(ast@, j).lowered().code),
            i == 0 ==> same_unit(*old(module), *module),
        decreases ast@.len() - i,
    {
        let ghost before = *module;
        match &ast[i] {
            Expression::FunctionDeclaration(func) => {
                let outcome = translate_function(func, module);
                proof {
                    let code = function_at(ast@, i as int).lowered();
                    assert(registered(code, before, *module, outcome));
                    lemma_keeps_on(*old(module), before, *module);
                    assert forall|j: int| 0 <= j < i implies holds(
                        *module,
                        #[trigger] function_at(ast@, j).lowered(),
                    ) by {
                        lemma_kept(before, *module, function_at(ast@, j).lowered());
                    }
                    assert(run_step(
                        ast@,
                        (i + 1) as nat,
                        *old(module),
                        before,
                        Ok(()),
                        *module,
                        outcome,
                    ));
                    lemma_step_is_run(
                        ast@,
                        (i + 1) as nat,
                        *old(module),
                        before,
                        Ok(()),
                        *module,
                        outcome,
                    );
                    assert forall|id: u32| #[trigger]
                        module_declared(*module).contains_key(id) && !module_declared(
                            *old(module),
                        ).contains_key(id) implies exists|j: int|
                        0 <= j < i + 1 && #[trigger] declared_as(
                            *module,
                            function_at(ast@, j).lowered(),
                            id,
                        ) by {
                        if module_declared(before).contains_key(id) {
                            let j = choose|j: int|
                                0 <= j < i && #[trigger] declared_as(
                                    before,
                                    function_at(ast@, j).lowered(),
                                    id,
                                );
                            assert(declared_alike(before, *module, id));
                            assert(declared_as(*module, function_at(ast@, j).lowered(), id));
                        } else {
                            lemma_registered_declares_one(code, before, *module, outcome, id);
                            assert(declared_as(*module, function_at(ast@, i as int).lowered(), id));
                        }
                    }
                }
                match outcome {
                    Ok(()) => {
                        proof {
                            lemma_buildable_is_well_terminated(
                                func.lowered().code,
                                kinds(func.lowered().params),
                            );
                        }
                    },
                    Err(error) => {
                        proof {
                            lemma_run_stops(
                                ast@,
                                (i + 1) as nat,
                                ast@.len(),
                                *old(module),
                                *module,
                                outcome,
                            );
                            assert(failed_at(*old(module), before, *module, ast@, i as int, error));
                            assert forall|id: u32| #[trigger]
                                module_declared(*module).contains_key(id) && !module_declared(
                                    *old(module),
                                ).contains_key(id) implies exists|j: int|
                                0 <= j < ast@.len() && #[trigger] declared_as(
                                    *module,
                                    function_at(ast@, j).lowered(),
                                    id,
                                ) by {
                                let j = choose|j: int|
                                    0 <= j < i + 1 && #[trigger] declared_as(
                                        *module,
                                        function_at(ast@, j).lowered(),
                                        id,
                                    );
                                assert(declared_as(*module, function_at(ast@, j).lowered(), id));
                            }
                        }
                        return Err(error);
                    },
                }
            },
            _ => {},
        }
        i = i + 1;
    }
    Ok(())
}

/// The name of the object file of a module: the module's name and `.o`.
pub fn output_file_name(module_name: &str) -> (file_name: String)
    ensures
        file_name@ == module_name@ + ".o"@,
{
    let mut file_name = module_name.to_owned();
    file_name.append(".o");
    file_name
}

/// Whether `unit` is a unit as it is first made: it carries `name`, has
/// the code generator's default settings, and declares and defines
/// nothing.
pub open spec fn fresh_unit(unit: ObjectModule, name: Seq<char>) -> bool {
    &&& module_made(unit) == (Made { name, default_settings: true })
    &&& !has_null(name)
    &&& module_declared(unit) == crate::clif::no_functions()
    &&& module_defined(unit) == Set::<u32>::empty()
}

/// A compilation unit for the machine this runs on, under `name`, with the
/// code generator's default settings, that holds no function yet. A name
/// that holds a null is refused: it could not be written out.
pub fn host_module(name: &str) -> (made: Result<ObjectModule, TranslateError>)
    ensures
        made matches Ok(module) ==> fresh_unit(module, name@),
        made matches Err(error) ==> error is Host,
        has_null(name@) ==> made is Err,
{
    let length = name.unicode_len();
    let mut i: usize = 0;
    while i < length
        invariant
            i <= length,
            length == name@.len(),
            forall|j: int| 0 <= j < i ==> name@[j] != '\0',
        decreases length - i,
    {
        if name.get_char(i) == '\0' {
            return Err(TranslateError::Host("the name of the unit holds a null byte".to_owned()));
        }
        i = i + 1;
    }
    let flags = flags_of(settings_builder());
    match host_object_builder(flags, name) {
        Ok(builder) => Ok(new_object_module(builder)),
        Err(reason) => Err(TranslateError::Host(reason)),
    }
}

/// Whether `bytes` is what is handed on for what the object writer gave:
/// the bytes themselves, or a failure to serialize.
pub open spec fn handed_on(
    written: Result<Vec<u8>, WriteError>,
    bytes: Result<Vec<u8>, TranslateError>,
) -> bool {
    match written {
        Ok(object) => bytes is Ok && bytes->Ok_0 == object,
        Err(_) => bytes is Err && bytes->Err_0 is Serialize,
    }
}

/// Hands on what the object writer gave: the bytes as they are, a refusal
/// as a failure to serialize that carries the writer's words.
pub fn written_out(written: Result<Vec<u8>, WriteError>) -> (bytes: Result<Vec<u8>, TranslateError>)
    ensures
        handed_on(written, bytes),
{
    match written {
        Ok(bytes) => Ok(bytes),
        Err(error) => Err(TranslateError::Serialize(describe_write_error(&error))),
    }
}

/// Writes the compilation unit out as the bytes of an object file: finishes
/// the unit and hands on what the object writer makes of it.
pub fn serialize(module: ObjectModule) -> (bytes: Result<Vec<u8>, TranslateError>)
    ensures
        bytes matches Ok(object) ==> module_object(module) == Some(object@),
        bytes matches Err(error) ==> error is Serialize && module_object(module) is None,
{
    written_out(emit_product(finish_module(module)))
}

/// Whether `bytes` are what the unit `unit` is written out as, and `unit`
/// holds the functions of the module, each declared under its name, with
/// its machine signature, for export, and with a body.
pub open spec fn written_from(unit: ObjectModule, ast: Seq<Expression>, bytes: Seq<u8>) -> bool {
    &&& module_object(unit) == Some(bytes)
    &&& holds_first(unit, ast, ast.len() as int)
}

/// Whether the run over the module from a unit as it is first made, under
/// the name `test`, came to `done` and left the unit `unit`, which
/// declares nothing but functions of the module.
pub open spec fn run_from_fresh(
    first: ObjectModule,
    unit: ObjectModule,
    ast: Seq<Expression>,
    done: Result<(), TranslateError>,
) -> bool {
    &&& fresh_unit(first, "test"@)
    &&& ran(ast, ast.len(), first, unit, done)
    &&& only_declares(first, unit, ast, ast.len() as int)
    &&& done is Err ==> failed(first, unit, ast, done->Err_0)
}

/// Whether `bytes` are those of a module that was translated: a unit as it
/// is first made was run over the module with success, and the bytes are
/// what the unit it left is written out as.
pub open spec fn translated(ast: Seq<Expression>, bytes: Seq<u8>) -> bool {
    exists|first: ObjectModule, unit: ObjectModule| #[trigger]
        run_from_fresh(first, unit, ast, Ok(())) && written_from(unit, ast, bytes)
}

/// Whether `error` is the failure of a run over the module from a unit as
/// it is first made.
pub open spec fn run_failed(ast: Seq<Expression>, error: TranslateError) -> bool {
    exists|first: ObjectModule, unit: ObjectModule| #[trigger]
        run_from_fresh(first, unit, ast, Err(error))
}

/// Whether `bytes` is what some unit is written out as that holds the
/// functions of the module, as [`written_from`] says.
pub open spec fn written_from_some(ast: Seq<Expression>, bytes: Seq<u8>) -> bool {
    exists|unit: ObjectModule| #[trigger] written_from(unit, ast, bytes)
}

/// Translates a module: sets up one compilation unit for the machine this
/// runs on, under the name `test` and with the default settings, lowers
/// and registers each top-level function in order, and writes the unit out
/// as an object file named after the module.
///
/// The file is handed back, not written. Its bytes are those of the unit
/// that the run left, which holds every function of the module and
/// declares nothing else. A failure is that of the machine, of the first
/// function that failed, as the unit gave it, or of the object writer.
pub fn translate(ast: Vec<Expression>, module_name: &str) -> (done: Result<ObjectFile, TranslateError>)
    requires
        translatable(ast@),
    ensures
        done matches Ok(file) ==> file.file_name@ == module_name@ + ".o"@,
        done matches Ok(file) ==> translated(ast@, file.bytes@),
        done matches Ok(file) ==> forall|i: int|
            0 <= i < ast@.len() ==> well_terminated(#[trigger] function_at(ast@, i).lowered().code),
        done matches Err(error) ==> error is Host || error is Serialize || run_failed(ast@, error),
        done matches Err(error) ==> ast@.len() == 0 ==> error is Host || error is Serialize,
{
    let mut module = match host_module("test") {
        Ok(module) => module,
        Err(error) => {
            return Err(error);
        },
    };
    let ghost first = module;
    match translate_items(&ast, &mut module) {
        Ok(()) => {
            assert(run_from_fresh(first, module, ast@, Ok(())));
        },
        Err(error) => {
            proof {
                assert(run_from_fresh(first, module, ast@, Err(error)));
            }
            return Err(error);
        },
    }
    let ghost unit = module;
    match serialize(module) {
        Ok(bytes) => {
            let file = ObjectFile { file_name: output_file_name(module_name), bytes };
            assert(written_from(unit, ast@, file.bytes@));
            assert(translated(ast@, file.bytes@));
            Ok(file)
        },
        Err(error) => Err(error),
    }
}

/// What a slot took among the first `n` instructions does not depend on
/// what comes after them.
pub proof fn lemma_defined_value_agrees(a: Seq<Instr>, b: Seq<Instr>, slot: u32, n: nat)
    requires
        n <= a.len(),
        n <= b.len(),
        forall|i: int| 0 <= i < n ==> a[i] == b[i],
    ensures
        defined_value(a, slot, n) == defined_value(b, slot, n),
    decreases n,
{
    if n > 0 {
        lemma_defined_value_agrees(a, b, slot, (n - 1) as nat);
    }
}

/// A slot that took a value has one from then on.
pub proof fn lemma_defined_value_stays(code: Seq<Instr>, slot: u32, m: nat, n: nat)
    requires
        m <= n <= code.len(),
        defined_value(code, slot, m) is Some,
    ensures
        defined_value(code, slot, n) is Some,
    decreases n,
{
    if m < n {
        lemma_defined_value_stays(code, slot, m, (n - 1) as nat);
    }
}

/// Whether every name that the state binds denotes a slot that took a
/// value, and every read in the code is of a slot that took one before.
pub open spec fn settled(st: Lowering) -> bool {
    &&& reads_defined(st.code, st.code.len())
    &&& forall|name: Seq<char>| #[trigger]
        st.table.bindings.contains_key(name) ==> defined_value(
            st.code,
            st.table.bindings[name],
            st.code.len(),
        ) is Some
}

/// A settled state stays settled when an instruction is appended that is
/// no read, or a read of a slot that took a value.
pub proof fn lemma_settled_emit(st: Lowering, instr: Instr)
    requires
        settled(st),
        instr is UseVar ==> defined_value(st.code, instr->UseVar_slot, st.code.len()) is Some,
    ensures
        settled(st.emit(instr)),
{
    let longer = st.code.push(instr);
    assert forall|i: int| 0 <= i < longer.len() && (#[trigger] longer[i]) is UseVar implies defined_value(
        longer,
        longer[i]->UseVar_slot,
        i as nat,
    ) is Some by {
        lemma_defined_value_agrees(st.code, longer, longer[i]->UseVar_slot, i as nat);
    }
    assert forall|name: Seq<char>| #[trigger]
        st.table.bindings.contains_key(name) implies defined_value(
        longer,
        st.table.bindings[name],
        longer.len(),
    ) is Some by {
        lemma_defined_value_agrees(st.code, longer, st.table.bindings[name], st.code.len());
        lemma_defined_value_stays(longer, st.table.bindings[name], st.code.len(), longer.len());
    }
}

/// A settled state stays settled when a name is bound to a slot that is
/// declared and takes a value at once.
pub proof fn lemma_settled_bind(st: Lowering, name: Seq<char>, ty: MachineType, middle: Seq<Instr>, value: usize)
    requires
        settled(st),
        middle.len() <= 1,
        forall|i: int| 0 <= i < middle.len() ==> !((#[trigger] middle[i]) is UseVar),
    ensures
        settled(
            Lowering {
                table: st.table.declare(name),
                code: (st.code.push(Instr::DeclareVar { slot: st.table.next_slot as u32, ty })
                    + middle).push(Instr::DefVar { slot: st.table.next_slot as u32, value }),
            },
        ),
{
    let slot = st.table.next_slot as u32;
    let declared = st.emit(Instr::DeclareVar { slot, ty });
    lemma_settled_emit(st, Instr::DeclareVar { slot, ty });
    let read = if middle.len() == 1 {
        declared.emit(middle[0])
    } else {
        declared
    };
    if middle.len() == 1 {
        lemma_settled_emit(declared, middle[0]);
        assert(declared.code + middle =~= declared.code.push(middle[0]));
    } else {
        assert(declared.code + middle =~= declared.code);
    }
    lemma_settled_emit(read, Instr::DefVar { slot, value });
    let last = read.emit(Instr::DefVar { slot, value });
    let bound = Lowering { table: st.table.declare(name), code: last.code };
    assert forall|other: Seq<char>| #[trigger]
        bound.table.bindings.contains_key(other) implies defined_value(
        bound.code,
        bound.table.bindings[other],
        bound.code.len(),
    ) is Some by {
        if other != name {
            assert(st.table.bindings.contains_key(other));
        }
    }
}

/// Lowering an expression from a settled state leaves a settled state.
pub proof fn lemma_lowering_settles(expr: Expression, st: Lowering)
    requires
        lowerable_expression(expr, st),
        settled(st),
    ensures
        settled(lower_expression(expr, st).state),
    decreases expr, 0nat,
{
    match expr {
        Expression::Literal(literal) => {
            lemma_settled_emit(st, literal_instr(literal));
        },
        Expression::Identifier(name) => {
            lemma_settled_emit(st, Instr::UseVar { slot: st.table.bindings[name@] });
        },
        Expression::Assignment { name, bound_expression, inferred_type } => {
            lemma_lowering_settles(*bound_expression, st);
            let bound = lower_expression(*bound_expression, st);
            let ty = inferred_type.machine_type().unwrap();
            lemma_settled_bind(bound.state, name@, ty, Seq::empty(), bound.value);
            let slot = bound.state.table.next_slot as u32;
            let after = assignment_result(name@, bound, inferred_type);
            assert(after.code =~= (bound.state.code.push(Instr::DeclareVar { slot, ty })
                + Seq::<Instr>::empty()).push(Instr::DefVar { slot, value: bound.value }));
            lemma_settled_emit(after, Instr::Const { ty: MachineType::I64, imm: 0 });
        },
        Expression::BinaryOp { operator, left, right } => {
            lemma_lowering_settles(*left, st);
            let l = lower_expression(*left, st);
            lemma_lowering_settles(*right, l.state);
            let r = lower_expression(*right, l.state);
            lemma_settled_emit(
                r.state,
                Instr::Arith { op: arith_op(operator).unwrap(), lhs: l.value, rhs: r.value },
            );
        },
        Expression::Return(inner) => {
            lemma_lowering_settles(*inner, st);
            let v = lower_expression(*inner, st);
            lemma_settled_emit(v.state, Instr::Return { value: v.value });
        },
        Expression::Block(statements) => {
            lemma_settled_emit(st, Instr::NewBlock);
            lemma_statements_settle(statements@, statements@.len(), st.emit(Instr::NewBlock));
            lemma_settled_emit(
                lower_statements(statements@, statements@.len(), st.emit(Instr::NewBlock)),
                Instr::Const { ty: MachineType::I64, imm: 0 },
            );
        },
        _ => {},
    }
}

/// Lowering statements from a settled state leaves a settled state.
pub proof fn lemma_statements_settle(statements: Seq<Expression>, n: nat, st: Lowering)
    requires
        lowerable_statements(statements, n, st),
        settled(st),
    ensures
        settled(lower_statements(statements, n, st)),
    decreases statements, n,
{
    if n > 0 && n <= statements.len() {
        lemma_statements_settle(statements, (n - 1) as nat, st);
        lemma_lowering_settles(statements[n - 1], lower_statements(statements, (n - 1) as nat, st));
    }
}

/// Binding parameters leaves a settled state.
pub proof fn lemma_parameters_settle(params: Seq<(String, SourceType)>, machine: Seq<MachineType>, k: nat)
    ensures
        settled(bind_params(params, machine, k, empty_lowering())),
    decreases k,
{
    if k == 0 || k > machine.len() || k > params.len() {
        assert(settled(empty_lowering()));
    } else {
        lemma_parameters_settle(params, machine, (k - 1) as nat);
        let before = bind_params(params, machine, (k - 1) as nat, empty_lowering());
        let slot = before.table.next_slot as u32;
        let middle = seq![Instr::Param { index: (k - 1) as usize }];
        lemma_settled_bind(
            before,
            params[k - 1].0@,
            machine[k - 1],
            middle,
            (before.code.len() + 1) as usize,
        );
        assert(bind_params(params, machine, k, empty_lowering()).code =~= (before.code.push(
            Instr::DeclareVar { slot, ty: machine[k - 1] },
        ) + middle).push(Instr::DefVar { slot, value: (before.code.len() + 1) as usize }));
    }
}

/// In the code of a lowered function every read is of a slot that took a
/// value before, so that what the code generator is asked to place for it
/// is [`placed`], no more and no less.
pub proof fn lemma_lowered_reads_defined(func: FunctionDecl)
    requires
        func.lowerable(),
    ensures
        reads_defined(func.lowered().code, func.lowered().code.len()),
{
    lemma_parameters_settle(func.params@, func.machine_params(), func.machine_params().len());
    lemma_statements_settle(func.body@, func.body@.len(), func.entry_state());
}

/// Whether the instruction is an integer constant, arithmetic, or a read
/// of a slot.
pub open spec fn quiet(instr: Instr) -> bool {
    ||| instr is Const && instr->Const_ty.is_integer()
    ||| instr is Arith
    ||| instr is UseVar
}

/// Whether the instructions from `from` up to `to` are all quiet.
pub open spec fn calm(code: Seq<Instr>, from: int, to: int) -> bool {
    forall|i: int| from <= i < to && 0 <= i < code.len() ==> quiet(#[trigger] code[i])
}

/// A plain expression is lowered to quiet instructions.
pub proof fn lemma_plain_is_calm(expr: Expression, names: Set<Seq<char>>, st: Lowering)
    requires
        plain(expr, names),
    ensures
        extends(lower_expression(expr, st).state.code, st.code),
        calm(
            lower_expression(expr, st).state.code,
            st.code.len() as int,
            lower_expression(expr, st).state.code.len() as int,
        ),
    decreases expr,
{
    lemma_lowering_appends(expr, st);
    match expr {
        Expression::BinaryOp { left, right, .. } => {
            let l = lower_expression(*left, st);
            let r = lower_expression(*right, l.state);
            lemma_plain_is_calm(*left, names, st);
            lemma_plain_is_calm(*right, names, l.state);
            let out = lower_expression(expr, st).state.code;
            assert forall|i: int| st.code.len() <= i < out.len() implies quiet(#[trigger] out[i]) by {
                if i < l.state.code.len() {
                    assert(out[i] == l.state.code[i]);
                } else if i < r.state.code.len() {
                    assert(out[i] == r.state.code[i]);
                }
            }
        },
        _ => {},
    }
}

/// Plain statements are lowered to quiet instructions.
pub proof fn lemma_plain_statements_are_calm(
    statements: Seq<Expression>,
    n: nat,
    names: Set<Seq<char>>,
    st: Lowering,
)
    requires
        n <= statements.len(),
        forall|i: int| 0 <= i < n ==> plain(#[trigger] statements[i], names),
    ensures
        extends(lower_statements(statements, n, st).code, st.code),
        calm(
            lower_statements(statements, n, st).code,
            st.code.len() as int,
            lower_statements(statements, n, st).code.len() as int,
        ),
    decreases n,
{
    if n > 0 {
        lemma_plain_statements_are_calm(statements, (n - 1) as nat, names, st);
        let before = lower_statements(statements, (n - 1) as nat, st);
        lemma_plain_is_calm(statements[n - 1], names, before);
        let out = lower_statements(statements, n, st).code;
        assert forall|i: int| st.code.len() <= i < out.len() implies quiet(#[trigger] out[i]) by {
            if i < before.code.len() {
                assert(out[i] == before.code[i]);
            }
        }
    }
}

/// Whether the three instructions from position `3 * j` bind the
/// parameter at position `j`: its slot is declared with its machine type,
/// the parameter is read, and the slot takes what was read.
pub open spec fn binds_at(code: Seq<Instr>, machine: Seq<MachineType>, j: int) -> bool {
    &&& 3 * j + 2 < code.len()
    &&& code[3 * j] == (Instr::DeclareVar { slot: j as u32, ty: machine[j] })
    &&& code[3 * j + 1] == (Instr::Param { index: j as usize })
    &&& code[3 * j + 2] == (Instr::DefVar { slot: j as u32, value: (3 * j + 1) as usize })
}

/// The instructions that bind the first `k` parameters are three for each,
/// as [`binds_at`] says.
pub proof fn lemma_binding_shape(params: Seq<(String, SourceType)>, machine: Seq<MachineType>, k: nat)
    requires
        k <= machine.len(),
        k <= params.len(),
        machine.len() <= u32::MAX,
    ensures
        bind_params(params, machine, k, empty_lowering()).code.len() == 3 * k,
        bind_params(params, machine, k, empty_lowering()).table.next_slot == k,
        forall|j: int|
            0 <= j < k ==> #[trigger] binds_at(
                bind_params(params, machine, k, empty_lowering()).code,
                machine,
                j,
            ),
    decreases k,
{
    if k > 0 {
        lemma_binding_shape(params, machine, (k - 1) as nat);
        let before = bind_params(params, machine, (k - 1) as nat, empty_lowering());
        let after = bind_params(params, machine, k, empty_lowering());
        assert(after.code == before.code.push(
            Instr::DeclareVar { slot: before.table.next_slot as u32, ty: machine[k - 1] },
        ).push(Instr::Param { index: (k - 1) as usize }).push(
            Instr::DefVar {
                slot: before.table.next_slot as u32,
                value: (before.code.len() + 1) as usize,
            },
        ));
        assert forall|j: int| 0 <= j < k implies #[trigger] binds_at(after.code, machine, j) by {
            if j < k - 1 {
                assert(binds_at(before.code, machine, j));
            }
        }
    }
}

/// Where none of the first `n` instructions is a return, the function has
/// not returned within them.
pub proof fn lemma_not_returned(code: Seq<Instr>, n: nat)
    requires
        forall|i: int| 0 <= i < n && i < code.len() ==> !((#[trigger] code[i]) is Return),
    ensures
        !returned_within(code, n),
    decreases n,
{
    if n > 0 {
        lemma_not_returned(code, (n - 1) as nat);
    }
}

/// Whether the body of `func` ends in the return of a plain expression
/// and is a straight line of plain expressions before it.
pub open spec fn returns_at_the_end(func: FunctionDecl) -> bool {
    let names = parameter_names(func.params@, func.params@.len());
    &&& func.body@.len() >= 1
    &&& func.body@.last() is Return
    &&& plain(*func.body@.last()->Return_0, names)
    &&& forall|i: int| 0 <= i < func.body@.len() - 1 ==> plain(#[trigger] func.body@[i], names)
}

/// A function of the plain kind whose body ends in its return lowers to
/// a buildable body: every parameter read is of a parameter that the
/// machine signature has, every slot takes a value of its type, all
/// constants are integers, and the return comes last.
pub proof fn lemma_plain_function_is_buildable(func: FunctionDecl)
    requires
        plain_function(func),
        returns_at_the_end(func),
        func.lowered().code.len() <= usize::MAX,
    ensures
        buildable(func.lowered().code, kinds(func.lowered().params)),
{
    let params = func.params@;
    let machine = func.machine_params();
    let names = parameter_names(params, params.len());
    let given = kinds(machine);
    lemma_machine_params_of_valued(params, params.len(), params.len());
    let k = machine.len();
    lemma_binding_shape(params, machine, k);
    let entry = func.entry_state();
    let body = func.body@;
    let m = body.len();
    let upto = lower_statements(body, (m - 1) as nat, entry);
    lemma_plain_statements_are_calm(body, (m - 1) as nat, names, entry);
    let last = body[m - 1];
    assert(last == body.last());
    let code = func.lowered().code;
    assert(code == lower_expression(last, upto).state.code);
    match last {
        Expression::Return(inner) => {
            let v = lower_expression(*inner, upto);
            lemma_plain_is_calm(*inner, names, upto);
            assert(code == v.state.code.push(Instr::Return { value: v.value }));
            let end = code.len() - 1;
            assert(code[end] is Return);
            assert forall|i: int| 0 <= i < end implies !((#[trigger] code[i]) is Return) && (i >= 3 * k
                ==> quiet(code[i])) by {
                assert(code[i] == v.state.code[i]);
                if i < 3 * k {
                    let j = i / 3;
                    assert(binds_at(entry.code, machine, j));
                    assert(v.state.code[i] == upto.code[i]);
                    assert(upto.code[i] == entry.code[i]);
                } else if i < upto.code.len() {
                    assert(v.state.code[i] == upto.code[i]);
                    assert(quiet(upto.code[i]));
                } else {
                    assert(quiet(v.state.code[i]));
                }
            }
            assert forall|j: int| 0 <= j < k implies #[trigger] binds_at(code, machine, j) by {
                assert(binds_at(entry.code, machine, j));
                assert(code[3 * j] == entry.code[3 * j]) by {
                    assert(v.state.code[3 * j] == upto.code[3 * j]);
                }
                assert(code[3 * j + 1] == entry.code[3 * j + 1]) by {
                    assert(v.state.code[3 * j + 1] == upto.code[3 * j + 1]);
                }
                assert(code[3 * j + 2] == entry.code[3 * j + 2]) by {
                    assert(v.state.code[3 * j + 2] == upto.code[3 * j + 2]);
                }
            }
            assert(returned_within(code, code.len()));
            assert forall|i: int| !#[trigger] faulty(code, given, i) by {
                if 0 <= i < code.len() {
                    lemma_not_returned(code, i as nat);
                    assert(!misplaced(code, i));
                    if i < 3 * k {
                        let j = i / 3;
                        assert(0 <= j < k);
                        assert(i == 3 * j || i == 3 * j + 1 || i == 3 * j + 2);
                        assert(binds_at(code, machine, j));
                        assert(given.len() == k);
                        assert(given[j] == Some(machine[j]));
                        if i == 3 * j + 2 {
                            assert(code[3 * j + 1] is Param);
                            assert(kind_at(code, given, (3 * j + 1) as nat) == given[j]);
                            assert(code[3 * j] is DeclareVar);
                            assert(slot_kind(code, j as u32, (3 * j + 1) as nat) == Some(machine[j]));
                            assert(slot_kind(code, j as u32, (3 * j + 2) as nat) == Some(machine[j]));
                            assert(3 * j + 1 < code.len());
                            assert(code[i]->DefVar_value == (3 * j + 1) as usize);
                            assert(code[i]->DefVar_value as nat == 3 * j + 1);
                            assert(code[i]->DefVar_slot == j as u32);
                            assert(!mistyped(code, given, i));
                        } else if i == 3 * j + 1 {
                            assert(!unread(code, given.len(), i));
                        }
                        assert(!unplaceable(code, i));
                        assert(!unread(code, given.len(), i));
                        assert(!mistyped(code, given, i));
                    } else if i < end {
                        assert(quiet(code[i]));
                    } else {
                        assert(code[i] is Return);
                    }
                }
            }
        },
        _ => {},
    }
}

} // verus!
