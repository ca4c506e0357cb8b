//! The code generator, as far as this library drives it.
//!
//! Everything in this file is taken on trust: the types are Cranelift's, seen
//! from outside, and each function states what the Cranelift function it
//! calls is relied on to do. Nothing here is proved.
//!
//! A function builder is described by what its source keeps: the blocks
//! it has created, each with its fill status, whether it is sealed, and
//! its parameters; the block that instructions currently go to; the
//! variables whose type is declared, with their types; the values that
//! exist, with their types; the value that each variable holds in the
//! current block; the instructions that were placed; and the parameter
//! types of the function's signature. The `requires` of a function leaves
//! out the calls on which the builder asserts or unwraps; the `ensures`
//! says what the call does to these. A module is described by the
//! functions it declares and those it has a body for, a signature by the
//! types it lists, and an object by its bytes.
//!
//! A unit is also described by what it was made with: its name, which
//! becomes a symbol of the object, and its settings.
//!
//! What is said here is said of builders, signatures and units that were
//! made and driven through this file alone, on one machine: no branch is
//! ever placed, and every signature has the calling convention of the
//! machine and parameters as `AbiParam::new` makes them.
//!
//! Values, blocks, variables and function ids cross this boundary as the
//! `u32` index that Cranelift gives each of them. An index that Cranelift
//! hands out is below `u32::MAX`, which it keeps free as a sentinel; the
//! sets and maps named here hold indices that it handed out.

use vstd::prelude::*;
use cranelift::codegen::ir::{types, Block, InstBuilder, Signature, Type, Value};
use cranelift::codegen::ir::AbiParam;
use cranelift::codegen::settings::{Builder as SettingsBuilder, Flags};
use cranelift::codegen::Context;
use cranelift::frontend::{FunctionBuilder, FunctionBuilderContext, Variable};
use cranelift_module::{FuncId, Linkage, Module, ModuleError};
use cranelift_object::object::write::Error as WriteError;
use cranelift_object::{ObjectBuilder, ObjectModule, ObjectProduct};
use crate::types::MachineType;

verus! {

/// `cranelift_codegen::ir::Type`: the type of a value.
#[verifier::external_type_specification]
#[verifier::external_body]
pub struct ExType(Type);

/// `cranelift_codegen::ir::Signature`: parameters, results and calling
/// convention of a function.
#[verifier::external_type_specification]
#[verifier::external_body]
pub struct ExSignature(Signature);

/// `cranelift_codegen::Context`: a function and what compiling it needs.
#[verifier::external_type_specification]
#[verifier::external_body]
pub struct ExContext(Context);

/// `cranelift_frontend::FunctionBuilderContext`: scratch space of a builder.
#[verifier::external_type_specification]
#[verifier::external_body]
pub struct ExFunctionBuilderContext(FunctionBuilderContext);

/// `cranelift_frontend::FunctionBuilder`: builds one function, which it
/// borrows.
#[verifier::external_type_specification]
#[verifier::external_body]
pub struct ExFunctionBuilder<'a>(FunctionBuilder<'a>);

/// `cranelift_codegen::settings::Builder`: settings under construction.
#[verifier::external_type_specification]
#[verifier::external_body]
pub struct ExSettingsBuilder(SettingsBuilder);

/// `cranelift_codegen::settings::Flags`: settings, fixed.
#[verifier::external_type_specification]
#[verifier::external_body]
pub struct ExFlags(Flags);

/// `cranelift_module::Linkage`: how a symbol is visible. Its variants are
/// seen as they are.
#[verifier::external_type_specification]
pub struct ExLinkage(Linkage);

/// `cranelift_module::ModuleError`: why a module refused something.
#[verifier::external_type_specification]
#[verifier::external_body]
pub struct ExModuleError(ModuleError);

/// `cranelift_object::ObjectBuilder`: what an object module is made from.
#[verifier::external_type_specification]
#[verifier::external_body]
pub struct ExObjectBuilder(ObjectBuilder);

/// `cranelift_object::ObjectModule`: the compilation unit.
#[verifier::external_type_specification]
#[verifier::external_body]
pub struct ExObjectModule(ObjectModule);

/// `cranelift_object::ObjectProduct`: a finished compilation unit.
#[verifier::external_type_specification]
#[verifier::external_body]
pub struct ExObjectProduct(ObjectProduct);

/// `object::write::Error`: why an object could not be written.
#[verifier::external_type_specification]
#[verifier::external_body]
pub struct ExWriteError(WriteError);

/// How far a block has been filled.
pub enum Fill {
    /// Nothing was placed in the block.
    Empty,
    /// Instructions were placed in it, but no terminator.
    Partial,
    /// It ends in a terminator and takes no more instructions.
    Filled,
}

/// What a builder knows of one of its blocks.
pub struct BlockState {
    pub fill: Fill,
    pub sealed: bool,
}

/// The blocks that the builder has created, by index.
pub uninterp spec fn builder_blocks(builder: FunctionBuilder) -> Map<u32, BlockState>;

/// The block that instructions go to, once one was switched to.
pub uninterp spec fn builder_position(builder: FunctionBuilder) -> Option<u32>;

/// The variables whose type is declared.
pub uninterp spec fn builder_vars(builder: FunctionBuilder) -> Set<u32>;

/// The values that the function under construction holds.
pub uninterp spec fn builder_values(builder: FunctionBuilder) -> Set<u32>;

/// An instruction as the builder places it: what was asked for, and the
/// value that stands for the result. A constant is given with the kind of
/// its type and the immediate asked for, of which the instruction holds the
/// bits that the type has room for.
pub enum Placed {
    Iconst { kind: Option<MachineType>, imm: i64, result: u32 },
    Iadd { lhs: u32, rhs: u32, result: u32 },
    Isub { lhs: u32, rhs: u32, result: u32 },
    Imul { lhs: u32, rhs: u32, result: u32 },
    Sdiv { lhs: u32, rhs: u32, result: u32 },
    Return { value: u32 },
}

/// The instructions that were placed through the builder, in the order in
/// which they were placed.
pub uninterp spec fn builder_code(builder: FunctionBuilder) -> Seq<Placed>;

/// The value that each variable holds at the builder's position, for the
/// variables that took one in the current block.
pub uninterp spec fn builder_defs(builder: FunctionBuilder) -> Map<u32, u32>;

/// The type of a variable of the builder, as [`type_kind`] gives it.
pub uninterp spec fn builder_var_kind(builder: FunctionBuilder, var: u32) -> Option<MachineType>;

/// The type of a value of the function that the builder builds, as
/// [`type_kind`] gives it.
pub uninterp spec fn builder_value_kind(builder: FunctionBuilder, value: u32) -> Option<MachineType>;

/// The types of the parameters in the signature of the function that the
/// builder builds, each as [`type_kind`] gives it.
pub uninterp spec fn builder_signature(builder: FunctionBuilder) -> Seq<Option<MachineType>>;

/// The parameters of a block of the builder, in order.
pub uninterp spec fn builder_block_params(builder: FunctionBuilder, block: u32) -> Seq<u32>;

/// The types of the parameters in the signature of the function that a
/// compilation context holds, each as [`type_kind`] gives it.
pub uninterp spec fn context_params(context: Context) -> Seq<Option<MachineType>>;

/// The types of the results in the signature of the function that a
/// compilation context holds, each as [`type_kind`] gives it.
pub uninterp spec fn context_returns(context: Context) -> Seq<Option<MachineType>>;

/// Whether the scratch space of a builder holds nothing of an earlier
/// function.
pub uninterp spec fn context_is_clear(scratch: FunctionBuilderContext) -> bool;

/// Whether the function that a compilation context holds has an entry
/// block.
pub uninterp spec fn context_has_entry(context: Context) -> bool;

/// What a module knows of a function that is declared in it: the symbol,
/// the types of parameters and results as [`signature_params`] and
/// [`signature_returns`] give them, and whether the linkage is export.
pub struct Declared {
    pub name: Seq<char>,
    pub params: Seq<Option<MachineType>>,
    pub returns: Seq<Option<MachineType>>,
    pub exported: bool,
}

/// The functions declared in the module, by index.
pub uninterp spec fn module_declared(module: ObjectModule) -> Map<u32, Declared>;

/// Whether the module takes the declaration of a function under `name`
/// with these parameter and result types: the name holds no null byte and
/// is not declared with another signature. This is said of signatures that
/// `make_signature` made for this machine and `push_param` and
/// `push_return` filled.
pub uninterp spec fn declaration_accepted(
    module: ObjectModule,
    name: Seq<char>,
    params: Seq<Option<MachineType>>,
    returns: Seq<Option<MachineType>>,
) -> bool;

/// The declared functions that have a body.
pub uninterp spec fn module_defined(module: ObjectModule) -> Set<u32>;

/// Which of the four machine types a Cranelift type is, if it is one of
/// them.
pub uninterp spec fn type_kind(ty: Type) -> Option<MachineType>;

/// The types of the parameters that a signature holds, in order, each as
/// [`type_kind`] gives it.
pub uninterp spec fn signature_params(signature: Signature) -> Seq<Option<MachineType>>;

/// The types of the results that a signature holds, in order, each as
/// [`type_kind`] gives it.
pub uninterp spec fn signature_returns(signature: Signature) -> Seq<Option<MachineType>>;

/// The bytes that a finished compilation unit is written out as, or `None`
/// where the object writer refuses it.
pub uninterp spec fn product_object(product: ObjectProduct) -> Option<Seq<u8>>;

/// The bytes that a module is written out as once it is finished, or
/// `None` where the object writer refuses it.
pub uninterp spec fn module_object(module: ObjectModule) -> Option<Seq<u8>>;

/// Whether the module takes the function that the context holds as the
/// body of the function declared under `id`: the function compiles for the
/// module's machine, and the declaration can have a body and has none yet.
pub uninterp spec fn definition_accepted(module: ObjectModule, id: u32, context: Context) -> bool;

/// Whether a settings builder is one of the shared settings and holds what
/// Cranelift ships as their defaults.
pub uninterp spec fn settings_are_default(builder: SettingsBuilder) -> bool;

/// Whether the flags are the shared settings as Cranelift ships them.
pub uninterp spec fn flags_are_default(flags: Flags) -> bool;

/// What a compilation unit was made with: the name it carries as a symbol
/// of the object, and whether its shared settings are the defaults.
pub struct Made {
    pub name: Seq<char>,
    pub default_settings: bool,
}

/// What an object builder was made with.
pub uninterp spec fn object_builder_made(builder: ObjectBuilder) -> Made;

/// What a module was made with.
pub uninterp spec fn module_made(module: ObjectModule) -> Made;

/// Whether a name holds a null.
pub open spec fn has_null(name: Seq<char>) -> bool {
    exists|i: int| 0 <= i < name.len() && #[trigger] name[i] == '\0'
}

/// The functions of a module that has declared none.
pub open spec fn no_functions() -> Map<u32, Declared> {
    Map::empty()
}

/// Whether `after` still declares `id` as `before` does: under the same
/// name, with the same types, and for export if it was.
pub open spec fn declared_alike(before: ObjectModule, after: ObjectModule, id: u32) -> bool {
    &&& module_declared(after).contains_key(id)
    &&& module_declared(after)[id].name == module_declared(before)[id].name
    &&& module_declared(after)[id].params == module_declared(before)[id].params
    &&& module_declared(after)[id].returns == module_declared(before)[id].returns
    &&& module_declared(before)[id].exported ==> module_declared(after)[id].exported
}

/// Whether nothing was lost from `before` to `after`: what was declared
/// is declared alike, and what was defined is defined.
pub open spec fn keeps(before: ObjectModule, after: ObjectModule) -> bool {
    &&& forall|id: u32| #[trigger]
        module_declared(before).contains_key(id) ==> declared_alike(before, after, id)
    &&& module_defined(before).subset_of(module_defined(after))
}

/// Whether the module declares `id` under `name` with the types of
/// `signature`.
pub open spec fn declared_with(module: ObjectModule, id: u32, name: Seq<char>, signature: Signature) -> bool {
    &&& module_declared(module).contains_key(id)
    &&& module_declared(module)[id].name == name
    &&& module_declared(module)[id].params == signature_params(signature)
    &&& module_declared(module)[id].returns == signature_returns(signature)
}

/// The blocks of a builder that has created none.
pub open spec fn no_blocks() -> Map<u32, BlockState> {
    Map::empty()
}

/// Whether the type is one of the integer types among the four.
pub open spec fn is_integer_type(ty: Type) -> bool {
    type_kind(ty) is Some && type_kind(ty).unwrap().is_integer()
}

/// Whether the blocks that `before` has have the parameters in `after`
/// that they have in `before`.
pub open spec fn keeps_block_params(before: FunctionBuilder, after: FunctionBuilder) -> bool {
    forall|block: u32|
        builder_blocks(before).contains_key(block) ==> #[trigger] builder_block_params(after, block)
            == builder_block_params(before, block)
}

/// Whether the values and the declared variables of `before` have the
/// types in `after` that they have in `before`.
pub open spec fn keeps_kinds(before: FunctionBuilder, after: FunctionBuilder) -> bool {
    &&& forall|value: u32|
        builder_values(before).contains(value) ==> #[trigger] builder_value_kind(after, value)
            == builder_value_kind(before, value)
    &&& forall|var: u32|
        builder_vars(before).contains(var) ==> #[trigger] builder_var_kind(after, var)
            == builder_var_kind(before, var)
}

/// Whether `values` are as many as `kinds` and each has the type at its
/// position.
pub open spec fn typed_as(builder: FunctionBuilder, values: Seq<u32>, kinds: Seq<Option<MachineType>>) -> bool {
    &&& values.len() == kinds.len()
    &&& forall|i: int|
        0 <= i < values.len() ==> builder_value_kind(builder, #[trigger] values[i]) == kinds[i]
}

/// Whether each of `values` is a value of the function that the builder
/// builds.
pub open spec fn all_values(builder: FunctionBuilder, values: Seq<u32>) -> bool {
    forall|i: int| 0 <= i < values.len() ==> builder_values(builder).contains(#[trigger] values[i])
}

/// Whether the builder is known to take `value` as what `var` holds: the
/// variable is declared, and the value is of one of the four types and of
/// the variable's.
pub open spec fn takes(builder: FunctionBuilder, var: u32, value: u32) -> bool {
    &&& builder_vars(builder).contains(var)
    &&& builder_value_kind(builder, value) is Some
    &&& builder_value_kind(builder, value) == builder_var_kind(builder, var)
}

/// Whether the builder is known to refuse `value` as what `var` holds: the
/// variable is declared, of one of the four types, and the value is of
/// another of them.
pub open spec fn refuses(builder: FunctionBuilder, var: u32, value: u32) -> bool {
    &&& builder_vars(builder).contains(var)
    &&& builder_value_kind(builder, value) is Some
    &&& builder_var_kind(builder, var) is Some
    &&& builder_value_kind(builder, value) != builder_var_kind(builder, var)
}

/// Whether instructions can be placed: a block is current and does not end
/// in a terminator yet.
pub open spec fn is_open(builder: FunctionBuilder) -> bool {
    &&& builder_position(builder) is Some
    &&& builder_blocks(builder).contains_key(builder_position(builder).unwrap())
    &&& !(builder_blocks(builder)[builder_position(builder).unwrap()].fill is Filled)
}

/// The blocks once the current block has the fill status `fill`.
pub open spec fn blocks_with_current(builder: FunctionBuilder, fill: Fill) -> Map<u32, BlockState> {
    builder_blocks(builder).insert(
        builder_position(builder).unwrap(),
        BlockState {
            fill,
            sealed: builder_blocks(builder)[builder_position(builder).unwrap()].sealed,
        },
    )
}

/// `types::I8`, Cranelift's 8-bit integer type.
#[verifier::external_body]
pub(crate) fn type_i8() -> (ty: Type)
    ensures
        type_kind(ty) == Some(MachineType::I8),
{
    types::I8
}

/// `types::I32`, Cranelift's 32-bit integer type.
#[verifier::external_body]
pub(crate) fn type_i32() -> (ty: Type)
    ensures
        type_kind(ty) == Some(MachineType::I32),
{
    types::I32
}

/// `types::I64`, Cranelift's 64-bit integer type.
#[verifier::external_body]
pub(crate) fn type_i64() -> (ty: Type)
    ensures
        type_kind(ty) == Some(MachineType::I64),
{
    types::I64
}

/// `types::F64`, Cranelift's 64-bit float type.
#[verifier::external_body]
pub(crate) fn type_f64() -> (ty: Type)
    ensures
        type_kind(ty) == Some(MachineType::F64),
{
    types::F64
}

/// `FunctionBuilderContext::new`: scratch space that holds nothing yet.
#[verifier::external_body]
pub(crate) fn new_builder_context() -> (scratch: FunctionBuilderContext)
    ensures
        context_is_clear(scratch),
{
    FunctionBuilderContext::new()
}

/// `FunctionBuilder::new` on the function of `context`. The builder
/// asserts that the scratch space is clear. It starts with no block of its
/// own, no current block and no declared variable. It builds a function
/// with the signature that the context's function has, and no method of
/// the builder changes that signature, so the context has it again when
/// the builder is gone.
#[verifier::external_body]
pub(crate) fn new_builder<'a>(context: &'a mut Context, scratch: &'a mut FunctionBuilderContext) -> (fresh: FunctionBuilder<'a>)
    requires
        context_is_clear(*old(scratch)),
    ensures
        builder_blocks(fresh) == no_blocks(),
        builder_position(fresh) is None,
        builder_vars(fresh) == Set::<u32>::empty(),
        builder_signature(fresh) == context_params(*old(context)),
        context_params(*final(context)) == context_params(*old(context)),
        context_returns(*final(context)) == context_returns(*old(context)),
{
    FunctionBuilder::new(&mut context.func, scratch)
}

/// `FunctionBuilder::create_block`: a block that the builder did not have,
/// empty and unsealed. Nothing else changes.
#[verifier::external_body]
pub(crate) fn create_block(builder: &mut FunctionBuilder) -> (block: u32)
    ensures
        !builder_blocks(*old(builder)).contains_key(block),
        builder_blocks(*final(builder)) == builder_blocks(*old(builder)).insert(
            block,
            BlockState { fill: Fill::Empty, sealed: false },
        ),
        builder_position(*final(builder)) == builder_position(*old(builder)),
        builder_vars(*final(builder)) == builder_vars(*old(builder)),
        builder_values(*final(builder)) == builder_values(*old(builder)),
        builder_code(*final(builder)) == builder_code(*old(builder)),
        builder_defs(*final(builder)) == builder_defs(*old(builder)),
        builder_signature(*final(builder)) == builder_signature(*old(builder)),
        builder_block_params(*final(builder), block).len() == 0,
        keeps_block_params(*old(builder), *final(builder)),
        keeps_kinds(*old(builder), *final(builder)),
{
    builder.create_block().as_u32()
}

/// `FunctionBuilder::append_block_params_for_function_params`: gives the
/// block one parameter per parameter of the function's signature. The
/// builder asserts that the block is empty. Values are added, nothing else
/// changes.
#[verifier::external_body]
pub(crate) fn append_function_params(builder: &mut FunctionBuilder, block: u32)
    requires
        builder_blocks(*old(builder)).contains_key(block),
        builder_blocks(*old(builder))[block].fill is Empty,
        builder_block_params(*old(builder), block).len() == 0,
    ensures
        builder_blocks(*final(builder)) == builder_blocks(*old(builder)),
        builder_position(*final(builder)) == builder_position(*old(builder)),
        builder_vars(*final(builder)) == builder_vars(*old(builder)),
        builder_values(*old(builder)).subset_of(builder_values(*final(builder))),
        builder_code(*final(builder)) == builder_code(*old(builder)),
        builder_defs(*final(builder)) == builder_defs(*old(builder)),
        builder_signature(*final(builder)) == builder_signature(*old(builder)),
        typed_as(*final(builder), builder_block_params(*final(builder), block), builder_signature(*old(builder))),
        keeps_kinds(*old(builder), *final(builder)),
{
    builder.append_block_params_for_function_params(Block::from_u32(block))
}

/// `FunctionBuilder::switch_to_block`: makes `block` the current one. The
/// builder asserts that `block` is not filled and that the block it leaves,
/// if any, is empty or filled.
#[verifier::external_body]
pub(crate) fn switch_to_block(builder: &mut FunctionBuilder, block: u32)
    requires
        builder_blocks(*old(builder)).contains_key(block),
        !(builder_blocks(*old(builder))[block].fill is Filled),
        builder_position(*old(builder)) matches Some(current) ==> builder_blocks(
            *old(builder),
        ).contains_key(current) && !(builder_blocks(*old(builder))[current].fill is Partial),
    ensures
        builder_position(*final(builder)) == Some(block),
        builder_blocks(*final(builder)) == builder_blocks(*old(builder)),
        builder_vars(*final(builder)) == builder_vars(*old(builder)),
        builder_values(*final(builder)) == builder_values(*old(builder)),
        builder_code(*final(builder)) == builder_code(*old(builder)),
        builder_signature(*final(builder)) == builder_signature(*old(builder)),
        keeps_kinds(*old(builder), *final(builder)),
{
    builder.switch_to_block(Block::from_u32(block))
}

/// `FunctionBuilder::seal_block`: marks `block` as sealed. The builder
/// asserts that it was not sealed before. In a function without branches
/// the fill status of no block changes.
#[verifier::external_body]
pub(crate) fn seal_block(builder: &mut FunctionBuilder, block: u32)
    requires
        builder_blocks(*old(builder)).contains_key(block),
        !builder_blocks(*old(builder))[block].sealed,
    ensures
        builder_blocks(*final(builder)) == builder_blocks(*old(builder)).insert(
            block,
            BlockState { fill: builder_blocks(*old(builder))[block].fill, sealed: true },
        ),
        builder_position(*final(builder)) == builder_position(*old(builder)),
        builder_vars(*final(builder)) == builder_vars(*old(builder)),
        builder_values(*old(builder)).subset_of(builder_values(*final(builder))),
        builder_signature(*final(builder)) == builder_signature(*old(builder)),
        builder_blocks(*old(builder))[block].fill is Empty ==> builder_code(*final(builder)) == builder_code(*old(builder)),
        builder_blocks(*old(builder))[block].fill is Empty ==> builder_defs(*final(builder)) == builder_defs(*old(builder)),
        keeps_kinds(*old(builder), *final(builder)),
{
    builder.seal_block(Block::from_u32(block))
}

/// `FunctionBuilder::block_params`: the parameters of `block`, in order.
/// Each is a value of the function.
#[verifier::external_body]
pub(crate) fn block_params(builder: &FunctionBuilder, block: u32) -> (params: Vec<u32>)
    requires
        builder_blocks(*builder).contains_key(block),
    ensures
        params@ == builder_block_params(*builder, block),
        all_values(*builder, params@),
{
    builder.block_params(Block::from_u32(block)).iter().map(|v| v.as_u32()).collect()
}

/// `FunctionBuilder::declare_var`: declares the type of `var`. It panics on
/// a variable that is declared already. The type is to be one of the four:
/// a variable given the invalid type counts as not declared.
#[verifier::external_body]
pub(crate) fn declare_var(builder: &mut FunctionBuilder, var: u32, ty: Type)
    requires
        var < u32::MAX,
        !builder_vars(*old(builder)).contains(var),
        type_kind(ty) is Some,
    ensures
        builder_vars(*final(builder)) == builder_vars(*old(builder)).insert(var),
        builder_blocks(*final(builder)) == builder_blocks(*old(builder)),
        builder_position(*final(builder)) == builder_position(*old(builder)),
        builder_values(*final(builder)) == builder_values(*old(builder)),
        builder_code(*final(builder)) == builder_code(*old(builder)),
        builder_defs(*final(builder)) == builder_defs(*old(builder)),
        builder_signature(*final(builder)) == builder_signature(*old(builder)),
        keeps_block_params(*old(builder), *final(builder)),
        keeps_kinds(*old(builder), *final(builder)),
        builder_var_kind(*final(builder), var) == type_kind(ty),
{
    builder.declare_var(Variable::from_u32(var), ty)
}

/// `FunctionBuilder::try_def_var`: makes `value` the current definition of
/// `var`, and says whether the builder took it. It refuses a variable that
/// is not declared and a value of another type than the variable's, and
/// takes every other. It unwraps the current block and looks the value up.
#[verifier::external_body]
pub(crate) fn try_def_var(builder: &mut FunctionBuilder, var: u32, value: u32) -> (accepted: bool)
    requires
        var < u32::MAX,
        builder_position(*old(builder)) is Some,
        builder_values(*old(builder)).contains(value),
    ensures
        builder_blocks(*final(builder)) == builder_blocks(*old(builder)),
        builder_position(*final(builder)) == builder_position(*old(builder)),
        builder_vars(*final(builder)) == builder_vars(*old(builder)),
        builder_values(*final(builder)) == builder_values(*old(builder)),
        builder_code(*final(builder)) == builder_code(*old(builder)),
        builder_signature(*final(builder)) == builder_signature(*old(builder)),
        accepted ==> builder_defs(*final(builder)) == builder_defs(*old(builder)).insert(var, value),
        !accepted ==> builder_defs(*final(builder)) == builder_defs(*old(builder)),
        keeps_kinds(*old(builder), *final(builder)),
        takes(*old(builder), var, value) ==> accepted,
        refuses(*old(builder), var, value) ==> !accepted,
{
    builder.try_def_var(Variable::from_u32(var), Value::from_u32(value)).is_ok()
}

/// `FunctionBuilder::use_var`: the value that `var` holds at this point of
/// the current block. It panics on an undeclared variable and asserts that
/// the current block is not filled. The block counts as begun afterwards.
#[verifier::external_body]
pub(crate) fn use_var(builder: &mut FunctionBuilder, var: u32) -> (value: u32)
    requires
        var < u32::MAX,
        is_open(*old(builder)),
        builder_vars(*old(builder)).contains(var),
    ensures
        builder_values(*final(builder)).contains(value),
        builder_values(*old(builder)).subset_of(builder_values(*final(builder))),
        builder_blocks(*final(builder)) == blocks_with_current(*old(builder), Fill::Partial),
        builder_position(*final(builder)) == builder_position(*old(builder)),
        builder_vars(*final(builder)) == builder_vars(*old(builder)),
        builder_signature(*final(builder)) == builder_signature(*old(builder)),
        builder_defs(*old(builder)).submap_of(builder_defs(*final(builder))),
        builder_defs(*old(builder)).contains_key(var) ==> value == builder_defs(*old(builder))[var],
        builder_defs(*old(builder)).contains_key(var) ==> builder_code(*final(builder)) == builder_code(*old(builder)),
        keeps_kinds(*old(builder), *final(builder)),
        builder_value_kind(*final(builder), value) == builder_var_kind(*old(builder), var),
{
    builder.use_var(Variable::from_u32(var)).as_u32()
}

/// `InstBuilder::iconst` at the builder's position: places an integer
/// constant of type `ty` in the current block and yields its value. The
/// builder unwraps the current block and asserts that it is not filled.
/// The type is to be an integer type: the builder takes any, but the
/// compiler's check of a constant's range panics on another.
#[verifier::external_body]
pub(crate) fn ins_iconst(builder: &mut FunctionBuilder, ty: Type, imm: i64) -> (value: u32)
    requires
        is_integer_type(ty),
        is_open(*old(builder)),
    ensures
        builder_values(*final(builder)).contains(value),
        builder_values(*old(builder)).subset_of(builder_values(*final(builder))),
        builder_blocks(*final(builder)) == blocks_with_current(*old(builder), Fill::Partial),
        builder_position(*final(builder)) == builder_position(*old(builder)),
        builder_vars(*final(builder)) == builder_vars(*old(builder)),
        builder_defs(*final(builder)) == builder_defs(*old(builder)),
        builder_signature(*final(builder)) == builder_signature(*old(builder)),
        builder_code(*final(builder)) == builder_code(*old(builder)).push((Placed::Iconst { kind: type_kind(ty), imm, result: value })),
        keeps_kinds(*old(builder), *final(builder)),
        builder_value_kind(*final(builder), value) == type_kind(ty),
{
    builder.ins().iconst(ty, imm).as_u32()
}

/// `InstBuilder::iadd` at the builder's position: places a wrapping
/// addition of two values in the current block and yields the sum. The
/// builder unwraps the current block, asserts that it is not filled, and
/// looks up the type of the first operand.
#[verifier::external_body]
pub(crate) fn ins_iadd(builder: &mut FunctionBuilder, lhs: u32, rhs: u32) -> (value: u32)
    requires
        is_open(*old(builder)),
        builder_values(*old(builder)).contains(lhs),
        builder_values(*old(builder)).contains(rhs),
    ensures
        builder_values(*final(builder)).contains(value),
        builder_values(*old(builder)).subset_of(builder_values(*final(builder))),
        builder_blocks(*final(builder)) == blocks_with_current(*old(builder), Fill::Partial),
        builder_position(*final(builder)) == builder_position(*old(builder)),
        builder_vars(*final(builder)) == builder_vars(*old(builder)),
        builder_defs(*final(builder)) == builder_defs(*old(builder)),
        builder_signature(*final(builder)) == builder_signature(*old(builder)),
        builder_code(*final(builder)) == builder_code(*old(builder)).push((Placed::Iadd { lhs, rhs, result: value })),
        keeps_kinds(*old(builder), *final(builder)),
        builder_value_kind(*final(builder), value) == builder_value_kind(*old(builder), lhs),
{
    builder.ins().iadd(Value::from_u32(lhs), Value::from_u32(rhs)).as_u32()
}

/// `InstBuilder::isub` at the builder's position: as [`ins_iadd`], for a
/// wrapping subtraction.
#[verifier::external_body]
pub(crate) fn ins_isub(builder: &mut FunctionBuilder, lhs: u32, rhs: u32) -> (value: u32)
    requires
        is_open(*old(builder)),
        builder_values(*old(builder)).contains(lhs),
        builder_values(*old(builder)).contains(rhs),
    ensures
        builder_values(*final(builder)).contains(value),
        builder_values(*old(builder)).subset_of(builder_values(*final(builder))),
        builder_blocks(*final(builder)) == blocks_with_current(*old(builder), Fill::Partial),
        builder_position(*final(builder)) == builder_position(*old(builder)),
        builder_vars(*final(builder)) == builder_vars(*old(builder)),
        builder_defs(*final(builder)) == builder_defs(*old(builder)),
        builder_signature(*final(builder)) == builder_signature(*old(builder)),
        builder_code(*final(builder)) == builder_code(*old(builder)).push((Placed::Isub { lhs, rhs, result: value })),
        keeps_kinds(*old(builder), *final(builder)),
        builder_value_kind(*final(builder), value) == builder_value_kind(*old(builder), lhs),
{
    builder.ins().isub(Value::from_u32(lhs), Value::from_u32(rhs)).as_u32()
}

/// `InstBuilder::imul` at the builder's position: as [`ins_iadd`], for a
/// wrapping multiplication.
#[verifier::external_body]
pub(crate) fn ins_imul(builder: &mut FunctionBuilder, lhs: u32, rhs: u32) -> (value: u32)
    requires
        is_open(*old(builder)),
        builder_values(*old(builder)).contains(lhs),
        builder_values(*old(builder)).contains(rhs),
    ensures
        builder_values(*final(builder)).contains(value),
        builder_values(*old(builder)).subset_of(builder_values(*final(builder))),
        builder_blocks(*final(builder)) == blocks_with_current(*old(builder), Fill::Partial),
        builder_position(*final(builder)) == builder_position(*old(builder)),
        builder_vars(*final(builder)) == builder_vars(*old(builder)),
        builder_defs(*final(builder)) == builder_defs(*old(builder)),
        builder_signature(*final(builder)) == builder_signature(*old(builder)),
        builder_code(*final(builder)) == builder_code(*old(builder)).push((Placed::Imul { lhs, rhs, result: value })),
        keeps_kinds(*old(builder), *final(builder)),
        builder_value_kind(*final(builder), value) == builder_value_kind(*old(builder), lhs),
{
    builder.ins().imul(Value::from_u32(lhs), Value::from_u32(rhs)).as_u32()
}

/// `InstBuilder::sdiv` at the builder's position: as [`ins_iadd`], for a
/// signed division that rounds toward zero.
#[verifier::external_body]
pub(crate) fn ins_sdiv(builder: &mut FunctionBuilder, lhs: u32, rhs: u32) -> (value: u32)
    requires
        is_open(*old(builder)),
        builder_values(*old(builder)).contains(lhs),
        builder_values(*old(builder)).contains(rhs),
    ensures
        builder_values(*final(builder)).contains(value),
        builder_values(*old(builder)).subset_of(builder_values(*final(builder))),
        builder_blocks(*final(builder)) == blocks_with_current(*old(builder), Fill::Partial),
        builder_position(*final(builder)) == builder_position(*old(builder)),
        builder_vars(*final(builder)) == builder_vars(*old(builder)),
        builder_defs(*final(builder)) == builder_defs(*old(builder)),
        builder_signature(*final(builder)) == builder_signature(*old(builder)),
        builder_code(*final(builder)) == builder_code(*old(builder)).push((Placed::Sdiv { lhs, rhs, result: value })),
        keeps_kinds(*old(builder), *final(builder)),
        builder_value_kind(*final(builder), value) == builder_value_kind(*old(builder), lhs),
{
    builder.ins().sdiv(Value::from_u32(lhs), Value::from_u32(rhs)).as_u32()
}

/// `InstBuilder::return_` at the builder's position: places a return of
/// one value in the current block, which is filled by it. The builder
/// unwraps the current block and asserts that it was not filled before.
#[verifier::external_body]
pub(crate) fn ins_return(builder: &mut FunctionBuilder, value: u32)
    requires
        is_open(*old(builder)),
        builder_values(*old(builder)).contains(value),
    ensures
        builder_blocks(*final(builder)) == blocks_with_current(*old(builder), Fill::Filled),
        builder_position(*final(builder)) == builder_position(*old(builder)),
        builder_vars(*final(builder)) == builder_vars(*old(builder)),
        builder_values(*old(builder)).subset_of(builder_values(*final(builder))),
        builder_defs(*final(builder)) == builder_defs(*old(builder)),
        builder_signature(*final(builder)) == builder_signature(*old(builder)),
        builder_code(*final(builder)) == builder_code(*old(builder)).push((Placed::Return { value })),
        keeps_kinds(*old(builder), *final(builder)),
{
    builder.ins().return_(&[Value::from_u32(value)]);
}

/// `FunctionBuilder::finalize`: ends the construction of the function. The
/// builder asserts that every block that is not empty is sealed and
/// filled.
#[verifier::external_body]
pub(crate) fn finalize(builder: FunctionBuilder)
    requires
        forall|block: u32| #[trigger]
            builder_blocks(builder).contains_key(block) ==> builder_blocks(builder)[block].fill
                is Empty || (builder_blocks(builder)[block].fill is Filled && builder_blocks(
                builder,
            )[block].sealed),
{
    builder.finalize()
}

/// `Module::make_signature`: an empty signature with the calling
/// convention of the module's target.
#[verifier::external_body]
pub(crate) fn make_signature(module: &ObjectModule) -> (signature: Signature)
    ensures
        signature_params(signature).len() == 0,
        signature_returns(signature).len() == 0,
{
    module.make_signature()
}

/// Appends a parameter of type `ty` to `signature.params`, as
/// `AbiParam::new` makes it. The results stay as they are.
#[verifier::external_body]
pub(crate) fn push_param(signature: &mut Signature, ty: Type)
    ensures
        signature_params(*final(signature)) == signature_params(*old(signature)).push(type_kind(ty)),
        signature_returns(*final(signature)) == signature_returns(*old(signature)),
{
    signature.params.push(AbiParam::new(ty))
}

/// Appends a result of type `ty` to `signature.returns`, as
/// `AbiParam::new` makes it. The parameters stay as they are.
#[verifier::external_body]
pub(crate) fn push_return(signature: &mut Signature, ty: Type)
    ensures
        signature_returns(*final(signature)) == signature_returns(*old(signature)).push(type_kind(ty)),
        signature_params(*final(signature)) == signature_params(*old(signature)),
{
    signature.returns.push(AbiParam::new(ty))
}

/// `Module::make_context`: a compilation context with an empty function.
#[verifier::external_body]
pub(crate) fn make_context(module: &ObjectModule) -> Context {
    module.make_context()
}

/// Gives the function of `context` the signature `signature`.
#[verifier::external_body]
pub(crate) fn set_signature(context: &mut Context, signature: Signature)
    ensures
        context_params(*final(context)) == signature_params(signature),
        context_returns(*final(context)) == signature_returns(signature),
{
    context.func.signature = signature;
}

/// `Module::declare_function` on an object module. Whether it succeeds is
/// what [`declaration_accepted`] names. On success the module declares the
/// function under the index handed back, with the name and the types
/// given, and for export where that is the linkage asked for; the index is
/// new, or the function was declared under it alike. Nothing else is
/// declared anew, nothing declared is lost, and on failure nothing is
/// declared anew at all. Definitions are untouched.
#[verifier::external_body]
pub(crate) fn declare_function(module: &mut ObjectModule, name: &str, linkage: Linkage, signature: &Signature) -> (declared: Result<u32, ModuleError>)
    ensures
        module_defined(*final(module)) == module_defined(*old(module)),
        keeps(*old(module), *final(module)),
        declared is Ok <==> declaration_accepted(
            *old(module),
            name@,
            signature_params(*signature),
            signature_returns(*signature),
        ),
        declared matches Ok(id) ==> declared_with(*final(module), id, name@, *signature),
        declared matches Ok(id) ==> linkage is Export ==> module_declared(*final(module))[id].exported,
        declared matches Ok(id) ==> module_declared(*final(module)).dom() == module_declared(
            *old(module),
        ).dom().insert(id),
        declared is Err ==> module_declared(*final(module)).dom() == module_declared(
            *old(module),
        ).dom(),
        module_made(*final(module)) == module_made(*old(module)),
{
    module.declare_function(name, linkage, signature).map(|id| id.as_u32())
}

/// Whether the layout of the context's function has an entry block.
#[verifier::external_body]
pub(crate) fn has_entry_block(context: &Context) -> (has: bool)
    ensures
        has == context_has_entry(*context),
{
    context.func.layout.entry_block().is_some()
}

/// `Module::define_function` on an object module: compiles the function
/// of `context` as the body of a declared function. The module unwraps
/// the function's declaration, and the compiler the function's entry
/// block. Whether it succeeds is what [`definition_accepted`] names. On
/// success the function counts as defined; on failure nothing is defined
/// that was not before. Declarations are untouched.
#[verifier::external_body]
pub(crate) fn define_function(module: &mut ObjectModule, id: u32, context: &mut Context) -> (defined: Result<(), ModuleError>)
    requires
        module_declared(*old(module)).contains_key(id),
        context_has_entry(*old(context)),
    ensures
        module_declared(*final(module)) == module_declared(*old(module)),
        defined is Ok <==> definition_accepted(*old(module), id, *old(context)),
        defined is Ok ==> module_defined(*final(module)) == module_defined(*old(module)).insert(id),
        defined is Err ==> module_defined(*final(module)) == module_defined(*old(module)),
        module_made(*final(module)) == module_made(*old(module)),
{
    module.define_function(FuncId::from_u32(id), context)
}

/// `ModuleError`'s `Display` text.
#[verifier::external_body]
pub(crate) fn describe_module_error(error: &ModuleError) -> String {
    error.to_string()
}

/// `settings::builder`: a builder of the shared settings that holds
/// Cranelift's defaults.
#[verifier::external_body]
pub(crate) fn settings_builder() -> (builder: SettingsBuilder)
    ensures
        settings_are_default(builder),
{
    cranelift::codegen::settings::builder()
}

/// `Flags::new`: the flags that a settings builder holds. It asserts that
/// the builder is one of the shared settings.
#[verifier::external_body]
pub(crate) fn flags_of(builder: SettingsBuilder) -> (flags: Flags)
    requires
        settings_are_default(builder),
    ensures
        flags_are_default(flags),
{
    Flags::new(builder)
}

/// An object builder for the machine this runs on: `cranelift_native`'s
/// `builder`, its `finish` with `flags`, and `ObjectBuilder::new` on the
/// target it gives, under `name` and with
/// `cranelift_module::default_libcall_names`. The three share one function
/// because what passes between them are trait objects, which verified code
/// cannot hold. Each can fail; the text of the failure is handed back.
/// The name is to hold no null byte: it becomes a symbol of the object,
/// and the object writer asserts that of every symbol it writes.
#[verifier::external_body]
pub(crate) fn host_object_builder(flags: Flags, name: &str) -> (made: Result<ObjectBuilder, String>)
    requires
        !has_null(name@),
    ensures
        made matches Ok(builder) ==> object_builder_made(builder) == (Made {
            name: name@,
            default_settings: flags_are_default(flags),
        }),
{
    let isa_builder = cranelift_native::builder().map_err(|e| e.to_string())?;
    let isa = isa_builder.finish(flags).map_err(|e| e.to_string())?;
    ObjectBuilder::new(isa, name, cranelift_module::default_libcall_names()).map_err(|e| e.to_string())
}

/// `ObjectModule::new`: a module that declares and defines nothing yet.
#[verifier::external_body]
pub(crate) fn new_object_module(builder: ObjectBuilder) -> (module: ObjectModule)
    ensures
        module_declared(module) == no_functions(),
        module_defined(module) == Set::<u32>::empty(),
        module_made(module) == object_builder_made(builder),
{
    ObjectModule::new(builder)
}

/// `ObjectModule::finish`: the object that the module's functions make up.
/// What it is written out as is what the module is written out as: no
/// hash map is walked and nothing but the module is read on the way.
#[verifier::external_body]
pub(crate) fn finish_module(module: ObjectModule) -> (product: ObjectProduct)
    ensures
        product_object(product) == module_object(module),
{
    module.finish()
}

/// `ObjectProduct::emit`: the bytes of the object file, or the writer's
/// refusal.
#[verifier::external_body]
pub(crate) fn emit_product(product: ObjectProduct) -> (written: Result<Vec<u8>, WriteError>)
    ensures
        written matches Ok(bytes) ==> product_object(product) == Some(bytes@),
        written is Err ==> product_object(product) is None,
{
    product.emit()
}

/// The `Display` text of an object writer's error.
#[verifier::external_body]
pub(crate) fn describe_write_error(error: &WriteError) -> String {
    error.to_string()
}

} // verus!
