//! Lowering of whole functions: the machine signature, the binding of
//! parameters in the entry block, and the body.

use vstd::prelude::*;
use crate::ast::{
    any_mentions_unresolved, lemma_statement_size, size_of_first, Expression, FunctionDecl,
};
use crate::ir::{FunctionCode, FunctionCodeView, Instr};
use crate::lowering::{
    arithmetic_of, lemma_lowerable_prefix, lemma_unresolved_statements_not_lowerable, lower_expression,
    lower_statements, lowerable_expression, lowerable_statements, lowering_state,
    translate_statements, Lowering,
};
use crate::symbols::{Ctx, SymbolTable};
use crate::types::{is_unresolved, lower_type, MachineType, SourceType};

verus! {

/// The machine types of the first `n` parameters, in order, those without a
/// run-time value left out.
pub open spec fn machine_params(params: Seq<(String, SourceType)>, n: nat) -> Seq<MachineType>
    decreases n,
{
    if n == 0 || n > params.len() {
        Seq::empty()
    } else {
        let earlier = machine_params(params, (n - 1) as nat);
        match params[n - 1].1.machine_type() {
            Some(machine) => earlier.push(machine),
            None => earlier,
        }
    }
}

/// Dropping parameters never adds any.
pub proof fn lemma_machine_params_len(params: Seq<(String, SourceType)>, n: nat)
    requires
        n <= params.len(),
    ensures
        machine_params(params, n).len() <= n,
    decreases n,
{
    if n > 0 {
        lemma_machine_params_len(params, (n - 1) as nat);
    }
}

/// The state after the first `k` machine parameters are bound in the entry
/// block: for each position, the name declared at that position gets a
/// fresh slot of the machine type at that position, and the slot takes the
/// block parameter at that position.
///
/// Names and machine types are matched by position alone. Where a
/// parameter without a run-time value stands before one with a value, the
/// names after it are bound one position off.
pub open spec fn bind_params(
    params: Seq<(String, SourceType)>,
    machine: Seq<MachineType>,
    k: nat,
    st: Lowering,
) -> Lowering
    decreases k,
{
    if k == 0 || k > machine.len() || k > params.len() {
        st
    } else {
        let before = bind_params(params, machine, (k - 1) as nat, st);
        before.declare(params[k - 1].0@, machine[k - 1]).emit(
            Instr::Param { index: (k - 1) as usize },
        ).emit(
            Instr::DefVar {
                slot: before.table.next_slot as u32,
                value: (before.code.len() + 1) as usize,
            },
        )
    }
}

impl FunctionDecl {
    /// The machine types of the parameters that have a run-time value.
    pub open spec fn machine_params(self) -> Seq<MachineType> {
        machine_params(self.params@, self.params@.len())
    }

    /// The state in which the body is lowered: a fresh symbol table and an
    /// empty instruction list, with the parameters bound.
    pub open spec fn entry_state(self) -> Lowering {
        bind_params(
            self.params@,
            self.machine_params(),
            self.machine_params().len(),
            Lowering { table: SymbolTable::empty(), code: Seq::empty() },
        )
    }

    /// Whether the function can be lowered: no parameter type and no return
    /// type is a hole, the machine parameters can each have a slot, and the
    /// body can be lowered statement by statement once they are bound.
    pub open spec fn lowerable(self) -> bool {
        &&& forall|i: int| 0 <= i < self.params@.len() ==> !(#[trigger] self.params@[i]).1.is_unresolved()
        &&& !self.return_type.is_unresolved()
        &&& self.machine_params().len() <= u32::MAX
        &&& lowerable_statements(self.body@, self.body@.len(), self.entry_state())
    }

    /// Whether names and machine parameters line up: no parameter without
    /// a run-time value stands before one that has a value. Then each
    /// parameter with a value is bound to its own argument.
    pub open spec fn aligned(self) -> bool {
        forall|i: int|
            0 <= i < self.machine_params().len() && i < self.params@.len() ==> (
            #[trigger] self.params@[i]).1.has_value()
    }

    /// The function as lowered: its name, its machine signature (parameters
    /// without a run-time value dropped, no result for unit), and the
    /// instructions that bind the parameters and carry out the body.
    pub open spec fn lowered(self) -> FunctionCodeView {
        FunctionCodeView {
            name: self.name@,
            params: self.machine_params(),
            result: self.return_type.machine_type(),
            code: lower_statements(self.body@, self.body@.len(), self.entry_state()).code,
        }
    }
}

/// A function that mentions the hole cannot be lowered.
pub proof fn lemma_unresolved_not_lowerable(func: FunctionDecl)
    requires
        func.mentions_unresolved(),
    ensures
        !func.lowerable(),
{
    if any_mentions_unresolved(func.body@, func.body@.len()) {
        lemma_unresolved_statements_not_lowerable(func.body@, func.body@.len(), func.entry_state());
    }
}

/// Lowers one function to its instruction list.
pub fn lower_function(func: &FunctionDecl) -> (code: FunctionCode)
    requires
        func.lowerable(),
    ensures
        code@ == func.lowered(),
        code.wf(),
{
    let mut param_tys: Vec<MachineType> = Vec::new();
    let mut i: usize = 0;
    while i < func.params.len()
        invariant
            i <= func.params@.len(),
            forall|j: int| 0 <= j < func.params@.len() ==> !(#[trigger] func.params@[j]).1.is_unresolved(),
            param_tys@ == machine_params(func.params@, i as nat),
        decreases func.params@.len() - i,
    {
        match lower_type(&func.params[i].1) {
            Some(machine) => {
                param_tys.push(machine);
            },
            None => {},
        }
        i = i + 1;
    }
    let result = lower_type(&func.return_type);
    let mut builder = FunctionCode::new(func.name.clone(), param_tys, result);
    let mut ctx = Ctx::new();
    let ghost start = Lowering { table: SymbolTable::empty(), code: Seq::<Instr>::empty() };
    proof {
        lemma_machine_params_len(func.params@, func.params@.len());
    }
    let count = builder.params().len();
    let mut idx: usize = 0;
    while idx < count
        invariant
            idx <= count,
            count == func.machine_params().len(),
            count <= func.params@.len(),
            count <= u32::MAX,
            builder@ == (FunctionCodeView { code: builder@.code, ..func.lowered() }),
            builder.wf(),
            ctx@.wf(),
            ctx@.fits(builder@.code),
            ctx@.next_slot == idx,
            lowering_state(&ctx, &builder) == bind_params(
                func.params@,
                func.machine_params(),
                idx as nat,
                start,
            ),
        decreases count - idx,
    {
        let ty = builder.params()[idx];
        let param_var = ctx.declare_variable(func.params[idx].0.as_str(), &mut builder, ty);
        let param_val = builder.block_param(idx);
        builder.def_var(param_var, param_val);
        idx = idx + 1;
    }
    translate_statements(&func.body, &mut builder, &mut ctx);
    builder
}

/// Exec counterpart of [`lowerable_expression`], which walks the
/// expression and binds in `ctx` what lowering would bind. `code` is the
/// instruction list that lowering would start from.
fn check_expression(expr: &Expression, ctx: &mut Ctx, Ghost(code): Ghost<Seq<Instr>>) -> (ok: bool)
    requires
        old(ctx)@.wf(),
    ensures
        ok == lowerable_expression(*expr, Lowering { table: old(ctx)@, code }),
        ok ==> final(ctx)@ == lower_expression(
            *expr,
            Lowering { table: old(ctx)@, code },
        ).state.table,
        final(ctx)@.wf(),
    decreases expr.size(), 1nat,
{
    let ghost st = Lowering { table: ctx@, code };
    match expr {
        Expression::Literal(_) => true,
        Expression::Identifier(name) => ctx.get_variable(name.as_str()).is_some(),
        Expression::Assignment { name, bound_expression, inferred_type } => {
            if !check_expression(bound_expression, ctx, Ghost(code)) {
                return false;
            }
            if is_unresolved(inferred_type) || lower_type(inferred_type).is_none()
                || !ctx.has_free_slot() {
                return false;
            }
            let _ = ctx.bind(name.as_str());
            true
        },
        Expression::BinaryOp { operator, left, right } => {
            if arithmetic_of(operator).is_none() {
                return false;
            }
            if !check_expression(left, ctx, Ghost(code)) {
                return false;
            }
            check_expression(right, ctx, Ghost(lower_expression(**left, st).state.code))
        },
        Expression::Return(inner) => check_expression(inner, ctx, Ghost(code)),
        Expression::Block(b) => check_statements(b, ctx, Ghost(code.push(Instr::NewBlock))),
        Expression::FunctionDeclaration(_) | Expression::Call { .. } | Expression::Conditional { .. } => false,
    }
}

/// Exec counterpart of [`lowerable_statements`] on all of `statements`.
fn check_statements(statements: &Vec<Expression>, ctx: &mut Ctx, Ghost(code): Ghost<Seq<Instr>>) -> (ok: bool)
    requires
        old(ctx)@.wf(),
    ensures
        ok == lowerable_statements(
            statements@,
            statements@.len(),
            Lowering { table: old(ctx)@, code },
        ),
        ok ==> final(ctx)@ == lower_statements(
            statements@,
            statements@.len(),
            Lowering { table: old(ctx)@, code },
        ).table,
        final(ctx)@.wf(),
    decreases size_of_first(statements@, statements@.len()) + 1, 0nat,
{
    let ghost start = Lowering { table: ctx@, code };
    let mut i: usize = 0;
    while i < statements.len()
        invariant
            i <= statements@.len(),
            ctx@.wf(),
            start == (Lowering { table: old(ctx)@, code }),
            lowerable_statements(statements@, i as nat, start),
            ctx@ == lower_statements(statements@, i as nat, start).table,
        decreases statements@.len() - i,
    {
        proof {
            lemma_statement_size(statements@, statements@.len(), i as int);
        }
        let ghost so_far = lower_statements(statements@, i as nat, start);
        assert(so_far == Lowering { table: ctx@, code: so_far.code });
        if !check_expression(&statements[i], ctx, Ghost(so_far.code)) {
            proof {
                if lowerable_statements(statements@, statements@.len(), start) {
                    lemma_lowerable_prefix(statements@, (i + 1) as nat, statements@.len(), start);
                }
            }
            return false;
        }
        i = i + 1;
    }
    true
}

/// Whether `expr` can be lowered into `builder` with the bindings of `ctx`.
/// Neither is changed.
pub fn can_translate_expression(expr: &Expression, builder: &FunctionCode, ctx: &Ctx) -> (ok: bool)
    requires
        ctx@.wf(),
    ensures
        ok == lowerable_expression(*expr, lowering_state(ctx, builder)),
{
    let mut scratch = ctx.duplicate();
    check_expression(expr, &mut scratch, Ghost(builder@.code))
}

/// Whether `func` can be lowered.
pub fn is_lowerable(func: &FunctionDecl) -> (ok: bool)
    ensures
        ok == func.lowerable(),
{
    let mut count: usize = 0;
    let mut i: usize = 0;
    while i < func.params.len()
        invariant
            i <= func.params@.len(),
            forall|j: int| 0 <= j < i ==> !(#[trigger] func.params@[j]).1.is_unresolved(),
            count == machine_params(func.params@, i as nat).len(),
            count <= i,
        decreases func.params@.len() - i,
    {
        if is_unresolved(&func.params[i].1) {
            return false;
        }
        if lower_type(&func.params[i].1).is_some() {
            count = count + 1;
        }
        i = i + 1;
    }
    if is_unresolved(&func.return_type) || count > u32::MAX as usize {
        return false;
    }
    let mut ctx = Ctx::new();
    let ghost start = Lowering { table: SymbolTable::empty(), code: Seq::<Instr>::empty() };
    let mut idx: usize = 0;
    while idx < count
        invariant
            idx <= count,
            count == func.machine_params().len(),
            count <= func.params@.len(),
            count <= u32::MAX,
            ctx@.wf(),
            ctx@.next_slot == idx,
            ctx@ == bind_params(func.params@, func.machine_params(), idx as nat, start).table,
        decreases count - idx,
    {
        let _ = ctx.bind(func.params[idx].0.as_str());
        idx = idx + 1;
    }
    check_statements(&func.body, &mut ctx, Ghost(func.entry_state().code))
}

} // verus!
