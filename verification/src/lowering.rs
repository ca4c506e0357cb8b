//! Lowering of expressions: the recursive translation of one syntax tree
//! node into instructions, one case per kind of node.

use vstd::prelude::*;
use crate::ast::{
    any_mentions_unresolved, lemma_statement_size, size_of_first, Expression, Literal, Operator,
};
use crate::ir::{code_ok, extends, ArithOp, FunctionCode, FunctionCodeView, Instr};
use crate::symbols::{Ctx, SymbolTable};
use crate::types::{lower_type, MachineType, SourceType};

verus! {

/// The state that lowering threads through a function: the symbol table
/// and the instructions emitted so far.
pub struct Lowering {
    pub table: SymbolTable,
    pub code: Seq<Instr>,
}

/// A lowering state together with the value that the expression just
/// lowered yields.
pub struct Lowered {
    pub state: Lowering,
    pub value: usize,
}

impl Lowering {
    /// The state after one more instruction.
    pub open spec fn emit(self, instr: Instr) -> Lowering {
        Lowering { code: self.code.push(instr), ..self }
    }

    /// The state after one more instruction, and the value it yields.
    pub open spec fn yielding(self, instr: Instr) -> Lowered {
        Lowered { state: self.emit(instr), value: self.code.len() as usize }
    }

    /// The state after `name` is declared with type `ty`: the next slot is
    /// declared in the code and the name is bound to it.
    pub open spec fn declare(self, name: Seq<char>, ty: MachineType) -> Lowering {
        Lowering {
            table: self.table.declare(name),
            code: self.code.push(Instr::DeclareVar { slot: self.table.next_slot as u32, ty }),
        }
    }

    /// Whether table and code are each in order and belong together, for a
    /// function of `params` machine parameters.
    pub open spec fn wf(self, params: nat) -> bool {
        &&& self.table.wf()
        &&& self.table.fits(self.code)
        &&& code_ok(self.code, params)
    }
}

/// The state that a symbol table and a function under construction make up.
pub open spec fn lowering_state(ctx: &Ctx, builder: &FunctionCode) -> Lowering {
    Lowering { table: ctx@, code: builder@.code }
}

/// The constant that stands for a literal: one byte holding 0 or 1 for a
/// boolean, four bytes for an integer.
pub open spec fn literal_instr(literal: Literal) -> Instr {
    match literal {
        Literal::Bool(b) => Instr::Const { ty: MachineType::I8, imm: if b { 1i64 } else { 0i64 } },
        Literal::Int(i) => Instr::Const { ty: MachineType::I32, imm: i as i64 },
    }
}

/// The arithmetic that an operator lowers to, if lowering knows the
/// operator.
pub open spec fn arith_op(operator: Operator) -> Option<ArithOp> {
    match operator {
        Operator::Plus => Some(ArithOp::Add),
        Operator::Minus => Some(ArithOp::Sub),
        Operator::Times => Some(ArithOp::Mul),
        Operator::Divide => Some(ArithOp::SignedDiv),
        Operator::Equal | Operator::Less => None,
    }
}

/// Exec counterpart of [`arith_op`].
pub fn arithmetic_of(operator: &Operator) -> (op: Option<ArithOp>)
    ensures
        op == arith_op(*operator),
{
    match operator {
        Operator::Plus => Some(ArithOp::Add),
        Operator::Minus => Some(ArithOp::Sub),
        Operator::Times => Some(ArithOp::Mul),
        Operator::Divide => Some(ArithOp::SignedDiv),
        Operator::Equal | Operator::Less => None,
    }
}

/// The placeholder that expressions without a value of their own yield: a
/// null of pointer width.
pub open spec fn placeholder(st: Lowering) -> Lowered {
    st.yielding(Instr::Const { ty: MachineType::I64, imm: 0 })
}

/// A binary operation once both operands are lowered, left first: one
/// arithmetic instruction on their values.
pub open spec fn infix_result(operator: Operator, left: Lowered, right: Lowered) -> Lowered {
    right.state.yielding(
        Instr::Arith { op: arith_op(operator).unwrap(), lhs: left.value, rhs: right.value },
    )
}

/// An assignment once its right-hand side is lowered: a new slot of the
/// recorded type is declared under the name and takes the value.
pub open spec fn assignment_result(name: Seq<char>, bound: Lowered, ty: SourceType) -> Lowering {
    bound.state.declare(name, ty.machine_type().unwrap()).emit(
        Instr::DefVar { slot: bound.state.table.next_slot as u32, value: bound.value },
    )
}

/// What lowering `expr` from state `st` emits, binds and yields.
///
/// On an expression that lowering has no case for the state is left as it
/// is; [`lowerable_expression`] rules those out.
pub open spec fn lower_expression(expr: Expression, st: Lowering) -> Lowered
    decreases expr, 0nat,
{
    match expr {
        Expression::Literal(literal) => st.yielding(literal_instr(literal)),
        Expression::Identifier(name) => st.yielding(
            Instr::UseVar { slot: st.table.bindings[name@] },
        ),
        Expression::Assignment { name, bound_expression, inferred_type } => placeholder(
            assignment_result(name@, lower_expression(*bound_expression, st), inferred_type),
        ),
        Expression::BinaryOp { operator, left, right } => {
            let l = lower_expression(*left, st);
            let r = lower_expression(*right, l.state);
            infix_result(operator, l, r)
        },
        Expression::Return(inner) => {
            let v = lower_expression(*inner, st);
            Lowered { state: v.state.emit(Instr::Return { value: v.value }), value: v.value }
        },
        Expression::Block(statements) => placeholder(
            lower_statements(statements@, statements@.len(), st.emit(Instr::NewBlock)),
        ),
        Expression::FunctionDeclaration(_) | Expression::Call { .. } | Expression::Conditional { .. } => Lowered { state: st, value: 0 },
    }
}

/// The state after the first `n` of `statements` are lowered in order from
/// `st`, the value of each being dropped.
pub open spec fn lower_statements(statements: Seq<Expression>, n: nat, st: Lowering) -> Lowering
    decreases statements, n,
{
    if n == 0 || n > statements.len() {
        st
    } else {
        lower_expression(statements[n - 1], lower_statements(statements, (n - 1) as nat, st)).state
    }
}

/// Whether `expr` can be lowered from state `st`: every node is a literal,
/// a bound identifier, an assignment whose recorded type has a run-time
/// value, arithmetic with one of the four known operators, a return or a
/// block, and a fresh slot is left for each assignment.
pub open spec fn lowerable_expression(expr: Expression, st: Lowering) -> bool
    decreases expr, 0nat,
{
    match expr {
        Expression::Literal(_) => true,
        Expression::Identifier(name) => st.table.bindings.contains_key(name@),
        Expression::Assignment { bound_expression, inferred_type, .. } => {
            &&& lowerable_expression(*bound_expression, st)
            &&& inferred_type.has_value()
            &&& lower_expression(*bound_expression, st).state.table.next_slot < u32::MAX
        },
        Expression::BinaryOp { operator, left, right } => {
            &&& arith_op(operator) is Some
            &&& lowerable_expression(*left, st)
            &&& lowerable_expression(*right, lower_expression(*left, st).state)
        },
        Expression::Return(inner) => lowerable_expression(*inner, st),
        Expression::Block(statements) => lowerable_statements(
            statements@,
            statements@.len(),
            st.emit(Instr::NewBlock),
        ),
        Expression::FunctionDeclaration(_) | Expression::Call { .. } | Expression::Conditional { .. } => false,
    }
}

/// Whether the first `n` of `statements` can be lowered in order from `st`.
pub open spec fn lowerable_statements(statements: Seq<Expression>, n: nat, st: Lowering) -> bool
    decreases statements, n,
{
    if n == 0 {
        true
    } else if n > statements.len() {
        false
    } else {
        &&& lowerable_statements(statements, (n - 1) as nat, st)
        &&& lowerable_expression(
            statements[n - 1],
            lower_statements(statements, (n - 1) as nat, st),
        )
    }
}

/// Statements that can be lowered up to the `n`-th can be lowered up to any
/// earlier one.
pub proof fn lemma_lowerable_prefix(statements: Seq<Expression>, m: nat, n: nat, st: Lowering)
    requires
        m <= n,
        lowerable_statements(statements, n, st),
    ensures
        lowerable_statements(statements, m, st),
    decreases n,
{
    if m < n {
        lemma_lowerable_prefix(statements, m, (n - 1) as nat, st);
    }
}

/// An expression that mentions the hole cannot be lowered, whatever is
/// bound and whatever was emitted before.
pub proof fn lemma_unresolved_expression_not_lowerable(expr: Expression, st: Lowering)
    requires
        expr.mentions_unresolved(),
    ensures
        !lowerable_expression(expr, st),
    decreases expr, 0nat,
{
    match expr {
        Expression::Assignment { bound_expression, inferred_type, .. } => {
            if bound_expression.mentions_unresolved() {
                lemma_unresolved_expression_not_lowerable(*bound_expression, st);
            }
        },
        Expression::BinaryOp { left, right, .. } => {
            if left.mentions_unresolved() {
                lemma_unresolved_expression_not_lowerable(*left, st);
            } else {
                lemma_unresolved_expression_not_lowerable(*right, lower_expression(*left, st).state);
            }
        },
        Expression::Return(inner) => {
            lemma_unresolved_expression_not_lowerable(*inner, st);
        },
        Expression::Block(statements) => {
            lemma_unresolved_statements_not_lowerable(
                statements@,
                statements@.len(),
                st.emit(Instr::NewBlock),
            );
        },
        _ => {},
    }
}

/// Statements of which one mentions the hole cannot be lowered.
pub proof fn lemma_unresolved_statements_not_lowerable(
    statements: Seq<Expression>,
    n: nat,
    st: Lowering,
)
    requires
        any_mentions_unresolved(statements, n),
    ensures
        !lowerable_statements(statements, n, st),
    decreases statements, n,
{
    if any_mentions_unresolved(statements, (n - 1) as nat) {
        lemma_unresolved_statements_not_lowerable(statements, (n - 1) as nat, st);
    } else {
        lemma_unresolved_expression_not_lowerable(
            statements[n - 1],
            lower_statements(statements, (n - 1) as nat, st),
        );
    }
}

/// Division is lowered to signed division: once both operands are lowered,
/// left first, one instruction divides the value of the left by the value
/// of the right as signed integers, and its value is the quotient's.
pub proof fn lemma_division_is_signed(left: Box<Expression>, right: Box<Expression>, st: Lowering)
    ensures
        ({
            let l = lower_expression(*left, st);
            let r = lower_expression(*right, l.state);
            let out = lower_expression(
                Expression::BinaryOp { operator: Operator::Divide, left, right },
                st,
            );
            &&& out.state.code == r.state.code.push(
                Instr::Arith { op: ArithOp::SignedDiv, lhs: l.value, rhs: r.value },
            )
            &&& out.state.table == r.state.table
            &&& out.value == r.state.code.len() as usize
        }),
{
}

/// Assigning to a name rebinds it: after the assignment is lowered the name
/// denotes a slot that no name denoted before, the code declares that slot
/// and stores the value of the right-hand side in it, and every other name
/// denotes what it denoted once the right-hand side was lowered.
pub proof fn lemma_assignment_rebinds(
    name: String,
    bound_expression: Box<Expression>,
    inferred_type: SourceType,
    st: Lowering,
    other: Seq<char>,
)
    requires
        lower_expression(*bound_expression, st).state.table.wf(),
        lower_expression(*bound_expression, st).state.table.next_slot < u32::MAX,
    ensures
        ({
            let bound = lower_expression(*bound_expression, st);
            let slot = bound.state.table.next_slot as u32;
            let after = lower_expression(
                Expression::Assignment { name, bound_expression, inferred_type },
                st,
            ).state;
            &&& after.table.lookup(name@) == Some(slot)
            &&& forall|earlier: Seq<char>| #[trigger]
                bound.state.table.bindings.contains_key(earlier)
                    ==> bound.state.table.bindings[earlier] != slot
            &&& other != name@ ==> after.table.lookup(other) == bound.state.table.lookup(other)
            &&& after.code == bound.state.code.push(
                Instr::DeclareVar { slot, ty: inferred_type.machine_type().unwrap() },
            ).push(Instr::DefVar { slot, value: bound.value }).push(
                Instr::Const { ty: MachineType::I64, imm: 0 },
            )
        }),
{
}

/// Whether symbol table, function and value after a lowering step are
/// those of `out`, the function's name and signature being those of
/// `before`.
pub open spec fn lowered_to(
    out: Lowered,
    ctx: SymbolTable,
    builder: FunctionCodeView,
    before: FunctionCodeView,
    value: usize,
) -> bool {
    &&& ctx == out.state.table
    &&& builder == (FunctionCodeView { code: out.state.code, ..before })
    &&& value == out.value
}

/// Emits the constant for a literal and yields its value.
pub fn translate_literal(literal: &Literal, builder: &mut FunctionCode) -> (value: usize)
    requires
        old(builder).wf(),
    ensures
        final(builder)@ == old(builder)@.push(literal_instr(*literal)),
        final(builder).wf(),
        final(builder)@.declared() == old(builder)@.declared(),
        value == old(builder)@.code.len(),
{
    match literal {
        Literal::Bool(b) => builder.iconst(MachineType::I8, if *b { 1 } else { 0 }),
        Literal::Int(i) => builder.iconst(MachineType::I32, *i as i64),
    }
}

/// Lowers the right-hand side, then declares a new slot for `ident` with
/// the machine type of `ty` and stores the value in it.
pub fn translate_assignment(
    ident: &str,
    binding: &Expression,
    ty: &SourceType,
    builder: &mut FunctionCode,
    ctx: &mut Ctx,
)
    requires
        old(builder).wf(),
        old(ctx)@.wf(),
        old(ctx)@.fits(old(builder)@.code),
        lowerable_expression(*binding, lowering_state(old(ctx), old(builder))),
        ty.has_value(),
        lower_expression(*binding, lowering_state(old(ctx), old(builder))).state.table.next_slot
            < u32::MAX,
    ensures
        final(ctx)@ == assignment_result(
            ident@,
            lower_expression(*binding, lowering_state(old(ctx), old(builder))),
            *ty,
        ).table,
        final(builder)@ == (FunctionCodeView {
            code: assignment_result(
                ident@,
                lower_expression(*binding, lowering_state(old(ctx), old(builder))),
                *ty,
            ).code,
            ..old(builder)@
        }),
        final(builder).wf(),
        final(ctx)@.wf(),
        final(ctx)@.fits(final(builder)@.code),
        extends(final(builder)@.code, old(builder)@.code),
    decreases binding.size() + 1, 0nat,
{
    let val = translate_expression(binding, builder, ctx);
    let machine = lower_type(ty).unwrap();
    let var = ctx.declare_variable(ident, builder, machine);
    builder.def_var(var, val);
}

/// Lowers both operands, left first, then emits the arithmetic that the
/// operator stands for on their values.
pub fn translate_infix(
    operation: &Operator,
    lhs: &Expression,
    rhs: &Expression,
    builder: &mut FunctionCode,
    ctx: &mut Ctx,
) -> (value: usize)
    requires
        old(builder).wf(),
        old(ctx)@.wf(),
        old(ctx)@.fits(old(builder)@.code),
        arith_op(*operation) is Some,
        lowerable_expression(*lhs, lowering_state(old(ctx), old(builder))),
        lowerable_expression(
            *rhs,
            lower_expression(*lhs, lowering_state(old(ctx), old(builder))).state,
        ),
    ensures
        lowered_to(
            infix_result(
                *operation,
                lower_expression(*lhs, lowering_state(old(ctx), old(builder))),
                lower_expression(
                    *rhs,
                    lower_expression(*lhs, lowering_state(old(ctx), old(builder))).state,
                ),
            ),
            final(ctx)@,
            final(builder)@,
            old(builder)@,
            value,
        ),
        final(builder).wf(),
        final(ctx)@.wf(),
        final(ctx)@.fits(final(builder)@.code),
        extends(final(builder)@.code, old(builder)@.code),
        final(builder)@.is_value(value),
    decreases lhs.size() + rhs.size() + 1, 0nat,
{
    let left_val = translate_expression(lhs, builder, ctx);
    let right_val = translate_expression(rhs, builder, ctx);
    let op = arithmetic_of(operation).unwrap();
    builder.arith(op, left_val, right_val)
}

/// Lowers `statements` in order into the current block, dropping the value
/// each one yields.
pub fn translate_statements(statements: &Vec<Expression>, builder: &mut FunctionCode, ctx: &mut Ctx)
    requires
        old(builder).wf(),
        old(ctx)@.wf(),
        old(ctx)@.fits(old(builder)@.code),
        lowerable_statements(
            statements@,
            statements@.len(),
            lowering_state(old(ctx), old(builder)),
        ),
    ensures
        final(ctx)@ == lower_statements(
            statements@,
            statements@.len(),
            lowering_state(old(ctx), old(builder)),
        ).table,
        final(builder)@ == (FunctionCodeView {
            code: lower_statements(
                statements@,
                statements@.len(),
                lowering_state(old(ctx), old(builder)),
            ).code,
            ..old(builder)@
        }),
        final(builder).wf(),
        final(ctx)@.wf(),
        final(ctx)@.fits(final(builder)@.code),
        extends(final(builder)@.code, old(builder)@.code),
    decreases size_of_first(statements@, statements@.len()) + 1, 0nat,
{
    let ghost start = lowering_state(ctx, builder);
    let mut i: usize = 0;
    while i < statements.len()
        invariant
            i <= statements@.len(),
            lowerable_statements(statements@, statements@.len(), start),
            builder.wf(),
            ctx@.wf(),
            ctx@.fits(builder@.code),
            lowering_state(ctx, builder) == lower_statements(statements@, i as nat, start),
            builder@ == (FunctionCodeView { code: builder@.code, ..old(builder)@ }),
            extends(builder@.code, old(builder)@.code),
        decreases statements@.len() - i,
    {
        proof {
            lemma_lowerable_prefix(statements@, (i + 1) as nat, statements@.len(), start);
            lemma_statement_size(statements@, statements@.len(), i as int);
        }
        let _ = translate_expression(&statements[i], builder, ctx);
        i = i + 1;
    }
}

/// Allocates a block label, then lowers the statements in order into the
/// block that is current, not into the new one. Hands back the label.
pub fn translate_block(b: &Vec<Expression>, builder: &mut FunctionCode, ctx: &mut Ctx) -> (label: usize)
    requires
        old(builder).wf(),
        old(ctx)@.wf(),
        old(ctx)@.fits(old(builder)@.code),
        lowerable_statements(
            b@,
            b@.len(),
            lowering_state(old(ctx), old(builder)).emit(Instr::NewBlock),
        ),
    ensures
        final(ctx)@ == lower_statements(
            b@,
            b@.len(),
            lowering_state(old(ctx), old(builder)).emit(Instr::NewBlock),
        ).table,
        final(builder)@ == (FunctionCodeView {
            code: lower_statements(
                b@,
                b@.len(),
                lowering_state(old(ctx), old(builder)).emit(Instr::NewBlock),
            ).code,
            ..old(builder)@
        }),
        label == old(builder)@.code.len(),
        final(builder).wf(),
        final(ctx)@.wf(),
        final(ctx)@.fits(final(builder)@.code),
        extends(final(builder)@.code, old(builder)@.code),
    decreases size_of_first(b@, b@.len()) + 1, 1nat,
{
    let object_block = builder.create_block();
    translate_statements(b, builder, ctx);
    object_block
}

/// Lowers one expression: emits its instructions, updates the symbol table
/// as its assignments demand, and yields the value it computes.
///
/// An assignment and a block yield a null placeholder; a return yields the
/// value it returns.
pub fn translate_expression(expr: &Expression, builder: &mut FunctionCode, ctx: &mut Ctx) -> (value: usize)
    requires
        old(builder).wf(),
        old(ctx)@.wf(),
        old(ctx)@.fits(old(builder)@.code),
        lowerable_expression(*expr, lowering_state(old(ctx), old(builder))),
    ensures
        lowered_to(
            lower_expression(*expr, lowering_state(old(ctx), old(builder))),
            final(ctx)@,
            final(builder)@,
            old(builder)@,
            value,
        ),
        final(builder).wf(),
        final(ctx)@.wf(),
        final(ctx)@.fits(final(builder)@.code),
        extends(final(builder)@.code, old(builder)@.code),
        final(builder)@.is_value(value),
    decreases expr.size(), 2nat,
{
    match expr {
        Expression::Literal(literal) => translate_literal(literal, builder),
        Expression::Assignment { name, bound_expression, inferred_type } => {
            translate_assignment(name.as_str(), bound_expression, inferred_type, builder, ctx);
            builder.iconst(MachineType::I64, 0)
        },
        Expression::Identifier(name) => {
            let var = ctx.get_variable(name.as_str()).unwrap();
            builder.use_var(var)
        },
        Expression::BinaryOp { operator, left, right } => translate_infix(
            operator,
            left,
            right,
            builder,
            ctx,
        ),
        Expression::Return(inner) => {
            let return_val = translate_expression(inner, builder, ctx);
            builder.return_(return_val);
            return_val
        },
        Expression::Block(b) => {
            let _ = translate_block(b, builder, ctx);
            builder.iconst(MachineType::I64, 0)
        },
        Expression::FunctionDeclaration(_) | Expression::Call { .. } | Expression::Conditional { .. } => 0,
    }
}

} // verus!
