//! Lowering preserves meaning: what a lowered function computes is what
//! the source function computes.

use vstd::prelude::*;
use crate::ast::{Expression, FunctionDecl, Literal};
use crate::function::{bind_params, lemma_machine_params_len, machine_params};
use crate::ir::{extends, Instr};
use crate::lowering::{
    arith_op, literal_instr, lower_expression, lower_statements, lowerable_expression,
    lowerable_statements, Lowering,
};
use crate::semantics::{
    arguments_fit, bind_arguments, carry_out, eval, interpret, lemma_wrap_in_range, null, run,
    run_function, step, Eval, Flow, Machine, Outcome, Val,
};
use crate::symbols::{lemma_redeclaration_rebinds, SymbolTable};
use crate::types::{MachineType, SourceType};

verus! {

/// Lowering only appends: the code after an expression is lowered begins
/// with the code before.
pub proof fn lemma_lowering_appends(expr: Expression, st: Lowering)
    ensures
        extends(lower_expression(expr, st).state.code, st.code),
    decreases expr, 0nat,
{
    match expr {
        Expression::Assignment { bound_expression, .. } => {
            lemma_lowering_appends(*bound_expression, st);
        },
        Expression::BinaryOp { left, right, .. } => {
            lemma_lowering_appends(*left, st);
            lemma_lowering_appends(*right, lower_expression(*left, st).state);
        },
        Expression::Return(inner) => {
            lemma_lowering_appends(*inner, st);
        },
        Expression::Block(statements) => {
            lemma_statements_append(statements@, statements@.len(), st.emit(Instr::NewBlock));
        },
        _ => {},
    }
}

/// Lowering only appends: the code after statements are lowered begins
/// with the code before.
pub proof fn lemma_statements_append(statements: Seq<Expression>, n: nat, st: Lowering)
    ensures
        extends(lower_statements(statements, n, st).code, st.code),
    decreases statements, n,
{
    if n > 0 && n <= statements.len() {
        lemma_statements_append(statements, (n - 1) as nat, st);
        lemma_lowering_appends(
            statements[n - 1],
            lower_statements(statements, (n - 1) as nat, st),
        );
    }
}

/// The value that a lowered expression yields is yielded by one of the
/// instructions lowered for it, and the symbol table stays in order.
pub proof fn lemma_lowered_value_in_range(expr: Expression, st: Lowering)
    requires
        lowerable_expression(expr, st),
        st.table.wf(),
        lower_expression(expr, st).state.code.len() <= usize::MAX,
    ensures
        st.code.len() <= lower_expression(expr, st).value < lower_expression(
            expr,
            st,
        ).state.code.len(),
        lower_expression(expr, st).state.table.wf(),
    decreases expr, 0nat,
{
    lemma_lowering_appends(expr, st);
    match expr {
        Expression::Assignment { name, bound_expression, .. } => {
            lemma_lowering_appends(*bound_expression, st);
            lemma_lowered_value_in_range(*bound_expression, st);
            let bound = lower_expression(*bound_expression, st).state;
            lemma_redeclaration_rebinds(bound.table, name@, name@);
        },
        Expression::BinaryOp { left, right, .. } => {
            let l = lower_expression(*left, st);
            lemma_lowering_appends(*left, st);
            lemma_lowering_appends(*right, l.state);
            lemma_lowered_value_in_range(*left, st);
            lemma_lowered_value_in_range(*right, l.state);
        },
        Expression::Return(inner) => {
            lemma_lowering_appends(*inner, st);
            lemma_lowered_value_in_range(*inner, st);
        },
        Expression::Block(statements) => {
            lemma_statements_append(statements@, statements@.len(), st.emit(Instr::NewBlock));
            lemma_statements_keep_order(statements@, statements@.len(), st.emit(Instr::NewBlock));
        },
        _ => {},
    }
}

/// The symbol table stays in order while statements are lowered.
pub proof fn lemma_statements_keep_order(statements: Seq<Expression>, n: nat, st: Lowering)
    requires
        lowerable_statements(statements, n, st),
        st.table.wf(),
        lower_statements(statements, n, st).code.len() <= usize::MAX,
    ensures
        lower_statements(statements, n, st).table.wf(),
    decreases statements, n,
{
    if n > 0 && n <= statements.len() {
        let before = lower_statements(statements, (n - 1) as nat, st);
        lemma_lowering_appends(statements[n - 1], before);
        lemma_statements_keep_order(statements, (n - 1) as nat, st);
        lemma_lowered_value_in_range(statements[n - 1], before);
    }
}

/// Once a function has returned or gone wrong, further instructions change
/// nothing.
pub proof fn lemma_run_stays_done(code: Seq<Instr>, m: nat, n: nat, args: Seq<Val>)
    requires
        m <= n <= code.len(),
        !(run(code, m, args) is Running),
    ensures
        run(code, n, args) == run(code, m, args),
    decreases n,
{
    if m < n {
        lemma_run_stays_done(code, m, (n - 1) as nat, args);
    }
}

/// Carrying out one more instruction is one step from where the
/// instructions before it left off.
pub proof fn lemma_run_step(code: Seq<Instr>, n: nat, args: Seq<Val>, m: Machine)
    requires
        n < code.len(),
        run(code, n, args) == Outcome::Running(m),
    ensures
        run(code, n + 1, args) == step(code[n as int], n as int, m, args),
{
}

/// Beginning with a list that begins with another is beginning with the
/// other.
pub proof fn lemma_extends_transitive(a: Seq<Instr>, b: Seq<Instr>, c: Seq<Instr>)
    requires
        extends(a, b),
        extends(b, c),
    ensures
        extends(a, c),
{
}

/// Whether the state of a running function holds what the source program
/// has bound: the same names are bound, and the slot of each holds the
/// name's value.
pub open spec fn related(env: Map<Seq<char>, Val>, table: SymbolTable, m: Machine) -> bool {
    &&& forall|name: Seq<char>| env.contains_key(name) <==> table.bindings.contains_key(name)
    &&& forall|name: Seq<char>| #[trigger]
        table.bindings.contains_key(name) ==> m.slots.contains_key(table.bindings[name])
            && m.slots[table.bindings[name]] == env[name]
}

/// Whether every value that `before` holds at a position below `below` is
/// held by `after` too.
pub open spec fn keeps_values(before: Machine, after: Machine, below: int) -> bool {
    forall|j: int|
        0 <= j < below && #[trigger] before.values.contains_key(j) ==> after.values.contains_key(j)
            && after.values[j] == before.values[j]
}

/// Whether the instructions came to what the expression came to: the same
/// return, a fault alike, or a state that holds the expression's value at
/// `value`, holds what the expression left bound, and keeps the values that
/// were there before.
pub open spec fn simulates(
    result: Eval,
    outcome: Outcome,
    table: SymbolTable,
    value: usize,
    before: Machine,
    below: int,
) -> bool {
    match result {
        Eval::Value { value: v, env } => {
            &&& outcome is Running
            &&& outcome->Running_0.values.contains_key(value as int)
            &&& outcome->Running_0.values[value as int] == v
            &&& related(env, table, outcome->Running_0)
            &&& keeps_values(before, outcome->Running_0, below)
        },
        Eval::Returned(v) => outcome == Outcome::Returned(v),
        Eval::Fault => outcome is Fault,
    }
}

/// Whether the instructions came to what the statements came to.
pub open spec fn follows(
    flow: Flow,
    outcome: Outcome,
    table: SymbolTable,
    before: Machine,
    below: int,
) -> bool {
    match flow {
        Flow::Next(env) => {
            &&& outcome is Running
            &&& related(env, table, outcome->Running_0)
            &&& keeps_values(before, outcome->Running_0, below)
        },
        Flow::Returned(v) => outcome == Outcome::Returned(v),
        Flow::Fault => outcome is Fault,
    }
}

/// What the three instructions that end an assignment come to: the slot
/// is declared and takes the value, if the value is of the slot's type, and
/// a null is yielded.
proof fn lemma_assignment_tail(
    code: Seq<Instr>,
    n: nat,
    args: Seq<Val>,
    m: Machine,
    slot: u32,
    ty: MachineType,
    source: usize,
)
    requires
        n + 3 <= code.len(),
        run(code, n, args) == Outcome::Running(m),
        code[n as int] == (Instr::DeclareVar { slot, ty }),
        code[n as int + 1] == (Instr::DefVar { slot, value: source }),
        code[n as int + 2] == (Instr::Const { ty: MachineType::I64, imm: 0 }),
        m.values.contains_key(source as int),
    ensures
        m.values[source as int].ty == ty ==> run(code, n + 3, args) == Outcome::Running(
            Machine {
                values: m.values.insert(n as int + 2, null()),
                slots: m.slots.insert(slot, m.values[source as int]),
                slot_types: m.slot_types.insert(slot, ty),
            },
        ),
        m.values[source as int].ty != ty ==> run(code, n + 3, args) is Fault,
{
    lemma_run_step(code, n, args, m);
    let m2 = Machine { slot_types: m.slot_types.insert(slot, ty), ..m };
    assert(run(code, n + 1, args) == Outcome::Running(m2));
    lemma_run_step(code, n + 1, args, m2);
    if m.values[source as int].ty == ty {
        let m3 = Machine { slots: m2.slots.insert(slot, m.values[source as int]), ..m2 };
        assert(run(code, n + 2, args) == Outcome::Running(m3));
        lemma_run_step(code, n + 2, args, m3);
        lemma_wrap_in_range(MachineType::I64, 0);
    } else {
        assert(run(code, n + 2, args) is Fault);
        lemma_run_stays_done(code, n + 2, n + 3, args);
    }
}

/// A state that holds what is bound still does once a name is bound to a
/// fresh slot that takes the name's value.
proof fn lemma_related_after_binding(
    env: Map<Seq<char>, Val>,
    table: SymbolTable,
    before: Machine,
    after: Machine,
    name: Seq<char>,
    value: Val,
)
    requires
        related(env, table, before),
        table.wf(),
        table.next_slot < u32::MAX,
        after.slots == before.slots.insert(table.next_slot as u32, value),
    ensures
        related(env.insert(name, value), table.declare(name), after),
{
    let env2 = env.insert(name, value);
    let table2 = table.declare(name);
    assert forall|other: Seq<char>| #[trigger]
        table2.bindings.contains_key(other) implies after.slots.contains_key(
        table2.bindings[other],
    ) && after.slots[table2.bindings[other]] == env2[other] by {
        if other != name {
            assert(table.bindings.contains_key(other));
        }
    }
}

/// A literal is lowered to a constant that is the literal's value.
proof fn lemma_literal_preserved(
    expr: Expression,
    st: Lowering,
    env: Map<Seq<char>, Val>,
    code: Seq<Instr>,
    args: Seq<Val>,
    m: Machine,
)
    requires
        expr is Literal,
        extends(code, lower_expression(expr, st).state.code),
        code.len() <= usize::MAX,
        run(code, st.code.len(), args) == Outcome::Running(m),
        related(env, st.table, m),
    ensures
        simulates(
            eval(expr, env),
            run(code, lower_expression(expr, st).state.code.len(), args),
            lower_expression(expr, st).state.table,
            lower_expression(expr, st).value,
            m,
            st.code.len() as int,
        ),
{
    let at = st.code.len();
    let literal = expr->Literal_0;
    lemma_run_step(code, at, args, m);
    assert(code[at as int] == literal_instr(literal));
    match literal {
        Literal::Bool(b) => {
            lemma_wrap_in_range(MachineType::I8, if b { 1 } else { 0 });
        },
        Literal::Int(i) => {
            lemma_wrap_in_range(MachineType::I32, i as int);
        },
    }
}

/// A bound name is lowered to a read of its slot, which holds its value.
proof fn lemma_identifier_preserved(
    expr: Expression,
    st: Lowering,
    env: Map<Seq<char>, Val>,
    code: Seq<Instr>,
    args: Seq<Val>,
    m: Machine,
)
    requires
        expr is Identifier,
        lowerable_expression(expr, st),
        extends(code, lower_expression(expr, st).state.code),
        code.len() <= usize::MAX,
        run(code, st.code.len(), args) == Outcome::Running(m),
        related(env, st.table, m),
    ensures
        simulates(
            eval(expr, env),
            run(code, lower_expression(expr, st).state.code.len(), args),
            lower_expression(expr, st).state.table,
            lower_expression(expr, st).value,
            m,
            st.code.len() as int,
        ),
{
    let at = st.code.len();
    let name = expr->Identifier_0;
    lemma_run_step(code, at, args, m);
    assert(code[at as int] == Instr::UseVar { slot: st.table.bindings[name@] });
    assert(st.table.bindings.contains_key(name@));
}

/// The case of an assignment in [`lemma_expression_preserved`].
proof fn lemma_assignment_preserved(
    expr: Expression,
    st: Lowering,
    env: Map<Seq<char>, Val>,
    code: Seq<Instr>,
    args: Seq<Val>,
    m: Machine,
)
    requires
        expr is Assignment,
        lowerable_expression(expr, st),
        st.table.wf(),
        extends(code, lower_expression(expr, st).state.code),
        code.len() <= usize::MAX,
        run(code, st.code.len(), args) == Outcome::Running(m),
        related(env, st.table, m),
    ensures
        simulates(
            eval(expr, env),
            run(code, lower_expression(expr, st).state.code.len(), args),
            lower_expression(expr, st).state.table,
            lower_expression(expr, st).value,
            m,
            st.code.len() as int,
        ),
    decreases expr, 0nat,
{
    let out = lower_expression(expr, st);
    match expr {
        Expression::Assignment { name, bound_expression, inferred_type } => {
            let bound = lower_expression(*bound_expression, st);
            let slot = bound.state.table.next_slot as u32;
            let ty = inferred_type.machine_type().unwrap();
            lemma_lowering_appends(*bound_expression, st);
            lemma_extends_transitive(code, out.state.code, bound.state.code);
            lemma_lowered_value_in_range(*bound_expression, st);
            lemma_expression_preserved(*bound_expression, st, env, code, args, m);
            let n = bound.state.code.len();
            assert(out.state.code.len() == n + 3);
            assert(out.value == n + 2);
            assert(code[n as int] == out.state.code[n as int]);
            assert(code[n as int + 1] == out.state.code[n as int + 1]);
            assert(code[n as int + 2] == out.state.code[n as int + 2]);
            match eval(*bound_expression, env) {
                Eval::Value { value, env: env1 } => {
                    let m1 = run(code, n, args)->Running_0;
                    lemma_assignment_tail(code, n, args, m1, slot, ty, bound.value);
                    if inferred_type.machine_type() == Some(value.ty) {
                        let m4 = run(code, n + 3, args)->Running_0;
                        lemma_related_after_binding(
                            env1,
                            bound.state.table,
                            m1,
                            m4,
                            name@,
                            value,
                        );
                    }
                },
                _ => {
                    lemma_run_stays_done(code, n, n + 3, args);
                },
            }
        },
        _ => {},
    }
}

/// The case of arithmetic in [`lemma_expression_preserved`].
proof fn lemma_binary_preserved(
    expr: Expression,
    st: Lowering,
    env: Map<Seq<char>, Val>,
    code: Seq<Instr>,
    args: Seq<Val>,
    m: Machine,
)
    requires
        expr is BinaryOp,
        lowerable_expression(expr, st),
        st.table.wf(),
        extends(code, lower_expression(expr, st).state.code),
        code.len() <= usize::MAX,
        run(code, st.code.len(), args) == Outcome::Running(m),
        related(env, st.table, m),
    ensures
        simulates(
            eval(expr, env),
            run(code, lower_expression(expr, st).state.code.len(), args),
            lower_expression(expr, st).state.table,
            lower_expression(expr, st).value,
            m,
            st.code.len() as int,
        ),
    decreases expr, 0nat,
{
    let out = lower_expression(expr, st);
    match expr {
        Expression::BinaryOp { operator, left, right } => {
            let l = lower_expression(*left, st);
            let r = lower_expression(*right, l.state);
            let op = arith_op(operator).unwrap();
            lemma_lowering_appends(*left, st);
            lemma_lowering_appends(*right, l.state);
            lemma_extends_transitive(code, out.state.code, r.state.code);
            lemma_extends_transitive(code, r.state.code, l.state.code);
            lemma_lowered_value_in_range(*left, st);
            lemma_lowered_value_in_range(*right, l.state);
            lemma_expression_preserved(*left, st, env, code, args, m);
            let n = r.state.code.len();
            assert(out.state.code.len() == n + 1);
            assert(code[n as int] == out.state.code[n as int]);
            match eval(*left, env) {
                Eval::Value { value: a, env: env1 } => {
                    let m1 = run(code, l.state.code.len(), args)->Running_0;
                    lemma_expression_preserved(*right, l.state, env1, code, args, m1);
                    match eval(*right, env1) {
                        Eval::Value { value: b, env: env2 } => {
                            let m2 = run(code, n, args)->Running_0;
                            lemma_run_step(code, n, args, m2);
                            assert(m1.values.contains_key(l.value as int));
                            assert(m2.values[l.value as int] == a);
                            assert(m2.values[r.value as int] == b);
                        },
                        _ => {
                            lemma_run_stays_done(code, n, n + 1, args);
                        },
                    }
                },
                _ => {
                    lemma_run_stays_done(code, l.state.code.len(), n + 1, args);
                },
            }
        },
        _ => {},
    }
}

/// The case of a return in [`lemma_expression_preserved`].
proof fn lemma_return_preserved(
    expr: Expression,
    st: Lowering,
    env: Map<Seq<char>, Val>,
    code: Seq<Instr>,
    args: Seq<Val>,
    m: Machine,
)
    requires
        expr is Return,
        lowerable_expression(expr, st),
        st.table.wf(),
        extends(code, lower_expression(expr, st).state.code),
        code.len() <= usize::MAX,
        run(code, st.code.len(), args) == Outcome::Running(m),
        related(env, st.table, m),
    ensures
        simulates(
            eval(expr, env),
            run(code, lower_expression(expr, st).state.code.len(), args),
            lower_expression(expr, st).state.table,
            lower_expression(expr, st).value,
            m,
            st.code.len() as int,
        ),
    decreases expr, 0nat,
{
    let out = lower_expression(expr, st);
    match expr {
        Expression::Return(inner) => {
            let v = lower_expression(*inner, st);
            lemma_lowering_appends(*inner, st);
            lemma_extends_transitive(code, out.state.code, v.state.code);
            lemma_lowered_value_in_range(*inner, st);
            lemma_expression_preserved(*inner, st, env, code, args, m);
            let n = v.state.code.len();
            assert(code[n as int] == out.state.code[n as int]);
            match eval(*inner, env) {
                Eval::Value { .. } => {
                    let m1 = run(code, n, args)->Running_0;
                    lemma_run_step(code, n, args, m1);
                },
                _ => {
                    lemma_run_stays_done(code, n, n + 1, args);
                },
            }
        },
        _ => {},
    }
}

/// The case of a block in [`lemma_expression_preserved`].
proof fn lemma_block_preserved(
    expr: Expression,
    st: Lowering,
    env: Map<Seq<char>, Val>,
    code: Seq<Instr>,
    args: Seq<Val>,
    m: Machine,
)
    requires
        expr is Block,
        lowerable_expression(expr, st),
        st.table.wf(),
        extends(code, lower_expression(expr, st).state.code),
        code.len() <= usize::MAX,
        run(code, st.code.len(), args) == Outcome::Running(m),
        related(env, st.table, m),
    ensures
        simulates(
            eval(expr, env),
            run(code, lower_expression(expr, st).state.code.len(), args),
            lower_expression(expr, st).state.table,
            lower_expression(expr, st).value,
            m,
            st.code.len() as int,
        ),
    decreases expr, 0nat,
{
    let out = lower_expression(expr, st);
    let at = st.code.len();
    match expr {
        Expression::Block(statements) => {
            let inside = st.emit(Instr::NewBlock);
            let after = lower_statements(statements@, statements@.len(), inside);
            lemma_statements_append(statements@, statements@.len(), inside);
            lemma_extends_transitive(code, out.state.code, after.code);
            lemma_run_step(code, at, args, m);
            assert(code[at as int] == inside.code[at as int]);
            lemma_statements_preserved(statements@, statements@.len(), inside, env, code, args, m);
            let n = after.code.len();
            assert(code[n as int] == out.state.code[n as int]);
            match carry_out(statements@, statements@.len(), env) {
                Flow::Next(_) => {
                    let m1 = run(code, n, args)->Running_0;
                    lemma_run_step(code, n, args, m1);
                    lemma_wrap_in_range(MachineType::I64, 0);
                },
                _ => {
                    lemma_run_stays_done(code, n, n + 1, args);
                },
            }
        },
        _ => {},
    }
}

/// The instructions lowered for an expression compute what the expression
/// evaluates to, from a state that holds what is bound.
///
/// `code` is the whole function, `st` the lowering state before the
/// expression, `m` the state in which the instructions before it left the
/// function.
pub proof fn lemma_expression_preserved(
    expr: Expression,
    st: Lowering,
    env: Map<Seq<char>, Val>,
    code: Seq<Instr>,
    args: Seq<Val>,
    m: Machine,
)
    requires
        lowerable_expression(expr, st),
        st.table.wf(),
        extends(code, lower_expression(expr, st).state.code),
        code.len() <= usize::MAX,
        run(code, st.code.len(), args) == Outcome::Running(m),
        related(env, st.table, m),
    ensures
        simulates(
            eval(expr, env),
            run(code, lower_expression(expr, st).state.code.len(), args),
            lower_expression(expr, st).state.table,
            lower_expression(expr, st).value,
            m,
            st.code.len() as int,
        ),
    decreases expr, 1nat,
{
    match expr {
        Expression::Literal(_) => {
            lemma_literal_preserved(expr, st, env, code, args, m);
        },
        Expression::Identifier(_) => {
            lemma_identifier_preserved(expr, st, env, code, args, m);
        },
        Expression::Assignment { .. } => {
            lemma_assignment_preserved(expr, st, env, code, args, m);
        },
        Expression::BinaryOp { .. } => {
            lemma_binary_preserved(expr, st, env, code, args, m);
        },
        Expression::Return(_) => {
            lemma_return_preserved(expr, st, env, code, args, m);
        },
        Expression::Block(_) => {
            lemma_block_preserved(expr, st, env, code, args, m);
        },
        _ => {},
    }
}

/// The instructions lowered for statements compute what the statements
/// come to, from a state that holds what is bound.
pub proof fn lemma_statements_preserved(
    statements: Seq<Expression>,
    n: nat,
    st: Lowering,
    env: Map<Seq<char>, Val>,
    code: Seq<Instr>,
    args: Seq<Val>,
    m: Machine,
)
    requires
        n <= statements.len(),
        lowerable_statements(statements, n, st),
        st.table.wf(),
        extends(code, lower_statements(statements, n, st).code),
        code.len() <= usize::MAX,
        run(code, st.code.len(), args) == Outcome::Running(m),
        related(env, st.table, m),
    ensures
        follows(
            carry_out(statements, n, env),
            run(code, lower_statements(statements, n, st).code.len(), args),
            lower_statements(statements, n, st).table,
            m,
            st.code.len() as int,
        ),
    decreases statements, n,
{
    if n > 0 {
        let before = lower_statements(statements, (n - 1) as nat, st);
        let after = lower_statements(statements, n, st);
        lemma_statements_append(statements, (n - 1) as nat, st);
        lemma_lowering_appends(statements[n - 1], before);
        lemma_extends_transitive(code, after.code, before.code);
        lemma_statements_keep_order(statements, (n - 1) as nat, st);
        lemma_statements_preserved(statements, (n - 1) as nat, st, env, code, args, m);
        match carry_out(statements, (n - 1) as nat, env) {
            Flow::Next(env1) => {
                let m1 = run(code, before.code.len(), args)->Running_0;
                lemma_expression_preserved(statements[n - 1], before, env1, code, args, m1);
            },
            _ => {
                lemma_run_stays_done(code, before.code.len(), after.code.len(), args);
            },
        }
    }
}

/// The machine parameters of more parameters begin with those of fewer.
pub proof fn lemma_machine_params_grow(params: Seq<(String, SourceType)>, m: nat, n: nat)
    requires
        m <= n <= params.len(),
    ensures
        machine_params(params, m).len() <= machine_params(params, n).len(),
    decreases n,
{
    if m < n {
        lemma_machine_params_grow(params, m, (n - 1) as nat);
    }
}

/// Where the first `k` parameters all have a run-time value, the machine
/// parameters of the first `n <= k` are their machine types, one each.
pub proof fn lemma_machine_params_of_valued(params: Seq<(String, SourceType)>, k: nat, n: nat)
    requires
        n <= k <= params.len(),
        forall|i: int| 0 <= i < k ==> (#[trigger] params[i]).1.has_value(),
    ensures
        machine_params(params, n).len() == n,
        forall|j: int|
            0 <= j < n ==> #[trigger] machine_params(params, n)[j] == params[j].1.machine_type().unwrap(),
    decreases n,
{
    if n > 0 {
        lemma_machine_params_of_valued(params, k, (n - 1) as nat);
        assert(params[n - 1].1.has_value());
    }
}

/// Where the first `k` parameters are all that have a run-time value, the
/// arguments bound after `n >= k` parameters are those bound after `k`.
pub proof fn lemma_trailing_parameters_bind_nothing(
    params: Seq<(String, SourceType)>,
    k: nat,
    n: nat,
    args: Seq<Val>,
)
    requires
        k <= n <= params.len(),
        k == machine_params(params, params.len()).len(),
        forall|i: int| 0 <= i < k ==> (#[trigger] params[i]).1.has_value(),
    ensures
        bind_arguments(params, n, args) == bind_arguments(params, k, args),
        machine_params(params, n) == machine_params(params, k),
    decreases n,
{
    if k < n {
        lemma_trailing_parameters_bind_nothing(params, k, (n - 1) as nat, args);
        lemma_machine_params_of_valued(params, k, k);
        lemma_machine_params_grow(params, n, params.len());
    }
}

/// The instructions that bind the first `j` parameters leave the function
/// running, in a state that holds each of them bound to its argument.
pub proof fn lemma_parameters_bound(
    params: Seq<(String, SourceType)>,
    machine: Seq<MachineType>,
    j: nat,
    code: Seq<Instr>,
    args: Seq<Val>,
)
    requires
        j <= machine.len() <= params.len(),
        machine.len() <= u32::MAX,
        machine == machine_params(params, params.len()),
        forall|i: int| 0 <= i < machine.len() ==> (#[trigger] params[i]).1.has_value(),
        arguments_fit(machine, args),
        extends(code, bind_params(params, machine, j, empty_lowering()).code),
        code.len() <= usize::MAX,
    ensures
        ({
            let st = bind_params(params, machine, j, empty_lowering());
            let outcome = run(code, st.code.len(), args);
            &&& st.code.len() == 3 * j
            &&& st.table.next_slot == j
            &&& st.table.wf()
            &&& outcome is Running
            &&& related(bind_arguments(params, j, args), st.table, outcome->Running_0)
        }),
    decreases j,
{
    if j > 0 {
        let before = bind_params(params, machine, (j - 1) as nat, empty_lowering());
        let st = bind_params(params, machine, j, empty_lowering());
        let name = params[j - 1].0@;
        let ty = machine[j - 1];
        let slot = before.table.next_slot as u32;
        assert(st.code == before.code.push(Instr::DeclareVar { slot, ty }).push(
            Instr::Param { index: (j - 1) as usize },
        ).push(Instr::DefVar { slot, value: (before.code.len() + 1) as usize }));
        assert(extends(st.code, before.code));
        lemma_extends_transitive(code, st.code, before.code);
        lemma_parameters_bound(params, machine, (j - 1) as nat, code, args);
        lemma_machine_params_of_valued(params, machine.len(), j);
        lemma_trailing_parameters_bind_nothing(params, machine.len(), params.len(), args);
        let n = before.code.len();
        let m0 = run(code, n, args)->Running_0;
        assert(code[n as int] == st.code[n as int]);
        assert(code[n as int + 1] == st.code[n as int + 1]);
        assert(code[n as int + 2] == st.code[n as int + 2]);
        lemma_run_step(code, n, args, m0);
        let m1 = Machine { slot_types: m0.slot_types.insert(slot, ty), ..m0 };
        assert(run(code, n + 1, args) == Outcome::Running(m1));
        lemma_run_step(code, n + 1, args, m1);
        let m2 = m1.yield_value(n as int + 1, args[j - 1]);
        assert(run(code, n + 2, args) == Outcome::Running(m2));
        lemma_run_step(code, n + 2, args, m2);
        let m3 = Machine { slots: m2.slots.insert(slot, args[j - 1]), ..m2 };
        assert(args[j - 1].ty == machine[j - 1]);
        assert(run(code, n + 3, args) == Outcome::Running(m3));
        assert(params[j - 1].1.has_value());
        assert(bind_arguments(params, j, args) == bind_arguments(
            params,
            (j - 1) as nat,
            args,
        ).insert(name, args[j - 1]));
        lemma_related_after_binding(
            bind_arguments(params, (j - 1) as nat, args),
            before.table,
            m0,
            m3,
            name,
            args[j - 1],
        );
        lemma_redeclaration_rebinds(before.table, name, name);
    } else {
        assert(related(Map::empty(), SymbolTable::empty(), Machine::start()));
    }
}

/// The state in which the lowering of a function starts.
pub open spec fn empty_lowering() -> Lowering {
    Lowering { table: SymbolTable::empty(), code: Seq::empty() }
}

/// Lowering preserves meaning: called with the same arguments, a lowered
/// function returns what the source function returns, and has no result
/// where the source function has none.
///
/// This holds of functions in which names and machine parameters line up,
/// and whose instructions can be counted by the machine.
pub proof fn lemma_lowering_preserves_meaning(func: FunctionDecl, args: Seq<Val>)
    requires
        func.lowerable(),
        func.aligned(),
        func.lowered().code.len() <= usize::MAX,
    ensures
        run_function(func.lowered(), args) == interpret(func, args),
{
    let params = func.params@;
    let machine = func.machine_params();
    let code = func.lowered().code;
    if arguments_fit(machine, args) {
        lemma_machine_params_len(params, params.len());
        let entry = func.entry_state();
        lemma_statements_append(func.body@, func.body@.len(), entry);
        lemma_parameters_bound(params, machine, machine.len(), code, args);
        lemma_trailing_parameters_bind_nothing(params, machine.len(), params.len(), args);
        let m = run(code, entry.code.len(), args)->Running_0;
        let env = bind_arguments(params, params.len(), args);
        lemma_statements_preserved(func.body@, func.body@.len(), entry, env, code, args, m);
    }
}

/// Whether `expr` is built only from literals, names among `names`, and
/// arithmetic with the four known operators.
pub open spec fn plain(expr: Expression, names: Set<Seq<char>>) -> bool
    decreases expr,
{
    match expr {
        Expression::Literal(_) => true,
        Expression::Identifier(name) => names.contains(name@),
        Expression::BinaryOp { operator, left, right } => {
            &&& arith_op(operator) is Some
            &&& plain(*left, names)
            &&& plain(*right, names)
        },
        _ => false,
    }
}

/// Whether `statement` is a plain expression or the return of one.
pub open spec fn plain_statement(statement: Expression, names: Set<Seq<char>>) -> bool {
    plain(statement, names) || (statement is Return && plain(*statement->Return_0, names))
}

/// The names of the first `n` parameters.
pub open spec fn parameter_names(params: Seq<(String, SourceType)>, n: nat) -> Set<Seq<char>>
    decreases n,
{
    if n == 0 || n > params.len() {
        Set::empty()
    } else {
        parameter_names(params, (n - 1) as nat).insert(params[n - 1].0@)
    }
}

/// Whether `func` is of the plain kind: every parameter has a run-time
/// value, the return type is resolved, and the body is a straight line of
/// plain expressions and returns of plain expressions over the parameters.
pub open spec fn plain_function(func: FunctionDecl) -> bool {
    &&& forall|i: int| 0 <= i < func.params@.len() ==> (#[trigger] func.params@[i]).1.has_value()
    &&& func.params@.len() <= u32::MAX
    &&& !func.return_type.is_unresolved()
    &&& forall|i: int|
        0 <= i < func.body@.len() ==> plain_statement(
            #[trigger] func.body@[i],
            parameter_names(func.params@, func.params@.len()),
        )
}

/// A plain expression can be lowered wherever its names are bound, and
/// lowering it binds nothing.
pub proof fn lemma_plain_is_lowerable(expr: Expression, names: Set<Seq<char>>, st: Lowering)
    requires
        plain(expr, names),
        names.subset_of(st.table.bindings.dom()),
    ensures
        lowerable_expression(expr, st),
        lower_expression(expr, st).state.table == st.table,
    decreases expr,
{
    match expr {
        Expression::Identifier(name) => {
            assert(st.table.bindings.dom().contains(name@));
        },
        Expression::BinaryOp { left, right, .. } => {
            lemma_plain_is_lowerable(*left, names, st);
            lemma_plain_is_lowerable(*right, names, lower_expression(*left, st).state);
        },
        _ => {},
    }
}

/// Plain statements can be lowered wherever their names are bound, and
/// lowering them binds nothing.
pub proof fn lemma_plain_statements_are_lowerable(
    statements: Seq<Expression>,
    n: nat,
    names: Set<Seq<char>>,
    st: Lowering,
)
    requires
        n <= statements.len(),
        forall|i: int| 0 <= i < n ==> plain_statement(#[trigger] statements[i], names),
        names.subset_of(st.table.bindings.dom()),
    ensures
        lowerable_statements(statements, n, st),
        lower_statements(statements, n, st).table == st.table,
    decreases n,
{
    if n > 0 {
        lemma_plain_statements_are_lowerable(statements, (n - 1) as nat, names, st);
        let before = lower_statements(statements, (n - 1) as nat, st);
        let statement = statements[n - 1];
        assert(plain_statement(statement, names));
        assert(names.subset_of(before.table.bindings.dom()));
        if plain(statement, names) {
            lemma_plain_is_lowerable(statement, names, before);
        } else {
            match statement {
                Expression::Return(inner) => {
                    lemma_plain_is_lowerable(*inner, names, before);
                    assert(lowerable_expression(statement, before));
                    assert(lower_expression(statement, before).state.table == before.table);
                },
                _ => {},
            }
        }
        assert(lowerable_expression(statement, before));
    }
}

/// Where every parameter has a run-time value, binding the first `j`
/// binds their names.
pub proof fn lemma_parameters_are_named(params: Seq<(String, SourceType)>, machine: Seq<MachineType>, j: nat)
    requires
        j <= params.len(),
        machine.len() == params.len(),
    ensures
        parameter_names(params, j).subset_of(
            bind_params(params, machine, j, empty_lowering()).table.bindings.dom(),
        ),
    decreases j,
{
    if j > 0 {
        lemma_parameters_are_named(params, machine, (j - 1) as nat);
        let before = bind_params(params, machine, (j - 1) as nat, empty_lowering());
        let after = bind_params(params, machine, j, empty_lowering());
        assert(after.table.bindings == before.table.bindings.insert(
            params[j - 1].0@,
            before.table.next_slot as u32,
        ));
        assert forall|name: Seq<char>| parameter_names(params, j).contains(name) implies after.table.bindings.dom().contains(
            name,
        ) by {
            if name != params[j - 1].0@ {
                assert(parameter_names(params, (j - 1) as nat).contains(name));
                assert(before.table.bindings.dom().contains(name));
            }
        }
    }
}

/// Plain functions keep their meaning: a function of the plain kind can be
/// lowered, its names and machine parameters line up, and called with the
/// same arguments the lowered function returns what the source function
/// returns.
pub proof fn lemma_plain_functions_keep_their_meaning(func: FunctionDecl, args: Seq<Val>)
    requires
        plain_function(func),
        func.lowered().code.len() <= usize::MAX,
    ensures
        func.lowerable(),
        func.aligned(),
        run_function(func.lowered(), args) == interpret(func, args),
{
    let params = func.params@;
    lemma_machine_params_of_valued(params, params.len(), params.len());
    lemma_parameters_are_named(params, func.machine_params(), params.len());
    lemma_plain_statements_are_lowerable(
        func.body@,
        func.body@.len(),
        parameter_names(params, params.len()),
        func.entry_state(),
    );
    assert forall|i: int| 0 <= i < params.len() implies !(#[trigger] params[i]).1.is_unresolved() by {
        assert(params[i].1.has_value());
    }
    lemma_lowering_preserves_meaning(func, args);
}

} // verus!
