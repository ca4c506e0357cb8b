//! What programs mean, before and after lowering.
//!
//! Two definitions stand side by side: what the instructions of a lowered
//! function compute when they are carried out in order, and what a function
//! of the source language computes when its syntax tree is interpreted
//! directly. Both speak of the same machine values and the same arithmetic.

use vstd::prelude::*;
use crate::ast::{Expression, FunctionDecl, Literal};
use crate::function::machine_params;
use crate::ir::{ArithOp, FunctionCodeView, Instr};
use crate::lowering::arith_op;
use crate::types::{MachineType, SourceType};

verus! {

/// A value of a machine type. For an integer type `bits` is the value as a
/// signed integer of the type's width; for a float it is the bit pattern.
pub struct Val {
    pub ty: MachineType,
    pub bits: int,
}

/// The number of values of a machine type.
pub open spec fn modulus(ty: MachineType) -> int {
    match ty {
        MachineType::I8 => 0x100,
        MachineType::I32 => 0x1_0000_0000,
        MachineType::I64 => 0x1_0000_0000_0000_0000,
        MachineType::F64 => 0x1_0000_0000_0000_0000,
    }
}

/// The signed integer of the type's width that `x` wraps around to.
#[verifier::opaque]
pub open spec fn wrap(ty: MachineType, x: int) -> int {
    (x + modulus(ty) / 2) % modulus(ty) - modulus(ty) / 2
}

/// The quotient of `a` by `b`, rounded toward zero.
pub open spec fn truncating_quotient(a: int, b: int) -> int
    recommends
        b != 0,
{
    if a >= 0 && b > 0 {
        a / b
    } else if a < 0 && b > 0 {
        -((-a) / b)
    } else if a >= 0 && b < 0 {
        -(a / (-b))
    } else {
        (-a) / (-b)
    }
}

/// Arithmetic on two machine values: defined on integers of one type.
/// Sums, differences and products wrap around. A quotient rounds toward
/// zero; division by zero, and of the least value by -1, has no result.
#[verifier::opaque]
pub open spec fn arith(op: ArithOp, a: Val, b: Val) -> Option<Val> {
    if a.ty != b.ty || !a.ty.is_integer() {
        None
    } else {
        match op {
            ArithOp::Add => Some(Val { ty: a.ty, bits: wrap(a.ty, a.bits + b.bits) }),
            ArithOp::Sub => Some(Val { ty: a.ty, bits: wrap(a.ty, a.bits - b.bits) }),
            ArithOp::Mul => Some(Val { ty: a.ty, bits: wrap(a.ty, a.bits * b.bits) }),
            ArithOp::SignedDiv => if b.bits == 0 || (a.bits == -(modulus(a.ty) / 2) && b.bits
                == -1) {
                None
            } else {
                Some(Val { ty: a.ty, bits: wrap(a.ty, truncating_quotient(a.bits, b.bits)) })
            },
        }
    }
}

/// The null of pointer width that stands in where an expression has no
/// value of its own.
pub open spec fn null() -> Val {
    Val { ty: MachineType::I64, bits: 0 }
}

/// The value of a literal.
pub open spec fn literal_value(literal: Literal) -> Val {
    match literal {
        Literal::Bool(b) => Val { ty: MachineType::I8, bits: if b { 1 } else { 0 } },
        Literal::Int(i) => Val { ty: MachineType::I32, bits: i as int },
    }
}

/// Whether `args` are arguments for parameters of the types `params`.
pub open spec fn arguments_fit(params: Seq<MachineType>, args: Seq<Val>) -> bool {
    &&& args.len() == params.len()
    &&& forall|i: int| 0 <= i < args.len() ==> (#[trigger] args[i]).ty == params[i]
}

/// The state of a function that is being carried out: the values computed
/// so far, by the position of the instruction that yielded each; what each
/// slot holds; and the declared type of each slot.
pub struct Machine {
    pub values: Map<int, Val>,
    pub slots: Map<u32, Val>,
    pub slot_types: Map<u32, MachineType>,
}

/// How far a function has come.
pub enum Outcome {
    /// It is still running, in this state.
    Running(Machine),
    /// It has returned this value.
    Returned(Val),
    /// It went wrong: an instruction was applied to what it is not defined
    /// on, or a division had no result.
    Fault,
}

impl Val {
    /// Whether the value is within the range of its type.
    pub open spec fn in_range(self) -> bool {
        -(modulus(self.ty) / 2) <= self.bits < modulus(self.ty) / 2
    }
}

/// What wraps around is within the range of the type.
pub proof fn lemma_wrap_is_in_range(ty: MachineType, x: int)
    ensures
        (Val { ty, bits: wrap(ty, x) }).in_range(),
{
    reveal(wrap);
}

impl Machine {
    /// The state in which a function starts.
    pub open spec fn start() -> Machine {
        Machine { values: Map::empty(), slots: Map::empty(), slot_types: Map::empty() }
    }

    /// The state after the instruction at position `at` yielded `value`.
    pub open spec fn yield_value(self, at: int, value: Val) -> Machine {
        Machine { values: self.values.insert(at, value), ..self }
    }
}

/// Carries out the instruction `instr`, which stands at position `at`, in
/// state `m` of a function that was called with `args`.
pub open spec fn step(instr: Instr, at: int, m: Machine, args: Seq<Val>) -> Outcome {
    match instr {
        Instr::Const { ty, imm } => if ty.is_integer() {
            Outcome::Running(m.yield_value(at, Val { ty, bits: wrap(ty, imm as int) }))
        } else {
            Outcome::Fault
        },
        Instr::Arith { op, lhs, rhs } => if m.values.contains_key(lhs as int)
            && m.values.contains_key(rhs as int) {
            match arith(op, m.values[lhs as int], m.values[rhs as int]) {
                Some(value) => Outcome::Running(m.yield_value(at, value)),
                None => Outcome::Fault,
            }
        } else {
            Outcome::Fault
        },
        Instr::DeclareVar { slot, ty } => Outcome::Running(
            Machine { slot_types: m.slot_types.insert(slot, ty), ..m },
        ),
        Instr::DefVar { slot, value } => if m.values.contains_key(value as int)
            && m.slot_types.contains_key(slot) && m.slot_types[slot] == m.values[value as int].ty {
            Outcome::Running(Machine { slots: m.slots.insert(slot, m.values[value as int]), ..m })
        } else {
            Outcome::Fault
        },
        Instr::UseVar { slot } => if m.slots.contains_key(slot) {
            Outcome::Running(m.yield_value(at, m.slots[slot]))
        } else if m.slot_types.contains_key(slot) {
            Outcome::Running(m.yield_value(at, Val { ty: m.slot_types[slot], bits: 0 }))
        } else {
            Outcome::Fault
        },
        Instr::Param { index } => if index < args.len() {
            Outcome::Running(m.yield_value(at, args[index as int]))
        } else {
            Outcome::Fault
        },
        Instr::Return { value } => if m.values.contains_key(value as int) {
            Outcome::Returned(m.values[value as int])
        } else {
            Outcome::Fault
        },
        Instr::NewBlock => Outcome::Running(m),
    }
}

/// Carries out the first `n` instructions of `code` in order, from the
/// start, stopping at a return or a fault.
pub open spec fn run(code: Seq<Instr>, n: nat, args: Seq<Val>) -> Outcome
    decreases n,
{
    if n == 0 || n > code.len() {
        Outcome::Running(Machine::start())
    } else {
        match run(code, (n - 1) as nat, args) {
            Outcome::Running(m) => step(code[n - 1], n - 1, m, args),
            done => done,
        }
    }
}

/// What a call of a lowered function with `args` returns: the value that
/// its instructions return, if the arguments fit its parameters, it
/// returns, and the value is of its result type.
pub open spec fn run_function(func: FunctionCodeView, args: Seq<Val>) -> Option<Val> {
    if !arguments_fit(func.params, args) {
        None
    } else {
        match run(func.code, func.code.len(), args) {
            Outcome::Returned(value) => if func.result == Some(value.ty) {
                Some(value)
            } else {
                None
            },
            _ => None,
        }
    }
}

/// What the evaluation of an expression comes to.
pub enum Eval {
    /// It has a value, and leaves these bindings.
    Value { value: Val, env: Map<Seq<char>, Val> },
    /// It returned from the function with this value.
    Returned(Val),
    /// It went wrong.
    Fault,
}

/// What carrying out statements comes to.
pub enum Flow {
    /// Control goes on, with these bindings.
    Next(Map<Seq<char>, Val>),
    /// A statement returned from the function with this value.
    Returned(Val),
    /// A statement went wrong.
    Fault,
}

/// Evaluates `expr` with the bindings `env`.
///
/// A literal is its value and a name the value bound to it. An assignment
/// binds the name to the value of its right-hand side, which must be of
/// the recorded type, and is a null itself. Arithmetic evaluates the left
/// operand first. A return ends the function. The statements of a block
/// are carried out in order; what they bind stays bound after the block,
/// and the block is a null itself.
pub open spec fn eval(expr: Expression, env: Map<Seq<char>, Val>) -> Eval
    decreases expr, 0nat,
{
    match expr {
        Expression::Literal(literal) => Eval::Value { value: literal_value(literal), env },
        Expression::Identifier(name) => if env.contains_key(name@) {
            Eval::Value { value: env[name@], env }
        } else {
            Eval::Fault
        },
        Expression::Assignment { name, bound_expression, inferred_type } => match eval(
            *bound_expression,
            env,
        ) {
            Eval::Value { value, env: bound } => if inferred_type.machine_type() == Some(
                value.ty,
            ) {
                Eval::Value { value: null(), env: bound.insert(name@, value) }
            } else {
                Eval::Fault
            },
            done => done,
        },
        Expression::BinaryOp { operator, left, right } => match eval(*left, env) {
            Eval::Value { value: a, env: after_left } => match eval(*right, after_left) {
                Eval::Value { value: b, env: after_right } => match arith_op(operator) {
                    Some(op) => match arith(op, a, b) {
                        Some(value) => Eval::Value { value, env: after_right },
                        None => Eval::Fault,
                    },
                    None => Eval::Fault,
                },
                done => done,
            },
            done => done,
        },
        Expression::Return(inner) => match eval(*inner, env) {
            Eval::Value { value, .. } => Eval::Returned(value),
            done => done,
        },
        Expression::Block(statements) => match carry_out(statements@, statements@.len(), env) {
            Flow::Next(after) => Eval::Value { value: null(), env: after },
            Flow::Returned(value) => Eval::Returned(value),
            Flow::Fault => Eval::Fault,
        },
        Expression::FunctionDeclaration(_) | Expression::Call { .. } | Expression::Conditional { .. } => Eval::Fault,
    }
}

/// Carries out the first `n` of `statements` in order with the bindings
/// `env`, stopping at a return or a fault.
pub open spec fn carry_out(statements: Seq<Expression>, n: nat, env: Map<Seq<char>, Val>) -> Flow
    decreases statements, n,
{
    if n == 0 || n > statements.len() {
        Flow::Next(env)
    } else {
        match carry_out(statements, (n - 1) as nat, env) {
            Flow::Next(before) => match eval(statements[n - 1], before) {
                Eval::Value { env: after, .. } => Flow::Next(after),
                Eval::Returned(value) => Flow::Returned(value),
                Eval::Fault => Flow::Fault,
            },
            done => done,
        }
    }
}

/// The bindings with which the body of a function starts: each of the
/// first `n` parameters that has a run-time value is bound to the next
/// argument.
pub open spec fn bind_arguments(params: Seq<(String, SourceType)>, n: nat, args: Seq<Val>) -> Map<
    Seq<char>,
    Val,
>
    decreases n,
{
    if n == 0 || n > params.len() {
        Map::empty()
    } else {
        let earlier = bind_arguments(params, (n - 1) as nat, args);
        if params[n - 1].1.has_value() {
            earlier.insert(params[n - 1].0@, args[machine_params(params, n).len() - 1])
        } else {
            earlier
        }
    }
}

/// What a call of a source function with `args` returns, one argument for
/// each parameter that has a run-time value: the value that its body
/// returns, if the arguments fit, the body returns, and the value is of
/// the return type.
pub open spec fn interpret(func: FunctionDecl, args: Seq<Val>) -> Option<Val> {
    if !arguments_fit(func.machine_params(), args) {
        None
    } else {
        match carry_out(
            func.body@,
            func.body@.len(),
            bind_arguments(func.params@, func.params@.len(), args),
        ) {
            Flow::Returned(value) => if func.return_type.machine_type() == Some(value.ty) {
                Some(value)
            } else {
                None
            },
            _ => None,
        }
    }
}

/// The rounding of quotients: the quotient times the divisor falls short of
/// the dividend by a remainder that is smaller in magnitude than the
/// divisor and is zero or has the sign of the dividend. So the quotient is
/// the exact quotient with its fraction cut off.
pub proof fn lemma_quotient_rounds_toward_zero(a: int, b: int)
    requires
        b != 0,
    ensures
        ({
            let remainder = a - truncating_quotient(a, b) * b;
            let bound = if b > 0 { b } else { -b };
            &&& a >= 0 ==> 0 <= remainder < bound
            &&& a <= 0 ==> -bound < remainder <= 0
        }),
{
    let x = if a >= 0 { a } else { -a };
    let d = if b > 0 { b } else { -b };
    vstd::arithmetic::div_mod::lemma_fundamental_div_mod(x, d);
    vstd::arithmetic::div_mod::lemma_mod_bound(x, d);
    let q = x / d;
    assert(x == d * q + x % d);
    if a >= 0 && b > 0 {
        assert(truncating_quotient(a, b) * b == d * q) by (nonlinear_arith)
            requires
                truncating_quotient(a, b) == q,
                b == d,
        ;
    } else if a < 0 && b > 0 {
        assert(truncating_quotient(a, b) * b == -(d * q)) by (nonlinear_arith)
            requires
                truncating_quotient(a, b) == -q,
                b == d,
        ;
    } else if a >= 0 && b < 0 {
        assert(truncating_quotient(a, b) * b == d * q) by (nonlinear_arith)
            requires
                truncating_quotient(a, b) == -q,
                b == -d,
        ;
    } else {
        assert(truncating_quotient(a, b) * b == -(d * q)) by (nonlinear_arith)
            requires
                truncating_quotient(a, b) == q,
                b == -d,
        ;
    }
}

/// Division where it has a result: the quotient rounded toward zero, for
/// operands within the range of their type.
pub proof fn lemma_division_is_truncating(a: Val, b: Val)
    requires
        a.ty == b.ty,
        a.ty.is_integer(),
        a.in_range(),
        b.in_range(),
        b.bits != 0,
        !(a.bits == -(modulus(a.ty) / 2) && b.bits == -1),
    ensures
        arith(ArithOp::SignedDiv, a, b) == Some(
            Val { ty: a.ty, bits: truncating_quotient(a.bits, b.bits) },
        ),
{
    reveal(arith);
    let x = if a.bits >= 0 { a.bits } else { -a.bits };
    let d = if b.bits > 0 { b.bits } else { -b.bits };
    vstd::arithmetic::div_mod::lemma_div_pos_is_pos(x, d);
    vstd::arithmetic::div_mod::lemma_div_nonincreasing(x, d);
    if x > 0 && d > 1 {
        vstd::arithmetic::div_mod::lemma_div_is_strictly_smaller(x, d);
    }
    if d == 1 {
        vstd::arithmetic::div_mod::lemma_div_basics(x);
    }
    lemma_wrap_in_range(a.ty, truncating_quotient(a.bits, b.bits));
}

/// A value that is within the range of an integer type wraps around to
/// itself.
pub proof fn lemma_wrap_in_range(ty: MachineType, x: int)
    requires
        -(modulus(ty) / 2) <= x < modulus(ty) / 2,
    ensures
        wrap(ty, x) == x,
{
    reveal(wrap);
}

} // verus!
