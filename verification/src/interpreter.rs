//! An interpreter for lowered functions: carries the instructions out as
//! their meaning says.

use vstd::prelude::*;
use crate::ast::FunctionDecl;
use crate::function::{lower_function, machine_params};
use crate::ir::{ArithOp, FunctionCode, Instr};
use crate::preservation::{lemma_lowering_preserves_meaning, lemma_run_stays_done};
use crate::semantics::{
    arguments_fit, arith, interpret, modulus, run, run_function, step, truncating_quotient, wrap,
    Machine, Outcome, Val,
};
use crate::types::{has_value, MachineType};

verus! {

/// A machine value as the interpreter holds it. For an integer type `bits`
/// is the value, within the range of the type; for a float it is the bit
/// pattern.
#[derive(Clone, Copy, Debug, PartialEq, Eq, Structural)]
pub struct Value {
    pub ty: MachineType,
    pub bits: i64,
}

impl View for Value {
    type V = Val;

    open spec fn view(&self) -> Val {
        Val { ty: self.ty, bits: self.bits as int }
    }
}

impl Value {
    /// Whether the value is within the range of its type.
    pub open spec fn wf(self) -> bool {
        self@.in_range()
    }
}

/// The values that a vector of interpreter values stands for.
pub open spec fn values_of(values: Seq<Value>) -> Seq<Val> {
    Seq::new(values.len(), |i: int| values[i]@)
}

/// The value that an optional interpreter value stands for.
pub open spec fn value_of(value: Option<Value>) -> Option<Val> {
    match value {
        Some(v) => Some(v@),
        None => None,
    }
}

/// Whether the value, if there is one, is within the range of its type.
pub open spec fn in_range_if_any(value: Option<Value>) -> bool {
    match value {
        Some(v) => v.wf(),
        None => true,
    }
}

/// Wraps `x` around to the range of `ty`.
fn wrap_to(ty: MachineType, x: i128) -> (bits: i64)
    requires
        -0x4000_0000_0000_0000_0000_0000_0000_0000 <= x <= 0x4000_0000_0000_0000_0000_0000_0000_0000,
    ensures
        bits == wrap(ty, x as int),
        (Value { ty, bits }).wf(),
{
    reveal(wrap);
    let half: i128 = match ty {
        MachineType::I8 => 0x80,
        MachineType::I32 => 0x8000_0000,
        MachineType::I64 => 0x8000_0000_0000_0000,
        MachineType::F64 => 0x8000_0000_0000_0000,
    };
    let size: i128 = half + half;
    assert(size == modulus(ty));
    assert(half == modulus(ty) / 2);
    proof {
        vstd::arithmetic::div_mod::lemma_mod_bound((x + half) as int, size as int);
    }
    match (x + half).checked_rem_euclid(size) {
        Some(rest) => (rest - half) as i64,
        None => 0,
    }
}

/// The quotient of two 64-bit integers is one, but for the least by -1.
proof fn lemma_quotient_fits(a: int, b: int)
    requires
        i64::MIN <= a <= i64::MAX,
        i64::MIN <= b <= i64::MAX,
        b != 0,
        !(a == i64::MIN && b == -1),
    ensures
        i64::MIN <= truncating_quotient(a, b) <= i64::MAX,
{
    let x = if a >= 0 { a } else { -a };
    let d = if b > 0 { b } else { -b };
    vstd::arithmetic::div_mod::lemma_div_pos_is_pos(x, d);
    vstd::arithmetic::div_mod::lemma_div_nonincreasing(x, d);
    if x > 0 && d > 1 {
        vstd::arithmetic::div_mod::lemma_div_is_strictly_smaller(x, d);
    }
}

/// Exec counterpart of [`arith`].
pub fn arith_values(op: ArithOp, a: Value, b: Value) -> (result: Option<Value>)
    requires
        a.wf(),
        b.wf(),
    ensures
        value_of(result) == arith(op, a@, b@),
        result matches Some(value) ==> value.wf(),
{
    reveal(arith);
    if a.ty != b.ty || a.ty == MachineType::F64 {
        return None;
    }
    let ty = a.ty;
    let x = a.bits as i128;
    let y = b.bits as i128;
    match op {
        ArithOp::Add => Some(Value { ty, bits: wrap_to(ty, x + y) }),
        ArithOp::Sub => Some(Value { ty, bits: wrap_to(ty, x - y) }),
        ArithOp::Mul => {
            assert(-0x4000_0000_0000_0000_0000_0000_0000_0000 <= x * y
                <= 0x4000_0000_0000_0000_0000_0000_0000_0000) by (nonlinear_arith)
                requires
                    -0x8000_0000_0000_0000 <= x <= 0x8000_0000_0000_0000,
                    -0x8000_0000_0000_0000 <= y <= 0x8000_0000_0000_0000,
            ;
            Some(Value { ty, bits: wrap_to(ty, x * y) })
        },
        ArithOp::SignedDiv => {
            let least: i64 = match ty {
                MachineType::I8 => -0x80,
                MachineType::I32 => -0x8000_0000,
                MachineType::I64 => i64::MIN,
                MachineType::F64 => i64::MIN,
            };
            if b.bits == 0 || (a.bits == least && b.bits == -1) {
                return None;
            }
            proof {
                vstd::arithmetic::div_mod::lemma_div_of0(b.bits as int);
                vstd::arithmetic::div_mod::lemma_div_of0(-(b.bits as int));
                lemma_quotient_fits(a.bits as int, b.bits as int);
            }
            match a.bits.checked_div(b.bits) {
                Some(quotient) => {
                    assert(quotient == truncating_quotient(a.bits as int, b.bits as int));
                    Some(Value { ty, bits: wrap_to(ty, quotient as i128) })
                },
                None => None,
            }
        },
    }
}

/// What a slot is at one point of a run: its declared type, or a value it
/// took.
struct SlotEvent {
    slot: u32,
    ty: MachineType,
    held: Option<Value>,
}

/// The declared types that the first `n` events leave.
spec fn types_after(events: Seq<SlotEvent>, n: nat) -> Map<u32, MachineType>
    decreases n,
{
    if n == 0 || n > events.len() {
        Map::empty()
    } else {
        types_after(events, (n - 1) as nat).insert(events[n - 1].slot, events[n - 1].ty)
    }
}

/// What the slots hold after the first `n` events.
spec fn held_after(events: Seq<SlotEvent>, n: nat) -> Map<u32, Val>
    decreases n,
{
    if n == 0 || n > events.len() {
        Map::empty()
    } else {
        let earlier = held_after(events, (n - 1) as nat);
        match events[n - 1].held {
            Some(value) => earlier.insert(events[n - 1].slot, value@),
            None => earlier,
        }
    }
}

proof fn lemma_events_agree(a: Seq<SlotEvent>, b: Seq<SlotEvent>, n: nat)
    requires
        n <= a.len(),
        n <= b.len(),
        forall|i: int| 0 <= i < n ==> a[i] == b[i],
    ensures
        types_after(a, n) == types_after(b, n),
        held_after(a, n) == held_after(b, n),
    decreases n,
{
    if n > 0 {
        lemma_events_agree(a, b, (n - 1) as nat);
    }
}

/// The declared type of `slot`, if it is declared.
fn declared_type(events: &Vec<SlotEvent>, slot: u32) -> (ty: Option<MachineType>)
    ensures
        ty is Some == types_after(events@, events@.len()).contains_key(slot),
        ty matches Some(t) ==> types_after(events@, events@.len())[slot] == t,
{
    let mut i = events.len();
    while i > 0
        invariant
            i <= events@.len(),
            types_after(events@, events@.len()).contains_key(slot) == types_after(
                events@,
                i as nat,
            ).contains_key(slot),
            types_after(events@, events@.len()).contains_key(slot) ==> types_after(
                events@,
                events@.len(),
            )[slot] == types_after(events@, i as nat)[slot],
        decreases i,
    {
        i = i - 1;
        if events[i].slot == slot {
            return Some(events[i].ty);
        }
    }
    None
}

/// What `slot` holds, if it took a value.
fn held_value(events: &Vec<SlotEvent>, slot: u32) -> (value: Option<Value>)
    requires
        forall|i: int| 0 <= i < events@.len() ==> in_range_if_any((#[trigger] events@[i]).held),
    ensures
        value is Some == held_after(events@, events@.len()).contains_key(slot),
        value matches Some(v) ==> held_after(events@, events@.len())[slot] == v@ && v.wf(),
{
    let mut i = events.len();
    while i > 0
        invariant
            i <= events@.len(),
            forall|j: int| 0 <= j < events@.len() ==> in_range_if_any((#[trigger] events@[j]).held),
            held_after(events@, events@.len()).contains_key(slot) == held_after(
                events@,
                i as nat,
            ).contains_key(slot),
            held_after(events@, events@.len()).contains_key(slot) ==> held_after(
                events@,
                events@.len(),
            )[slot] == held_after(events@, i as nat)[slot],
        decreases i,
    {
        i = i - 1;
        if events[i].slot == slot {
            match events[i].held {
                Some(value) => {
                    return Some(value);
                },
                None => {},
            }
        }
    }
    None
}

/// The values that the first `n` positions hold.
spec fn values_after(vals: Seq<Option<Value>>, n: nat) -> Map<int, Val>
    decreases n,
{
    if n == 0 || n > vals.len() {
        Map::empty()
    } else {
        let earlier = values_after(vals, (n - 1) as nat);
        match vals[n - 1] {
            Some(value) => earlier.insert(n - 1, value@),
            None => earlier,
        }
    }
}

proof fn lemma_values_agree(a: Seq<Option<Value>>, b: Seq<Option<Value>>, n: nat)
    requires
        n <= a.len(),
        n <= b.len(),
        forall|i: int| 0 <= i < n ==> a[i] == b[i],
    ensures
        values_after(a, n) == values_after(b, n),
    decreases n,
{
    if n > 0 {
        lemma_values_agree(a, b, (n - 1) as nat);
    }
}

proof fn lemma_values_held(vals: Seq<Option<Value>>, n: nat, at: int)
    requires
        n <= vals.len(),
    ensures
        values_after(vals, n).contains_key(at) == (0 <= at < n && vals[at] is Some),
        values_after(vals, n).contains_key(at) ==> values_after(vals, n)[at] == vals[at].unwrap()@,
    decreases n,
{
    if n > 0 {
        lemma_values_held(vals, (n - 1) as nat, at);
    }
}

/// The value at position `at`, if that position yielded one.
fn value_at(vals: &Vec<Option<Value>>, at: usize) -> (value: Option<Value>)
    ensures
        value is Some == values_after(vals@, vals@.len()).contains_key(at as int),
        value matches Some(v) ==> values_after(vals@, vals@.len())[at as int] == v@,
        value is Some ==> at < vals@.len() && vals@[at as int] == value,
{
    proof {
        lemma_values_held(vals@, vals@.len(), at as int);
    }
    if at < vals.len() {
        vals[at]
    } else {
        None
    }
}

/// Calls the lowered function `code` with `args` and hands back what it
/// returns: `None` where the arguments do not fit the parameters, where an
/// instruction goes wrong, where the function does not return, and where
/// what it returns is not of its result type.
pub fn execute(code: &FunctionCode, args: &Vec<Value>) -> (result: Option<Value>)
    requires
        forall|i: int| 0 <= i < args@.len() ==> (#[trigger] args@[i]).wf(),
    ensures
        value_of(result) == run_function(code@, values_of(args@)),
        result matches Some(value) ==> value.wf(),
{
    let params = code.params();
    assert(values_of(args@).len() == args@.len());
    if args.len() != params.len() {
        return None;
    }
    let mut k: usize = 0;
    while k < args.len()
        invariant
            k <= args@.len(),
            args@.len() == params@.len(),
            params@ == code@.params,
            forall|j: int| 0 <= j < k ==> (#[trigger] values_of(args@)[j]).ty == params@[j],
        decreases args@.len() - k,
    {
        if args[k].ty != params[k] {
            assert(values_of(args@)[k as int].ty != params@[k as int]);
            return None;
        }
        k = k + 1;
    }
    assert(arguments_fit(code@.params, values_of(args@)));
    let instrs = code.code();
    let ghost given = values_of(args@);
    let mut vals: Vec<Option<Value>> = Vec::new();
    let mut events: Vec<SlotEvent> = Vec::new();
    let mut i: usize = 0;
    while i < instrs.len()
        invariant
            i <= instrs@.len(),
            instrs@ == code@.code,
            given == values_of(args@),
            arguments_fit(code@.params, given),
            vals@.len() == i,
            forall|j: int| 0 <= j < args@.len() ==> (#[trigger] args@[j]).wf(),
            forall|j: int| 0 <= j < vals@.len() ==> in_range_if_any(#[trigger] vals@[j]),
            forall|j: int| 0 <= j < events@.len() ==> in_range_if_any((#[trigger] events@[j]).held),
            run(instrs@, i as nat, given) == Outcome::Running(
                Machine {
                    values: values_after(vals@, vals@.len()),
                    slots: held_after(events@, events@.len()),
                    slot_types: types_after(events@, events@.len()),
                },
            ),
        decreases instrs@.len() - i,
    {
        let ghost m = Machine {
            values: values_after(vals@, vals@.len()),
            slots: held_after(events@, events@.len()),
            slot_types: types_after(events@, events@.len()),
        };
        let ghost before = vals@;
        let ghost earlier = events@;
        assert(run(instrs@, (i + 1) as nat, given) == step(instrs@[i as int], i as int, m, given));
        let mut yielded: Option<Value> = None;
        match instrs[i] {
            Instr::Const { ty, imm } => {
                if ty == MachineType::F64 {
                    proof {
                        lemma_run_ends(instrs@, (i + 1) as nat, given);
                    }
                    return None;
                }
                yielded = Some(Value { ty, bits: wrap_to(ty, imm as i128) });
            },
            Instr::Arith { op, lhs, rhs } => {
                let computed = match (value_at(&vals, lhs), value_at(&vals, rhs)) {
                    (Some(a), Some(b)) => arith_values(op, a, b),
                    _ => None,
                };
                match computed {
                    Some(value) => {
                        yielded = Some(value);
                    },
                    None => {
                        proof {
                            lemma_run_ends(instrs@, (i + 1) as nat, given);
                        }
                        return None;
                    },
                }
            },
            Instr::DeclareVar { slot, ty } => {
                events.push(SlotEvent { slot, ty, held: None });
                proof {
                    lemma_events_agree(earlier, events@, earlier.len());
                }
            },
            Instr::DefVar { slot, value } => {
                let stored = match (value_at(&vals, value), declared_type(&events, slot)) {
                    (Some(v), Some(ty)) => if ty == v.ty {
                        Some(v)
                    } else {
                        None
                    },
                    _ => None,
                };
                match stored {
                    Some(v) => {
                        events.push(SlotEvent { slot, ty: v.ty, held: Some(v) });
                        proof {
                            lemma_events_agree(earlier, events@, earlier.len());
                            assert(types_after(events@, events@.len()) =~= types_after(
                                earlier,
                                earlier.len(),
                            ));
                        }
                    },
                    None => {
                        proof {
                            lemma_run_ends(instrs@, (i + 1) as nat, given);
                        }
                        return None;
                    },
                }
            },
            Instr::UseVar { slot } => {
                match held_value(&events, slot) {
                    Some(value) => {
                        yielded = Some(value);
                    },
                    None => match declared_type(&events, slot) {
                        Some(ty) => {
                            yielded = Some(Value { ty, bits: 0 });
                        },
                        None => {
                            proof {
                                lemma_run_ends(instrs@, (i + 1) as nat, given);
                            }
                            return None;
                        },
                    },
                }
            },
            Instr::Param { index } => {
                if index < args.len() {
                    yielded = Some(args[index]);
                } else {
                    proof {
                        lemma_run_ends(instrs@, (i + 1) as nat, given);
                    }
                    return None;
                }
            },
            Instr::Return { value } => {
                proof {
                    lemma_run_ends(instrs@, (i + 1) as nat, given);
                }
                return match value_at(&vals, value) {
                    Some(v) => if code.result() == Some(v.ty) {
                        Some(v)
                    } else {
                        None
                    },
                    None => None,
                };
            },
            Instr::NewBlock => {},
        }
        vals.push(yielded);
        proof {
            lemma_values_agree(before, vals@, before.len());
            if yielded is None {
                assert(values_after(vals@, vals@.len()) =~= values_after(before, before.len()));
            }
        }
        i = i + 1;
    }
    None
}

/// Exec counterpart of [`FunctionDecl::aligned`].
pub fn is_aligned(func: &FunctionDecl) -> (aligned: bool)
    ensures
        aligned == func.aligned(),
{
    let mut count: usize = 0;
    let mut i: usize = 0;
    while i < func.params.len()
        invariant
            i <= func.params@.len(),
            count == machine_params(func.params@, i as nat).len(),
            count <= i,
        decreases func.params@.len() - i,
    {
        if has_value(&func.params[i].1) {
            count = count + 1;
        }
        i = i + 1;
    }
    let mut j: usize = 0;
    while j < count
        invariant
            j <= count,
            count <= func.params@.len(),
            count == func.machine_params().len(),
            forall|n: int| 0 <= n < j ==> (#[trigger] func.params@[n]).1.has_value(),
        decreases count - j,
    {
        if !has_value(&func.params[j].1) {
            return false;
        }
        j = j + 1;
    }
    true
}

/// Calls a source function with `args`, one for each parameter that has a
/// run-time value: lowers the function and carries the instructions out.
/// What comes back is what the direct interpretation of the function
/// returns.
pub fn evaluate(func: &FunctionDecl, args: &Vec<Value>) -> (result: Option<Value>)
    requires
        func.lowerable(),
        func.aligned(),
        forall|i: int| 0 <= i < args@.len() ==> (#[trigger] args@[i]).wf(),
    ensures
        value_of(result) == interpret(*func, values_of(args@)),
        result matches Some(value) ==> value.wf(),
{
    let code = lower_function(func);
    let length = code.code().len();
    proof {
        assert(func.lowered().code.len() == length);
        lemma_lowering_preserves_meaning(*func, values_of(args@));
    }
    execute(&code, args)
}

/// Once a function has returned or gone wrong at some point, that is what
/// all its instructions come to.
proof fn lemma_run_ends(code: Seq<Instr>, n: nat, args: Seq<Val>)
    requires
        n <= code.len(),
        !(run(code, n, args) is Running),
    ensures
        run(code, code.len(), args) == run(code, n, args),
{
    lemma_run_stays_done(code, n, code.len(), args);
}

} // verus!
