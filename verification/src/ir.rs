//! The flat instruction list that functions are lowered to.
//!
//! A [`FunctionCode`] records, in order, the requests that building one
//! function makes of a code generator: constants, arithmetic, variable
//! declarations, definitions and uses, and the final return. A value is named
//! by the position of the instruction that yields it.

use vstd::prelude::*;
use crate::types::MachineType;

verus! {

/// The arithmetic that lowering emits. Division is signed and truncates
/// toward zero.
#[derive(Clone, Copy, Debug, PartialEq, Eq, Structural)]
pub enum ArithOp {
    Add,
    Sub,
    Mul,
    SignedDiv,
}

/// One request to the code generator.
#[derive(Clone, Copy, Debug, PartialEq, Eq, Structural)]
pub enum Instr {
    /// An integer constant of the given type.
    Const { ty: MachineType, imm: i64 },
    /// Arithmetic on two earlier values.
    Arith { op: ArithOp, lhs: usize, rhs: usize },
    /// Registers the type of a storage slot.
    DeclareVar { slot: u32, ty: MachineType },
    /// Stores an earlier value in a slot.
    DefVar { slot: u32, value: usize },
    /// Reads the value a slot currently holds.
    UseVar { slot: u32 },
    /// Reads a positional parameter of the entry block.
    Param { index: usize },
    /// Leaves the function with an earlier value.
    Return { value: usize },
    /// Allocates a block label. Control never enters it.
    NewBlock,
}

impl Instr {
    /// Whether the instruction yields a value that later ones may name.
    pub open spec fn yields_value(self) -> bool {
        self is Const || self is Arith || self is UseVar || self is Param
    }

    /// Whether carrying the instruction out places code in the current
    /// block, which a block that already ends in a return does not admit.
    pub open spec fn inserts_code(self) -> bool {
        self is Const || self is Arith || self is UseVar || self is Return
    }
}

/// The slots declared by the first `n` instructions of `code`.
pub open spec fn declared_slots(code: Seq<Instr>, n: nat) -> Set<u32>
    decreases n,
{
    if n == 0 || n > code.len() {
        Set::empty()
    } else {
        let earlier = declared_slots(code, (n - 1) as nat);
        match code[n - 1] {
            Instr::DeclareVar { slot, .. } => earlier.insert(slot),
            _ => earlier,
        }
    }
}

/// Whether `v` names a value that one of the first `n` instructions yields.
pub open spec fn is_value_before(code: Seq<Instr>, n: int, v: usize) -> bool {
    v < n && v < code.len() && code[v as int].yields_value()
}

/// Whether instruction `i` refers only to what the instructions before it
/// provide: operands are values yielded earlier, a slot is declared before
/// it is defined or used and never declared twice, and a parameter exists.
pub open spec fn instr_ok(code: Seq<Instr>, params: nat, i: int) -> bool
    recommends
        0 <= i < code.len(),
{
    match code[i] {
        Instr::Const { .. } => true,
        Instr::Arith { lhs, rhs, .. } => is_value_before(code, i, lhs) && is_value_before(
            code,
            i,
            rhs,
        ),
        Instr::DeclareVar { slot, .. } => slot < u32::MAX && !declared_slots(
            code,
            i as nat,
        ).contains(slot),
        Instr::DefVar { slot, value } => declared_slots(code, i as nat).contains(slot)
            && is_value_before(code, i, value),
        Instr::UseVar { slot } => declared_slots(code, i as nat).contains(slot),
        Instr::Param { index } => index < params,
        Instr::Return { value } => is_value_before(code, i, value),
        Instr::NewBlock => true,
    }
}

/// Whether every instruction of `code` is [`instr_ok`].
pub open spec fn code_ok(code: Seq<Instr>, params: nat) -> bool {
    forall|i: int| 0 <= i < code.len() ==> instr_ok(code, params, i)
}

/// Whether `longer` begins with all of `shorter`.
pub open spec fn extends(longer: Seq<Instr>, shorter: Seq<Instr>) -> bool {
    &&& shorter.len() <= longer.len()
    &&& forall|i: int| 0 <= i < shorter.len() ==> longer[i] == shorter[i]
}

/// What two instruction lists declare in their first `n` instructions is the
/// same when they agree on those instructions.
pub proof fn lemma_declared_slots_agree(a: Seq<Instr>, b: Seq<Instr>, n: nat)
    requires
        n <= a.len(),
        n <= b.len(),
        forall|i: int| 0 <= i < n ==> a[i] == b[i],
    ensures
        declared_slots(a, n) == declared_slots(b, n),
    decreases n,
{
    if n > 0 {
        lemma_declared_slots_agree(a, b, (n - 1) as nat);
    }
}

/// What a list declares after one more instruction: the same slots, and the
/// new one if the instruction is a declaration.
pub proof fn lemma_declared_slots_push(code: Seq<Instr>, instr: Instr)
    ensures
        declared_slots(code.push(instr), code.len() + 1) == match instr {
            Instr::DeclareVar { slot, .. } => declared_slots(code, code.len()).insert(slot),
            _ => declared_slots(code, code.len()),
        },
{
    lemma_declared_slots_agree(code, code.push(instr), code.len());
}

/// An instruction that was in order stays in order when the list grows.
pub proof fn lemma_instr_ok_extends(shorter: Seq<Instr>, longer: Seq<Instr>, params: nat, i: int)
    requires
        extends(longer, shorter),
        0 <= i < shorter.len(),
        instr_ok(shorter, params, i),
    ensures
        instr_ok(longer, params, i),
{
    lemma_declared_slots_agree(shorter, longer, i as nat);
}

/// Appending an instruction that is in order at the end keeps a list in
/// order.
pub proof fn lemma_code_ok_push(code: Seq<Instr>, params: nat, instr: Instr)
    requires
        code_ok(code, params),
        instr_ok(code.push(instr), params, code.len() as int),
    ensures
        code_ok(code.push(instr), params),
        extends(code.push(instr), code),
{
    let longer = code.push(instr);
    assert forall|i: int| 0 <= i < longer.len() implies instr_ok(longer, params, i) by {
        if i < code.len() {
            lemma_instr_ok_extends(code, longer, params, i);
        }
    }
}

/// The signature and instructions of one lowered function, as a value.
pub struct FunctionCodeView {
    pub name: Seq<char>,
    pub params: Seq<MachineType>,
    pub result: Option<MachineType>,
    pub code: Seq<Instr>,
}

impl FunctionCodeView {
    /// The same function with one more instruction at the end.
    pub open spec fn push(self, instr: Instr) -> FunctionCodeView {
        FunctionCodeView { code: self.code.push(instr), ..self }
    }

    /// Whether the instructions are in order for this signature.
    pub open spec fn wf(self) -> bool {
        code_ok(self.code, self.params.len())
    }

    /// Whether `v` names a value that some instruction yields.
    pub open spec fn is_value(self, v: usize) -> bool {
        is_value_before(self.code, self.code.len() as int, v)
    }

    /// The slots that the instructions declare.
    pub open spec fn declared(self) -> Set<u32> {
        declared_slots(self.code, self.code.len())
    }

    /// Whether some instruction declares `slot`.
    pub open spec fn declares(self, slot: u32) -> bool {
        self.declared().contains(slot)
    }
}

/// One function under construction or fully lowered: its name, its machine
/// signature, and the instructions recorded so far.
#[derive(Debug)]
pub struct FunctionCode {
    name: String,
    params: Vec<MachineType>,
    result: Option<MachineType>,
    code: Vec<Instr>,
}

impl View for FunctionCode {
    type V = FunctionCodeView;

    closed spec fn view(&self) -> FunctionCodeView {
        FunctionCodeView {
            name: self.name@,
            params: self.params@,
            result: self.result,
            code: self.code@,
        }
    }
}

impl FunctionCode {
    /// Whether the recorded instructions are in order.
    pub open spec fn wf(&self) -> bool {
        self@.wf()
    }

    /// Starts a function with the given name and machine signature and no
    /// instructions.
    pub fn new(name: String, params: Vec<MachineType>, result: Option<MachineType>) -> (f: Self)
        ensures
            f@.name == name@,
            f@.params == params@,
            f@.result == result,
            f@.code == Seq::<Instr>::empty(),
            f.wf(),
    {
        FunctionCode { name, params, result, code: Vec::new() }
    }

    /// The symbol under which the function is exported.
    pub fn name(&self) -> (name: &String)
        ensures
            name@ == self@.name,
    {
        &self.name
    }

    /// The machine types of the parameters, in order.
    pub fn params(&self) -> (params: &Vec<MachineType>)
        ensures
            params@ == self@.params,
    {
        &self.params
    }

    /// The machine type of the result, if the function hands back a value.
    pub fn result(&self) -> (result: Option<MachineType>)
        ensures
            result == self@.result,
    {
        self.result
    }

    /// The instructions recorded so far, in order.
    pub fn code(&self) -> (code: &Vec<Instr>)
        ensures
            code@ == self@.code,
    {
        &self.code
    }

    /// Appends `instr`, which must be in order at the end of the list.
    fn record(&mut self, instr: Instr)
        requires
            old(self).wf(),
            instr_ok(old(self)@.code.push(instr), old(self)@.params.len(), old(self)@.code.len() as int),
        ensures
            final(self)@ == old(self)@.push(instr),
            final(self).wf(),
            !(instr is DeclareVar) ==> final(self)@.declared() == old(self)@.declared(),
    {
        proof {
            lemma_code_ok_push(self@.code, self@.params.len(), instr);
            lemma_declared_slots_push(self@.code, instr);
        }
        self.code.push(instr);
    }

    /// Records an integer constant and names its value.
    pub fn iconst(&mut self, ty: MachineType, imm: i64) -> (value: usize)
        requires
            old(self).wf(),
        ensures
            final(self)@ == old(self)@.push(Instr::Const { ty, imm }),
            final(self).wf(),
            final(self)@.declared() == old(self)@.declared(),
            value == old(self)@.code.len(),
    {
        let value = self.code.len();
        self.record(Instr::Const { ty, imm });
        value
    }

    /// Records arithmetic on two recorded values and names the result.
    pub fn arith(&mut self, op: ArithOp, lhs: usize, rhs: usize) -> (value: usize)
        requires
            old(self).wf(),
            old(self)@.is_value(lhs),
            old(self)@.is_value(rhs),
        ensures
            final(self)@ == old(self)@.push(Instr::Arith { op, lhs, rhs }),
            final(self).wf(),
            final(self)@.declared() == old(self)@.declared(),
            value == old(self)@.code.len(),
    {
        let value = self.code.len();
        self.record(Instr::Arith { op, lhs, rhs });
        value
    }

    /// Records the declaration of a slot that has not been declared yet.
    pub fn declare_var(&mut self, slot: u32, ty: MachineType)
        requires
            old(self).wf(),
            slot < u32::MAX,
            !old(self)@.declares(slot),
        ensures
            final(self)@ == old(self)@.push(Instr::DeclareVar { slot, ty }),
            final(self).wf(),
            final(self)@.declared() == old(self)@.declared().insert(slot),
    {
        proof {
            lemma_declared_slots_agree(
                self@.code,
                self@.code.push(Instr::DeclareVar { slot, ty }),
                self@.code.len(),
            );
            lemma_declared_slots_push(self@.code, Instr::DeclareVar { slot, ty });
        }
        self.record(Instr::DeclareVar { slot, ty });
    }

    /// Records that a declared slot takes a recorded value.
    pub fn def_var(&mut self, slot: u32, value: usize)
        requires
            old(self).wf(),
            old(self)@.declares(slot),
            old(self)@.is_value(value),
        ensures
            final(self)@ == old(self)@.push(Instr::DefVar { slot, value }),
            final(self).wf(),
            final(self)@.declared() == old(self)@.declared(),
    {
        proof {
            lemma_declared_slots_agree(
                self@.code,
                self@.code.push(Instr::DefVar { slot, value }),
                self@.code.len(),
            );
        }
        self.record(Instr::DefVar { slot, value });
    }

    /// Records a read of a declared slot and names the value read.
    pub fn use_var(&mut self, slot: u32) -> (value: usize)
        requires
            old(self).wf(),
            old(self)@.declares(slot),
        ensures
            final(self)@ == old(self)@.push(Instr::UseVar { slot }),
            final(self).wf(),
            final(self)@.declared() == old(self)@.declared(),
            value == old(self)@.code.len(),
    {
        proof {
            lemma_declared_slots_agree(
                self@.code,
                self@.code.push(Instr::UseVar { slot }),
                self@.code.len(),
            );
        }
        let value = self.code.len();
        self.record(Instr::UseVar { slot });
        value
    }

    /// Records a read of the entry block's parameter at `index` and names
    /// the value read.
    pub fn block_param(&mut self, index: usize) -> (value: usize)
        requires
            old(self).wf(),
            index < old(self)@.params.len(),
        ensures
            final(self)@ == old(self)@.push(Instr::Param { index }),
            final(self).wf(),
            final(self)@.declared() == old(self)@.declared(),
            value == old(self)@.code.len(),
    {
        let value = self.code.len();
        self.record(Instr::Param { index });
        value
    }

    /// Records a return of a recorded value.
    pub fn return_(&mut self, value: usize)
        requires
            old(self).wf(),
            old(self)@.is_value(value),
        ensures
            final(self)@ == old(self)@.push(Instr::Return { value }),
            final(self).wf(),
            final(self)@.declared() == old(self)@.declared(),
    {
        self.record(Instr::Return { value });
    }

    /// Records the allocation of a block label and hands the label back:
    /// the position of the allocation in the list.
    pub fn create_block(&mut self) -> (label: usize)
        requires
            old(self).wf(),
        ensures
            final(self)@ == old(self)@.push(Instr::NewBlock),
            final(self).wf(),
            final(self)@.declared() == old(self)@.declared(),
            label == old(self)@.code.len(),
    {
        let label = self.code.len();
        self.record(Instr::NewBlock);
        label
    }
}

} // verus!
