//! The per-function symbol table: which storage slot each name denotes.

use vstd::prelude::*;
use crate::ir::{declared_slots, FunctionCode, Instr};
use crate::types::MachineType;

verus! {

/// A symbol table as a value: the slot each bound name denotes, and the
/// slot that the next declaration will take.
pub struct SymbolTable {
    pub bindings: Map<Seq<char>, u32>,
    pub next_slot: nat,
}

impl SymbolTable {
    /// The table of a function that has declared nothing yet.
    pub open spec fn empty() -> SymbolTable {
        SymbolTable { bindings: Map::empty(), next_slot: 0 }
    }

    /// The slot that `name` denotes, if it is bound.
    pub open spec fn lookup(self, name: Seq<char>) -> Option<u32> {
        if self.bindings.contains_key(name) {
            Some(self.bindings[name])
        } else {
            None
        }
    }

    /// The table after `name` is declared: it denotes the next slot, whatever
    /// it denoted before, and every other name keeps its slot.
    pub open spec fn declare(self, name: Seq<char>) -> SymbolTable {
        SymbolTable {
            bindings: self.bindings.insert(name, self.next_slot as u32),
            next_slot: self.next_slot + 1,
        }
    }

    /// Whether every bound slot was handed out already, and the counter is
    /// still a slot number.
    pub open spec fn wf(self) -> bool {
        &&& self.next_slot <= u32::MAX
        &&& forall|name: Seq<char>| #[trigger]
            self.bindings.contains_key(name) ==> self.bindings[name] < self.next_slot
    }

    /// Whether the table and an instruction list belong together: every
    /// bound slot is declared in the list, and every slot declared there was
    /// handed out by this table's counter.
    pub open spec fn fits(self, code: Seq<Instr>) -> bool {
        self.fits_declared(declared_slots(code, code.len()))
    }

    /// Whether every bound slot is among `declared`, and every slot among
    /// `declared` was handed out by this table's counter.
    pub open spec fn fits_declared(self, declared: Set<u32>) -> bool {
        &&& forall|name: Seq<char>| #[trigger]
            self.bindings.contains_key(name) ==> declared.contains(self.bindings[name])
        &&& forall|slot: u32| #[trigger] declared.contains(slot) ==> slot < self.next_slot
    }
}

/// Declaring a name rebinds it: lookups of the name find the slot just
/// handed out, which no name denoted before, and lookups of every other
/// name find what they found before.
pub proof fn lemma_redeclaration_rebinds(table: SymbolTable, name: Seq<char>, other: Seq<char>)
    requires
        table.wf(),
        table.next_slot < u32::MAX,
    ensures
        table.declare(name).lookup(name) == Some(table.next_slot as u32),
        forall|earlier: Seq<char>| #[trigger]
            table.bindings.contains_key(earlier) ==> table.bindings[earlier] != table.next_slot,
        table.lookup(name) != table.declare(name).lookup(name),
        other != name ==> table.declare(name).lookup(other) == table.lookup(other),
        table.declare(name).wf(),
{
    assert forall|n: Seq<char>| #[trigger]
        table.declare(name).bindings.contains_key(n) implies table.declare(name).bindings[n]
        < table.declare(name).next_slot by {
        if n != name {
            assert(table.bindings.contains_key(n));
        }
    }
    if table.bindings.contains_key(name) {
        assert(table.bindings[name] < table.next_slot);
    }
}

/// The bindings that the first `n` declarations leave, later ones
/// overwriting earlier ones of the same name.
spec fn bindings_of(entries: Seq<(String, u32)>, n: nat) -> Map<Seq<char>, u32>
    decreases n,
{
    if n == 0 || n > entries.len() {
        Map::empty()
    } else {
        bindings_of(entries, (n - 1) as nat).insert(entries[n - 1].0@, entries[n - 1].1)
    }
}

proof fn lemma_bindings_alike(a: Seq<(String, u32)>, b: Seq<(String, u32)>, n: nat)
    requires
        n <= a.len(),
        n <= b.len(),
        forall|i: int| 0 <= i < n ==> a[i].0@ == b[i].0@ && a[i].1 == b[i].1,
    ensures
        bindings_of(a, n) == bindings_of(b, n),
    decreases n,
{
    if n > 0 {
        lemma_bindings_alike(a, b, (n - 1) as nat);
    }
}

/// The symbol table of the function being lowered.
///
/// Declarations are kept in the order they were made; a lookup finds the
/// newest declaration of a name.
#[derive(Debug)]
pub struct Ctx {
    variables: Vec<(String, u32)>,
    variable_counter: u32,
}

impl View for Ctx {
    type V = SymbolTable;

    closed spec fn view(&self) -> SymbolTable {
        SymbolTable {
            bindings: bindings_of(self.variables@, self.variables@.len()),
            next_slot: self.variable_counter as nat,
        }
    }
}

impl Ctx {
    /// A table with no bindings whose first slot will be 0.
    pub fn new() -> (ctx: Self)
        ensures
            ctx@ == SymbolTable::empty(),
            ctx@.wf(),
    {
        Ctx { variables: Vec::new(), variable_counter: 0 }
    }

    /// A second table with the same bindings and the same counter.
    pub fn duplicate(&self) -> (copy: Self)
        ensures
            copy@ == self@,
    {
        let mut variables: Vec<(String, u32)> = Vec::new();
        let mut i: usize = 0;
        while i < self.variables.len()
            invariant
                i <= self.variables@.len(),
                variables@.len() == i,
                forall|j: int| 0 <= j < i ==> variables@[j].0@ == self.variables@[j].0@
                    && variables@[j].1 == self.variables@[j].1,
            decreases self.variables@.len() - i,
        {
            variables.push((self.variables[i].0.clone(), self.variables[i].1));
            i = i + 1;
        }
        proof {
            lemma_bindings_alike(self.variables@, variables@, variables@.len());
        }
        Ctx { variables, variable_counter: self.variable_counter }
    }

    /// Whether the counter can still hand out a slot.
    pub fn has_free_slot(&self) -> (free: bool)
        ensures
            free == (self@.next_slot < u32::MAX),
    {
        self.variable_counter < u32::MAX
    }

    /// Binds `name` to a fresh slot in place of any earlier binding and
    /// hands the slot back. The slot's declaration is the caller's to record.
    pub fn bind(&mut self, name: &str) -> (slot: u32)
        requires
            old(self)@.wf(),
            old(self)@.next_slot < u32::MAX,
        ensures
            slot == old(self)@.next_slot,
            final(self)@ == old(self)@.declare(name@),
            final(self)@.wf(),
    {
        let var = self.variable_counter;
        self.variable_counter = var + 1;
        let ghost earlier = self.variables@;
        self.variables.push((name.to_owned(), var));
        proof {
            lemma_bindings_alike(earlier, self.variables@, earlier.len());
            assert forall|n: Seq<char>| #[trigger]
                self@.bindings.contains_key(n) implies self@.bindings[n] < self@.next_slot by {
                if n != name@ {
                    assert(old(self)@.bindings.contains_key(n));
                }
            }
        }
        var
    }

    /// Declares `name`: takes a fresh slot, records its declaration with
    /// type `ty` in `builder`, binds the name to the slot in place of any
    /// earlier binding, and hands the slot back.
    pub fn declare_variable(&mut self, name: &str, builder: &mut FunctionCode, ty: MachineType) -> (slot: u32)
        requires
            old(self)@.wf(),
            old(self)@.next_slot < u32::MAX,
            old(builder).wf(),
            old(self)@.fits(old(builder)@.code),
        ensures
            slot == old(self)@.next_slot,
            final(self)@ == old(self)@.declare(name@),
            final(self)@.wf(),
            final(builder)@ == old(builder)@.push(Instr::DeclareVar { slot, ty }),
            final(builder).wf(),
            final(self)@.fits(final(builder)@.code),
    {
        let var = self.bind(name);
        builder.declare_var(var, ty);
        proof {
            let declared = builder@.declared();
            assert forall|n: Seq<char>| #[trigger]
                self@.bindings.contains_key(n) implies declared.contains(self@.bindings[n]) by {
                if n != name@ {
                    assert(old(self)@.bindings.contains_key(n));
                }
            }
            assert forall|s: u32| #[trigger] declared.contains(s) implies s < self@.next_slot by {
                if s != var {
                    assert(old(builder)@.declared().contains(s));
                }
            }
        }
        var
    }

    /// The slot that `name` currently denotes, or `None` if it was never
    /// declared.
    pub fn get_variable(&self, name: &str) -> (slot: Option<u32>)
        ensures
            slot == self@.lookup(name@),
    {
        let wanted = name.to_owned();
        let mut i = self.variables.len();
        while i > 0
            invariant
                i <= self.variables@.len(),
                wanted@ == name@,
                bindings_of(self.variables@, self.variables@.len()).contains_key(name@)
                    == bindings_of(self.variables@, i as nat).contains_key(name@),
                bindings_of(self.variables@, self.variables@.len()).contains_key(name@)
                    ==> bindings_of(self.variables@, self.variables@.len())[name@]
                    == bindings_of(self.variables@, i as nat)[name@],
            decreases i,
        {
            i = i - 1;
            if self.variables[i].0 == wanted {
                return Some(self.variables[i].1);
            }
        }
        None
    }
}

} // verus!
