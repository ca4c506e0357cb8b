//! Source types, machine types, and the mapping from the first to the second.

use vstd::prelude::*;

verus! {

/// The primitive types of the source language.
#[derive(Clone, Copy, Debug, PartialEq, Eq, Structural)]
pub enum Primitive {
    Int,
    Float,
    String,
    Array,
    Char,
    Bool,
}

/// A type as type inference hands it over.
///
/// `Unresolved` marks a hole that inference could not fill. It has no
/// machine representation and must never reach lowering.
#[derive(Debug)]
pub enum SourceType {
    Unresolved,
    Unit,
    Primitive(Primitive),
    Record(Vec<(String, SourceType)>),
    FunctionType { param_types: Vec<SourceType>, return_type: Box<SourceType> },
}

/// A fixed-width value representation that the code generator understands.
///
/// `I64` doubles as the pointer: every host the code generator targets has
/// 64-bit addresses.
#[derive(Clone, Copy, Debug, PartialEq, Eq, Structural)]
pub enum MachineType {
    I8,
    I32,
    I64,
    F64,
}

impl MachineType {
    /// Whether values of this type are integers (and so take part in
    /// integer arithmetic).
    pub open spec fn is_integer(self) -> bool {
        self != MachineType::F64
    }
}

impl SourceType {
    /// Whether this is the hole itself. A hole nested inside a record or a
    /// function type does not count: those lower to a pointer unseen.
    pub open spec fn is_unresolved(self) -> bool {
        self is Unresolved
    }

    /// The machine type that carries a value of this type at run time, or
    /// `None` where the type has no run-time value.
    ///
    /// The hole is given `None` here so that the function is total; callers
    /// that lower types rule it out beforehand.
    pub open spec fn machine_type(self) -> Option<MachineType> {
        match self {
            SourceType::Unresolved => None,
            SourceType::Unit => None,
            SourceType::Primitive(Primitive::Int) => Some(MachineType::I32),
            SourceType::Primitive(Primitive::Float) => Some(MachineType::F64),
            SourceType::Primitive(Primitive::String) => Some(MachineType::I64),
            SourceType::Primitive(Primitive::Array) => Some(MachineType::I64),
            SourceType::Primitive(Primitive::Char) => Some(MachineType::I8),
            SourceType::Primitive(Primitive::Bool) => Some(MachineType::I8),
            SourceType::Record(_) => Some(MachineType::I64),
            SourceType::FunctionType { .. } => Some(MachineType::I64),
        }
    }

    /// Whether a value of this type exists at run time.
    pub open spec fn has_value(self) -> bool {
        self.machine_type() is Some
    }
}

/// Exec counterpart of [`SourceType::is_unresolved`].
pub fn is_unresolved(ty: &SourceType) -> (hole: bool)
    ensures
        hole == ty.is_unresolved(),
{
    match ty {
        SourceType::Unresolved => true,
        SourceType::Unit
        | SourceType::Primitive(_)
        | SourceType::Record(_)
        | SourceType::FunctionType { .. } => false,
    }
}

/// Exec counterpart of [`SourceType::has_value`].
pub fn has_value(ty: &SourceType) -> (valued: bool)
    ensures
        valued == ty.has_value(),
{
    match ty {
        SourceType::Unresolved | SourceType::Unit => false,
        SourceType::Primitive(_) | SourceType::Record(_) | SourceType::FunctionType { .. } => true,
    }
}

/// Maps a source type to its machine type; `None` stands for "no value".
///
/// Unit has no value. Booleans and characters take one byte, integers four,
/// floats eight; strings, arrays, records and functions are opaque
/// references of pointer width.
pub fn lower_type(ty: &SourceType) -> (machine: Option<MachineType>)
    requires
        !ty.is_unresolved(),
    ensures
        machine == ty.machine_type(),
        machine is None <==> *ty is Unit,
{
    match ty {
        SourceType::Unresolved => None,
        SourceType::Unit => None,
        SourceType::Primitive(p) => match p {
            Primitive::Int => Some(MachineType::I32),
            Primitive::Float => Some(MachineType::F64),
            Primitive::String | Primitive::Array => Some(MachineType::I64),
            Primitive::Char | Primitive::Bool => Some(MachineType::I8),
        },
        SourceType::Record(_) | SourceType::FunctionType { .. } => Some(MachineType::I64),
    }
}

/// Type lowering is a function of the type alone and is defined on every
/// type but the hole: two equal types lower alike, and each resolved type
/// lowers either to a machine type or, for unit only, to "no value".
pub proof fn lemma_lower_type_total_and_deterministic(a: SourceType, b: SourceType)
    requires
        !a.is_unresolved(),
        a == b,
    ensures
        a.machine_type() == b.machine_type(),
        a is Unit ==> a.machine_type() is None,
        !(a is Unit) ==> a.machine_type() is Some,
{
}

} // verus!
