//! Lowering of a typed abstract syntax tree to a flat instruction list, and
//! the emission of that list through Cranelift into a relocatable object.
//!
//! The way from source to object has two halves. The first is this
//! library's own and is proved: [`types`] maps source types to machine
//! types, [`symbols`] keeps the slot of each name, [`lowering`] turns
//! expressions and [`function`] whole functions into the instructions of
//! [`ir`]. [`semantics`] says what instructions and syntax trees mean,
//! [`preservation`] that lowering keeps the meaning, and [`interpreter`]
//! carries lowered functions out. The second half hands the instructions to
//! the code generator: [`clif`] states what is relied on of it, [`backend`]
//! drives it, and [`demo`] builds one fixed example with it.

pub mod ast;
pub mod backend;
pub mod clif;
pub mod demo;
pub mod function;
pub mod interpreter;
pub mod ir;
pub mod lowering;
pub mod preservation;
pub mod semantics;
pub mod symbols;
pub mod types;

pub use crate::backend::translate;
pub use crate::demo::generate;
pub use crate::symbols::Ctx;
