//! The typed abstract syntax tree that lowering reads.

use vstd::prelude::*;
use crate::types::SourceType;

verus! {

/// A literal constant. Only booleans and integers exist.
#[derive(Clone, Copy, Debug, PartialEq, Eq, Structural)]
pub enum Literal {
    Bool(bool),
    Int(i32),
}

/// A binary operator. Lowering knows the four arithmetic ones; the rest are
/// reserved.
#[derive(Clone, Copy, Debug, PartialEq, Eq, Structural)]
pub enum Operator {
    Plus,
    Minus,
    Times,
    Divide,
    Equal,
    Less,
}

/// A function as parsing and type inference deliver it.
#[derive(Debug)]
pub struct FunctionDecl {
    pub name: String,
    pub params: Vec<(String, SourceType)>,
    pub return_type: SourceType,
    pub body: Vec<Expression>,
}

/// An expression of the source language.
///
/// `Call` and `Conditional` are reserved: the parser produces them, lowering
/// has no case for them yet.
#[derive(Debug)]
pub enum Expression {
    Literal(Literal),
    Identifier(String),
    /// Binds `name` to the value of `bound_expression`. `inferred_type` is
    /// the type that type inference recorded for the bound expression; the
    /// new storage slot is sized by it, and lowering does not infer it
    /// again.
    Assignment { name: String, bound_expression: Box<Expression>, inferred_type: SourceType },
    BinaryOp { operator: Operator, left: Box<Expression>, right: Box<Expression> },
    Return(Box<Expression>),
    Block(Vec<Expression>),
    FunctionDeclaration(FunctionDecl),
    Call { callee: String, arguments: Vec<Expression> },
    Conditional { condition: Box<Expression>, then_branch: Box<Expression>, else_branch: Box<Expression> },
}

impl Expression {
    /// Number of nodes in the expression.
    pub open spec fn size(self) -> nat
        decreases self,
    {
        match self {
            Expression::Assignment { bound_expression, .. } => 1 + bound_expression.size(),
            Expression::BinaryOp { left, right, .. } => 1 + left.size() + right.size(),
            Expression::Return(inner) => 1 + inner.size(),
            Expression::Block(statements) => 1 + size_of_first(statements@, statements@.len()),
            Expression::Literal(_)
            | Expression::Identifier(_)
            | Expression::FunctionDeclaration(_)
            | Expression::Call { .. }
            | Expression::Conditional { .. } => 1,
        }
    }
}

impl Expression {
    /// Whether the hole stands, at any depth of the expression, where a
    /// type is recorded: as the type of an assignment, or as a parameter
    /// or return type of a nested function.
    pub open spec fn mentions_unresolved(self) -> bool
        decreases self,
    {
        match self {
            Expression::Assignment { bound_expression, inferred_type, .. } => {
                inferred_type.is_unresolved() || bound_expression.mentions_unresolved()
            },
            Expression::BinaryOp { left, right, .. } => {
                left.mentions_unresolved() || right.mentions_unresolved()
            },
            Expression::Return(inner) => inner.mentions_unresolved(),
            Expression::Block(statements) => any_mentions_unresolved(
                statements@,
                statements@.len(),
            ),
            Expression::FunctionDeclaration(func) => {
                ||| exists|i: int|
                    0 <= i < func.params@.len() && (#[trigger] func.params@[i]).1.is_unresolved()
                ||| func.return_type.is_unresolved()
                ||| any_mentions_unresolved(func.body@, func.body@.len())
            },
            Expression::Call { arguments, .. } => any_mentions_unresolved(
                arguments@,
                arguments@.len(),
            ),
            Expression::Conditional { condition, then_branch, else_branch } => {
                ||| condition.mentions_unresolved()
                ||| then_branch.mentions_unresolved()
                ||| else_branch.mentions_unresolved()
            },
            Expression::Literal(_) | Expression::Identifier(_) => false,
        }
    }
}

/// Whether one of the first `n` of `statements` mentions the hole.
pub open spec fn any_mentions_unresolved(statements: Seq<Expression>, n: nat) -> bool
    decreases statements, n,
{
    n > 0 && n <= statements.len() && (any_mentions_unresolved(statements, (n - 1) as nat)
        || statements[n - 1].mentions_unresolved())
}

impl FunctionDecl {
    /// Whether the hole stands as the type of a parameter, as the return
    /// type, or as a recorded type anywhere in the body.
    ///
    /// A hole inside a record or function type does not count: such a type
    /// is a pointer to lowering, whatever it is made of.
    pub open spec fn mentions_unresolved(self) -> bool {
        ||| exists|i: int|
            0 <= i < self.params@.len() && (#[trigger] self.params@[i]).1.is_unresolved()
        ||| self.return_type.is_unresolved()
        ||| any_mentions_unresolved(self.body@, self.body@.len())
    }
}

/// Number of nodes in the first `n` of `statements`.
pub open spec fn size_of_first(statements: Seq<Expression>, n: nat) -> nat
    decreases statements, n,
{
    if n == 0 || n > statements.len() {
        0
    } else {
        size_of_first(statements, (n - 1) as nat) + statements[n - 1].size()
    }
}

/// A statement is no larger than the statements it stands among.
pub proof fn lemma_statement_size(statements: Seq<Expression>, n: nat, i: int)
    requires
        0 <= i < n <= statements.len(),
    ensures
        statements[i].size() <= size_of_first(statements, n),
    decreases n,
{
    if i < n - 1 {
        lemma_statement_size(statements, (n - 1) as nat, i);
    }
}

} // verus!
