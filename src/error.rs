//! Errors raised while forcing lazy values.

use vstd::prelude::*;

use crate::values::{DebugInfo, SyntaxNodeRef};

verus! {

/// What an error was raised in the middle of.
#[derive(Debug, PartialEq, Eq)]
pub enum Context {
    /// The statement that created the value being forced.
    Statement(DebugInfo),
    /// Evaluating the scope of the scoped variable with this name.
    ScopeOfVariable(String),
    /// The two statements that bound a scoped variable twice: earlier, later.
    Statements(DebugInfo, DebugInfo),
}

#[derive(Debug, PartialEq, Eq)]
pub enum ExecutionError {
    /// A thunk was forced while a force of it was in progress.
    RecursivelyDefinedVariable(DebugInfo),
    /// A scoped variable was used or extended while its scopes were being forced.
    RecursivelyDefinedScopedVariable(String),
    /// A binding was added to a scoped variable whose scopes were already forced.
    VariableScopesAlreadyForced(String),
    /// No binding of the scoped variable `name` exists for the node `scope`.
    UndefinedScopedVariable { scope: SyntaxNodeRef, name: String },
    /// Two bindings of the scoped variable `name` resolved to the node `node`.
    DuplicateVariable { node: SyntaxNodeRef, name: String },
    /// A handle names no slot of the thunk store.
    UndefinedVariable(usize),
    /// The scope of a scoped variable did not evaluate to a syntax node.
    ExpectedSyntaxNode(crate::values::Value),
    /// Forcing nested deeper than the depth it was given.
    RecursionLimitExceeded,
    /// An error, with what it was raised in.
    InContext(Box<ExecutionError>, Context),
}

impl ExecutionError {
    /// This error, wrapped with the context in which it was raised.
    pub fn with_context(self, context: Context) -> (r: ExecutionError)
        ensures
            r == ExecutionError::InContext(Box::new(self), context),
    {
        ExecutionError::InContext(Box::new(self), context)
    }
}

} // verus!
