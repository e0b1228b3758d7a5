//! Values that the engine computes, the closed expressions it forces, and the
//! provenance attached to them.

use vstd::prelude::*;

verus! {

/// A reference to a node of the syntax tree; nodes are compared by index.
#[derive(Clone, Copy, Debug, PartialEq, Eq, Structural)]
pub struct SyntaxNodeRef {
    pub index: u64,
}

/// A fully computed value of the graph being built.
#[derive(Clone, Copy, Debug, PartialEq, Eq, Structural)]
pub enum Value {
    Null,
    Integer(u64),
    SyntaxNode(SyntaxNodeRef),
}

/// Provenance of a stored value: the location of the statement that created it.
#[derive(Clone, Copy, Debug, PartialEq, Eq, Structural)]
pub struct DebugInfo {
    pub line: u64,
    pub column: u64,
}

impl DebugInfo {
    pub fn new(line: u64, column: u64) -> (r: DebugInfo)
        ensures
            r.line == line,
            r.column == column,
    {
        DebugInfo { line, column }
    }
}

/// A handle on a slot of the thunk store.
#[derive(Clone, Copy, Debug, PartialEq, Eq, Structural)]
pub struct LazyVariable {
    pub store_location: usize,
}

impl LazyVariable {
    pub fn new(store_location: usize) -> (r: LazyVariable)
        ensures
            r.store_location == store_location,
    {
        LazyVariable { store_location }
    }

    pub fn index(&self) -> (r: usize)
        ensures
            r == self.store_location,
    {
        self.store_location
    }
}

/// A closed expression that can be forced to a `Value`.
#[derive(Debug, PartialEq, Eq)]
pub enum LazyValue {
    /// A value that is already known.
    Value(Value),
    /// A known value whose every evaluation is counted by the context.
    Counted(Value),
    /// The value of a slot of the thunk store.
    Variable(LazyVariable),
    /// The scoped variable `name` of the node that `scope` evaluates to.
    ScopedVariable { scope: Box<LazyValue>, name: String },
}

impl LazyValue {
    /// A copy of this expression, equal to it.
    pub fn duplicate(&self) -> (r: LazyValue)
        ensures
            r == *self,
        decreases self,
    {
        match self {
            LazyValue::Value(v) => LazyValue::Value(*v),
            LazyValue::Counted(v) => LazyValue::Counted(*v),
            LazyValue::Variable(h) => LazyValue::Variable(*h),
            LazyValue::ScopedVariable { scope, name } => {
                let s = (**scope).duplicate();
                LazyValue::ScopedVariable { scope: Box::new(s), name: name.clone() }
            },
        }
    }
}

} // verus!
