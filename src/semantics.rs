//! The meaning of forcing, as spec functions over a model of the evaluation
//! context. The executable engine in `store` is proved to compute exactly these.

use vstd::prelude::*;

use crate::error::{Context, ExecutionError};
use crate::store::{Thunk, ThunkState};
use crate::values::{DebugInfo, LazyValue, SyntaxNodeRef, Value};

verus! {

/// The state of one scoped variable.
pub enum CellState {
    /// Bindings `(scope, value, debug)` in the order they were added.
    Unforced(Seq<(LazyValue, LazyValue, DebugInfo)>),
    /// Its scopes are being forced.
    Forcing,
    /// The resolved bindings, node to value, with distinct nodes.
    Forced(Seq<(SyntaxNodeRef, LazyValue)>),
}

/// Scoped variables: names in the order they were first used, and their cells.
pub struct Scopes {
    pub names: Seq<String>,
    pub cells: Seq<CellState>,
}

/// A model of the evaluation context.
pub struct State {
    pub thunks: Seq<Thunk>,
    pub scopes: Scopes,
    /// How many `Counted` values have been evaluated (saturating).
    pub count: u64,
}

pub type Outcome<T> = (Result<T, ExecutionError>, State);

pub open spec fn bump(n: u64) -> u64 {
    if n < u64::MAX { (n + 1) as u64 } else { n }
}

pub open spec fn set_thunk_state(s: State, i: int, st: ThunkState) -> State {
    State {
        thunks: s.thunks.update(i, Thunk { state: st, debug_info: s.thunks[i].debug_info }),
        ..s
    }
}

pub open spec fn set_cell(s: State, k: int, c: CellState) -> State {
    State { scopes: Scopes { names: s.scopes.names, cells: s.scopes.cells.update(k, c) }, ..s }
}

/// The first index at or after `i` whose name is `name`.
pub open spec fn find_name(names: Seq<String>, name: Seq<char>, i: int) -> Option<int>
    decreases names.len() - i,
{
    if i < 0 || i >= names.len() {
        None
    } else if names[i]@ == name {
        Some(i)
    } else {
        find_name(names, name, i + 1)
    }
}

/// The first index at or after `i` whose node is `node`.
pub open spec fn find_node(map: Seq<(SyntaxNodeRef, LazyValue)>, node: SyntaxNodeRef, i: int) -> Option<int>
    decreases map.len() - i,
{
    if i < 0 || i >= map.len() {
        None
    } else if map[i].0 == node {
        Some(i)
    } else {
        find_node(map, node, i + 1)
    }
}

pub open spec fn in_context<T>(r: Result<T, ExecutionError>, c: Context) -> Result<T, ExecutionError> {
    match r {
        Ok(v) => Ok(v),
        Err(e) => Err(ExecutionError::InContext(Box::new(e), c)),
    }
}

/// Evaluating `e` with nesting budget `d`.
pub open spec fn eval(s: State, e: LazyValue, d: nat) -> Outcome<Value>
    decreases d, 0nat, 0nat,
{
    if d == 0 {
        (Err(ExecutionError::RecursionLimitExceeded), s)
    } else {
        match e {
            LazyValue::Value(v) => (Ok(v), s),
            LazyValue::Counted(v) => (Ok(v), State { count: bump(s.count), ..s }),
            LazyValue::Variable(h) => store_eval(s, h.store_location as int, (d - 1) as nat),
            LazyValue::ScopedVariable { scope, name } => {
                let (r1, s1) = eval_node(s, *scope, (d - 1) as nat);
                match r1 {
                    Err(err) => (Err(err), s1),
                    Ok(n) => {
                        let (r2, s2) = scoped_eval(s1, n, name, (d - 1) as nat);
                        match r2 {
                            Err(err) => (Err(err), s2),
                            Ok(v) => eval(s2, v, (d - 1) as nat),
                        }
                    },
                }
            },
        }
    }
}

/// Evaluating `e` to a syntax node.
pub open spec fn eval_node(s: State, e: LazyValue, d: nat) -> Outcome<SyntaxNodeRef>
    decreases d, 1nat, 0nat,
{
    let (r, s1) = eval(s, e, d);
    match r {
        Ok(Value::SyntaxNode(n)) => (Ok(n), s1),
        Ok(v) => (Err(ExecutionError::ExpectedSyntaxNode(v)), s1),
        Err(err) => (Err(err), s1),
    }
}

/// Forcing slot `i` of the thunk store.
pub open spec fn force_thunk(s: State, i: int, d: nat) -> Outcome<Value>
    decreases d, 1nat, 0nat,
{
    match s.thunks[i].state {
        ThunkState::Forced(v) => (Ok(v), s),
        ThunkState::Forcing => (Err(ExecutionError::RecursivelyDefinedVariable(s.thunks[i].debug_info)), s),
        ThunkState::Unforced(e) => {
            let (r, s1) = eval(set_thunk_state(s, i, ThunkState::Forcing), e, d);
            match r {
                Ok(v) => (Ok(v), set_thunk_state(s1, i, ThunkState::Forced(v))),
                Err(err) => (Err(err), s1),
            }
        },
    }
}

/// Evaluating the handle with index `i`: forcing its slot, with any error
/// placed in the context of the slot's statement.
pub open spec fn store_eval(s: State, i: int, d: nat) -> Outcome<Value>
    decreases d, 2nat, 0nat,
{
    if i < 0 || i >= s.thunks.len() {
        (Err(ExecutionError::UndefinedVariable(i as usize)), s)
    } else {
        let (r, s1) = force_thunk(s, i, d);
        (in_context(r, Context::Statement(s.thunks[i].debug_info)), s1)
    }
}

/// Resolving bindings `i..` of the scoped variable `name`, given the map `m`
/// built from the earlier ones and the debug info `dbg` of each of its entries.
pub open spec fn force_pairs(
    s: State,
    name: String,
    pairs: Seq<(LazyValue, LazyValue, DebugInfo)>,
    i: int,
    m: Seq<(SyntaxNodeRef, LazyValue)>,
    dbg: Seq<DebugInfo>,
    d: nat,
) -> Outcome<Seq<(SyntaxNodeRef, LazyValue)>>
    decreases d, 3nat, pairs.len() - i,
{
    if i < 0 || i >= pairs.len() {
        (Ok(m), s)
    } else {
        let (r, s1) = eval_node(s, pairs[i].0, d);
        match r {
            Err(err) => (
                Err(ExecutionError::InContext(
                    Box::new(ExecutionError::InContext(Box::new(err), Context::ScopeOfVariable(name))),
                    Context::Statement(pairs[i].2),
                )),
                s1,
            ),
            Ok(n) => match find_node(m, n, 0) {
                Some(j) => (
                    Err(ExecutionError::InContext(
                        Box::new(ExecutionError::DuplicateVariable { node: n, name: name }),
                        Context::Statements(dbg[j], pairs[i].2),
                    )),
                    s1,
                ),
                None => force_pairs(s1, name, pairs, i + 1, m.push((n, pairs[i].1)), dbg.push(pairs[i].2), d),
            },
        }
    }
}

/// Resolving the scoped variable `name` whose cell was in state `prior`.
pub open spec fn scoped_force(s: State, name: String, prior: CellState, d: nat) -> Outcome<Seq<(SyntaxNodeRef, LazyValue)>>
    decreases d, 4nat, 0nat,
{
    match prior {
        CellState::Unforced(pairs) => force_pairs(s, name, pairs, 0, Seq::empty(), Seq::empty(), d),
        CellState::Forcing => (Err(ExecutionError::RecursivelyDefinedScopedVariable(name)), s),
        CellState::Forced(m) => (Ok(m), s),
    }
}

/// Looking up the scoped variable `name` of node `node`.
pub open spec fn scoped_eval(s: State, node: SyntaxNodeRef, name: String, d: nat) -> Outcome<LazyValue>
    decreases d, 5nat, 0nat,
{
    match find_name(s.scopes.names, name@, 0) {
        None => (Err(ExecutionError::UndefinedScopedVariable { scope: node, name: name }), s),
        Some(k) => {
            let (r, s1) = scoped_force(set_cell(s, k, CellState::Forcing), name, s.scopes.cells[k], d);
            match r {
                Err(err) => (Err(err), s1),
                Ok(m) => match find_node(m, node, 0) {
                    None => (Err(ExecutionError::UndefinedScopedVariable { scope: node, name: name }), s1),
                    Some(j) => (Ok(m[j].1), set_cell(s1, k, CellState::Forced(m))),
                },
            }
        },
    }
}

/// The invariant of a context: each scoped variable name has one cell.
pub open spec fn wf(s: State) -> bool {
    s.scopes.names.len() == s.scopes.cells.len()
}

/// What forcing never changes: the slots and their provenance, the names of
/// the scoped variables and the number of their cells.
pub open spec fn frame(a: State, b: State) -> bool {
    &&& a.thunks.len() == b.thunks.len()
    &&& forall|i: int| 0 <= i < a.thunks.len() ==> #[trigger] b.thunks[i].debug_info == a.thunks[i].debug_info
    &&& a.scopes.names == b.scopes.names
    &&& a.scopes.cells.len() == b.scopes.cells.len()
}

/// Adding the binding `(scope, value, dbg)` to the scoped variable `name`.
pub open spec fn scoped_add(sc: Scopes, scope: LazyValue, name: String, value: LazyValue, dbg: DebugInfo) -> (Result<(), ExecutionError>, Scopes) {
    match find_name(sc.names, name@, 0) {
        None => (Ok(()), Scopes { names: sc.names.push(name), cells: sc.cells.push(CellState::Unforced(seq![(scope, value, dbg)])) }),
        Some(k) => match sc.cells[k] {
            CellState::Unforced(p) => (Ok(()), Scopes { names: sc.names, cells: sc.cells.update(k, CellState::Unforced(p.push((scope, value, dbg)))) }),
            CellState::Forcing => (Err(ExecutionError::RecursivelyDefinedScopedVariable(name)), sc),
            CellState::Forced(_) => (Err(ExecutionError::VariableScopesAlreadyForced(name)), sc),
        },
    }
}

/// Evaluating slots `i..n` of the store in order, up to the first failure.
pub open spec fn store_eval_from(s: State, i: int, n: int, d: nat) -> Outcome<()>
    decreases n - i,
{
    if i >= n {
        (Ok(()), s)
    } else {
        let (r, s1) = store_eval(s, i, d);
        match r {
            Err(err) => (Err(err), s1),
            Ok(_) => store_eval_from(s1, i + 1, n, d),
        }
    }
}

/// Resolving and sealing scoped variables `k..n` in order, up to the first failure.
pub open spec fn scoped_eval_from(s: State, k: int, n: int, d: nat) -> Outcome<()>
    decreases n - k,
{
    if k < 0 || k >= n {
        (Ok(()), s)
    } else {
        let (r, s1) = scoped_force(set_cell(s, k, CellState::Forcing), s.scopes.names[k], s.scopes.cells[k], d);
        match r {
            Err(err) => (Err(err), s1),
            Ok(m) => scoped_eval_from(set_cell(s1, k, CellState::Forced(m)), k + 1, n, d),
        }
    }
}

} // verus!
