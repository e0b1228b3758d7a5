//! Properties of forcing, proved over the semantics that the engine computes.

use vstd::prelude::*;

use crate::error::{Context, ExecutionError};
use crate::semantics::{
    eval, eval_node, find_name, find_node, force_pairs, force_thunk, frame, scoped_add, scoped_eval,
    scoped_eval_from, scoped_force, store_eval, store_eval_from, wf, CellState, State,
};
use crate::store::ThunkState;
use crate::values::{DebugInfo, LazyValue, SyntaxNodeRef};

verus! {

/// Every scoped variable that was sealed in `a` is still sealed in `b`.
pub open spec fn sealed_kept(a: State, b: State) -> bool {
    forall|k: int| 0 <= k < a.scopes.cells.len() && (#[trigger] a.scopes.cells[k]) is Forced ==> b.scopes.cells[k] is Forced
}

/// A name that is found is in range and is the name asked for.
pub proof fn lemma_find_name(names: Seq<String>, name: Seq<char>, i: int)
    ensures
        find_name(names, name, i) matches Some(k) ==> i <= k < names.len() && names[k]@ == name,
    decreases names.len() - i,
{
    if 0 <= i < names.len() && names[i]@ != name {
        lemma_find_name(names, name, i + 1);
    }
}

/// A node that is found is in range and is the node asked for.
pub proof fn lemma_find_node(m: Seq<(SyntaxNodeRef, LazyValue)>, node: SyntaxNodeRef, i: int)
    ensures
        find_node(m, node, i) matches Some(j) ==> i <= j < m.len() && m[j].0 == node,
    decreases m.len() - i,
{
    if 0 <= i < m.len() && m[i].0 != node {
        lemma_find_node(m, node, i + 1);
    }
}

/// Handles stay valid: evaluating an expression keeps every slot of the store,
/// with its provenance, and every scoped variable; when it succeeds, every
/// sealed scoped variable stays sealed.
pub proof fn lemma_eval_frame(s: State, e: LazyValue, d: nat)
    requires
        wf(s),
    ensures
        frame(s, eval(s, e, d).1),
        eval(s, e, d).0 is Ok ==> sealed_kept(s, eval(s, e, d).1),
    decreases d, 0nat, 0nat,
{
    if d > 0 {
        match e {
            LazyValue::Variable(h) => lemma_store_eval_frame(s, h.store_location as int, (d - 1) as nat),
            LazyValue::ScopedVariable { scope, name } => {
                lemma_eval_node_frame(s, *scope, (d - 1) as nat);
                let (r1, s1) = eval_node(s, *scope, (d - 1) as nat);
                if let Ok(n) = r1 {
                    lemma_scoped_eval_frame(s1, n, name, (d - 1) as nat);
                    let (r2, s2) = scoped_eval(s1, n, name, (d - 1) as nat);
                    if let Ok(v) = r2 {
                        lemma_eval_frame(s2, v, (d - 1) as nat);
                    }
                }
            },
            _ => {},
        }
    }
}

/// Evaluating to a syntax node keeps what evaluating keeps.
pub proof fn lemma_eval_node_frame(s: State, e: LazyValue, d: nat)
    requires
        wf(s),
    ensures
        frame(s, eval_node(s, e, d).1),
        eval_node(s, e, d).0 is Ok ==> sealed_kept(s, eval_node(s, e, d).1),
    decreases d, 1nat, 0nat,
{
    lemma_eval_frame(s, e, d);
}

/// Forcing a slot keeps what evaluating keeps.
pub proof fn lemma_force_thunk_frame(s: State, i: int, d: nat)
    requires
        wf(s),
        0 <= i < s.thunks.len(),
    ensures
        frame(s, force_thunk(s, i, d).1),
        force_thunk(s, i, d).0 is Ok ==> sealed_kept(s, force_thunk(s, i, d).1),
        force_thunk(s, i, d).0 matches Ok(v) ==> force_thunk(s, i, d).1.thunks[i].state == ThunkState::Forced(v),
    decreases d, 1nat, 0nat,
{
    if let ThunkState::Unforced(e) = s.thunks[i].state {
        let s0 = crate::semantics::set_thunk_state(s, i, ThunkState::Forcing);
        assert(frame(s, s0));
        lemma_eval_frame(s0, e, d);
    }
}

/// Evaluating a handle keeps what evaluating keeps.
pub proof fn lemma_store_eval_frame(s: State, i: int, d: nat)
    requires
        wf(s),
    ensures
        frame(s, store_eval(s, i, d).1),
        store_eval(s, i, d).0 is Ok ==> sealed_kept(s, store_eval(s, i, d).1),
        store_eval(s, i, d).0 matches Ok(v) ==> store_eval(s, i, d).1.thunks[i].state == ThunkState::Forced(v),
    decreases d, 2nat, 0nat,
{
    if 0 <= i < s.thunks.len() {
        lemma_force_thunk_frame(s, i, d);
    }
}

/// Resolving bindings keeps what evaluating keeps.
pub proof fn lemma_force_pairs_frame(
    s: State,
    name: String,
    pairs: Seq<(LazyValue, LazyValue, DebugInfo)>,
    i: int,
    m: Seq<(SyntaxNodeRef, LazyValue)>,
    dbg: Seq<DebugInfo>,
    d: nat,
)
    requires
        wf(s),
    ensures
        frame(s, force_pairs(s, name, pairs, i, m, dbg, d).1),
        force_pairs(s, name, pairs, i, m, dbg, d).0 is Ok ==> sealed_kept(s, force_pairs(s, name, pairs, i, m, dbg, d).1),
    decreases d, 3nat, pairs.len() - i,
{
    if 0 <= i < pairs.len() {
        lemma_eval_node_frame(s, pairs[i].0, d);
        let (r, s1) = eval_node(s, pairs[i].0, d);
        if let Ok(n) = r {
            if find_node(m, n, 0) is None {
                lemma_force_pairs_frame(s1, name, pairs, i + 1, m.push((n, pairs[i].1)), dbg.push(pairs[i].2), d);
            }
        }
    }
}

/// Resolving a scoped variable keeps what evaluating keeps.
pub proof fn lemma_scoped_force_frame(s: State, name: String, prior: CellState, d: nat)
    requires
        wf(s),
    ensures
        frame(s, scoped_force(s, name, prior, d).1),
        scoped_force(s, name, prior, d).0 is Ok ==> sealed_kept(s, scoped_force(s, name, prior, d).1),
    decreases d, 4nat, 0nat,
{
    if let CellState::Unforced(pairs) = prior {
        lemma_force_pairs_frame(s, name, pairs, 0, Seq::empty(), Seq::empty(), d);
    }
}

/// Looking up a scoped variable keeps what evaluating keeps, and on success
/// leaves the variable sealed.
pub proof fn lemma_scoped_eval_frame(s: State, node: SyntaxNodeRef, name: String, d: nat)
    requires
        wf(s),
    ensures
        frame(s, scoped_eval(s, node, name, d).1),
        scoped_eval(s, node, name, d).0 is Ok ==> sealed_kept(s, scoped_eval(s, node, name, d).1),
        scoped_eval(s, node, name, d).0 is Ok ==> (find_name(s.scopes.names, name@, 0) matches Some(k)
            && scoped_eval(s, node, name, d).1.scopes.cells[k] is Forced),
    decreases d, 5nat, 0nat,
{
    lemma_find_name(s.scopes.names, name@, 0);
    if let Some(k) = find_name(s.scopes.names, name@, 0) {
        let s0 = crate::semantics::set_cell(s, k, CellState::Forcing);
        assert(frame(s, s0));
        lemma_scoped_force_frame(s0, name, s.scopes.cells[k], d);
        let (r, s1) = scoped_force(s0, name, s.scopes.cells[k], d);
        if let Ok(m) = r {
            let s2 = crate::semantics::set_cell(s1, k, CellState::Forced(m));
            assert forall|j: int| 0 <= j < s.scopes.cells.len() && (#[trigger] s.scopes.cells[j]) is Forced implies s2.scopes.cells[j] is Forced by {
                if j != k {
                    assert(s0.scopes.cells[j] == s.scopes.cells[j]);
                }
            }
        }
    }
}

/// Forcing is idempotent: once evaluating a handle has succeeded, evaluating
/// it again returns the same value and leaves the context unchanged, so no
/// evaluation is repeated.
pub proof fn lemma_evaluate_idempotent(s: State, i: int, d1: nat, d2: nat)
    requires
        wf(s),
        store_eval(s, i, d1).0 is Ok,
    ensures
        store_eval(store_eval(s, i, d1).1, i, d2) == store_eval(s, i, d1),
{
    lemma_store_eval_frame(s, i, d1);
}

/// A slot that is forced while a force of it is in progress reports a
/// recursive definition, in the context of its own statement, and changes nothing.
pub proof fn lemma_reentrant_force_is_cycle(s: State, i: int, d: nat)
    requires
        0 <= i < s.thunks.len(),
        s.thunks[i].state is Forcing,
    ensures
        store_eval(s, i, d) == (Err::<crate::values::Value, ExecutionError>(ExecutionError::InContext(
            Box::new(ExecutionError::RecursivelyDefinedVariable(s.thunks[i].debug_info)),
            Context::Statement(s.thunks[i].debug_info),
        )), s),
{
}

/// A slot whose expression evaluates its own handle reports a recursive
/// definition that names the slot's statement.
pub proof fn lemma_self_reference_is_cycle(s: State, i: int, d: nat)
    requires
        0 <= i < s.thunks.len(),
        i <= usize::MAX,
        d >= 1,
        s.thunks[i].state == ThunkState::Unforced(LazyValue::Variable(crate::values::LazyVariable { store_location: i as usize })),
    ensures
        ({
            let di = s.thunks[i].debug_info;
            store_eval(s, i, d).0 == Err::<crate::values::Value, ExecutionError>(ExecutionError::InContext(
                Box::new(ExecutionError::InContext(
                    Box::new(ExecutionError::RecursivelyDefinedVariable(di)),
                    Context::Statement(di),
                )),
                Context::Statement(di),
            ))
        }),
{
    let s0 = crate::semantics::set_thunk_state(s, i, ThunkState::Forcing);
    lemma_reentrant_force_is_cycle(s0, i, (d - 1) as nat);
    assert(eval(s0, LazyValue::Variable(crate::values::LazyVariable { store_location: i as usize }), d)
        == store_eval(s0, i, (d - 1) as nat));
}

/// A scoped variable that is looked up while its bindings are being resolved
/// reports a recursive definition of that variable.
pub proof fn lemma_reentrant_scoped_is_cycle(s: State, node: SyntaxNodeRef, name: String, k: int, d: nat)
    requires
        wf(s),
        find_name(s.scopes.names, name@, 0) == Some(k),
        s.scopes.cells[k] is Forcing,
    ensures
        scoped_eval(s, node, name, d).0 == Err::<LazyValue, ExecutionError>(ExecutionError::RecursivelyDefinedScopedVariable(name)),
{
}

/// A scoped variable whose first binding's scope looks up that same variable
/// reports a recursive definition of it, in the context of that scope and of
/// the binding's statement.
pub proof fn lemma_self_scoped_is_cycle(
    s: State,
    node: SyntaxNodeRef,
    other: SyntaxNodeRef,
    name: String,
    k: int,
    pairs: Seq<(LazyValue, LazyValue, DebugInfo)>,
    d: nat,
)
    requires
        wf(s),
        d >= 2,
        find_name(s.scopes.names, name@, 0) == Some(k),
        s.scopes.cells[k] == CellState::Unforced(pairs),
        pairs.len() > 0,
        pairs[0].0 == (LazyValue::ScopedVariable {
            scope: Box::new(LazyValue::Value(crate::values::Value::SyntaxNode(other))),
            name,
        }),
    ensures
        scoped_eval(s, node, name, d).0 == Err::<LazyValue, ExecutionError>(ExecutionError::InContext(
            Box::new(ExecutionError::InContext(
                Box::new(ExecutionError::RecursivelyDefinedScopedVariable(name)),
                Context::ScopeOfVariable(name),
            )),
            Context::Statement(pairs[0].2),
        )),
{
    let s0 = crate::semantics::set_cell(s, k, CellState::Forcing);
    lemma_find_name(s.scopes.names, name@, 0);
    let inner = LazyValue::Value(crate::values::Value::SyntaxNode(other));
    assert(eval(s0, inner, (d - 1) as nat) == (Ok::<crate::values::Value, ExecutionError>(crate::values::Value::SyntaxNode(other)), s0));
    assert(eval_node(s0, inner, (d - 1) as nat) == (Ok::<SyntaxNodeRef, ExecutionError>(other), s0));
    lemma_reentrant_scoped_is_cycle(s0, other, name, k, (d - 1) as nat);
    assert(eval(s0, pairs[0].0, d).0 == Err::<crate::values::Value, ExecutionError>(ExecutionError::RecursivelyDefinedScopedVariable(name)));
    assert(eval_node(s0, pairs[0].0, d).0 == Err::<SyntaxNodeRef, ExecutionError>(ExecutionError::RecursivelyDefinedScopedVariable(name)));
}

/// Once a lookup of a scoped variable has succeeded, the variable is sealed:
/// adding a binding to it fails.
pub proof fn lemma_sealed_after_evaluate(
    s: State,
    node: SyntaxNodeRef,
    name: String,
    d: nat,
    scope: LazyValue,
    value: LazyValue,
    dbg: DebugInfo,
)
    requires
        wf(s),
        scoped_eval(s, node, name, d).0 is Ok,
    ensures
        scoped_add(scoped_eval(s, node, name, d).1.scopes, scope, name, value, dbg).0
            == Err::<(), ExecutionError>(ExecutionError::VariableScopesAlreadyForced(name)),
{
    lemma_scoped_eval_frame(s, node, name, d);
}

/// Resolving scoped variables `k..n` in order, when it succeeds, seals each of
/// them and keeps every sealed one sealed.
pub proof fn lemma_scoped_eval_from_seals(s: State, k: int, n: int, d: nat)
    requires
        wf(s),
        0 <= k,
        n <= s.scopes.names.len(),
        scoped_eval_from(s, k, n, d).0 is Ok,
    ensures
        frame(s, scoped_eval_from(s, k, n, d).1),
        sealed_kept(s, scoped_eval_from(s, k, n, d).1),
        forall|j: int| k <= j < n ==> (#[trigger] scoped_eval_from(s, k, n, d).1.scopes.cells[j]) is Forced,
    decreases n - k,
{
    if k < n {
        let s0 = crate::semantics::set_cell(s, k, CellState::Forcing);
        assert(frame(s, s0));
        lemma_scoped_force_frame(s0, s.scopes.names[k], s.scopes.cells[k], d);
        let (r, s1) = scoped_force(s0, s.scopes.names[k], s.scopes.cells[k], d);
        if let Ok(m) = r {
            let s2 = crate::semantics::set_cell(s1, k, CellState::Forced(m));
            assert(frame(s1, s2));
            lemma_scoped_eval_from_seals(s2, k + 1, n, d);
            let fin = scoped_eval_from(s2, k + 1, n, d).1;
            assert forall|j: int| 0 <= j < s.scopes.cells.len() && (#[trigger] s.scopes.cells[j]) is Forced implies fin.scopes.cells[j] is Forced by {
                if j != k {
                    assert(s0.scopes.cells[j] == s.scopes.cells[j]);
                }
                assert(s2.scopes.cells[j] is Forced);
            }
            assert(s2.scopes.cells[k] is Forced);
            assert(fin.scopes.cells[k] is Forced);
        }
    }
}

/// Once resolving all scoped variables has succeeded, every one that had
/// bindings is sealed: adding a binding to it fails.
pub proof fn lemma_sealed_after_evaluate_all(
    s: State,
    d: nat,
    scope: LazyValue,
    name: String,
    value: LazyValue,
    dbg: DebugInfo,
)
    requires
        wf(s),
        scoped_eval_from(s, 0, s.scopes.names.len() as int, d).0 is Ok,
        find_name(s.scopes.names, name@, 0) is Some,
    ensures
        scoped_add(scoped_eval_from(s, 0, s.scopes.names.len() as int, d).1.scopes, scope, name, value, dbg).0
            == Err::<(), ExecutionError>(ExecutionError::VariableScopesAlreadyForced(name)),
{
    lemma_find_name(s.scopes.names, name@, 0);
    lemma_scoped_eval_from_seals(s, 0, s.scopes.names.len() as int, d);
    let k = find_name(s.scopes.names, name@, 0)->Some_0;
    let fin = scoped_eval_from(s, 0, s.scopes.names.len() as int, d).1;
    assert(fin.scopes.cells[k] is Forced);
}

/// A binding whose scope resolves to a node that an earlier binding of the
/// same variable resolved to is a duplicate, reported with the debug info of
/// both bindings, earlier first.
pub proof fn lemma_duplicate_binding(
    s: State,
    name: String,
    pairs: Seq<(LazyValue, LazyValue, DebugInfo)>,
    i: int,
    m: Seq<(SyntaxNodeRef, LazyValue)>,
    dbg: Seq<DebugInfo>,
    d: nat,
    node: SyntaxNodeRef,
    j: int,
)
    requires
        0 <= i < pairs.len(),
        eval_node(s, pairs[i].0, d).0 == Ok::<SyntaxNodeRef, ExecutionError>(node),
        find_node(m, node, 0) == Some(j),
    ensures
        force_pairs(s, name, pairs, i, m, dbg, d).0 == Err::<Seq<(SyntaxNodeRef, LazyValue)>, ExecutionError>(ExecutionError::InContext(
            Box::new(ExecutionError::DuplicateVariable { node, name }),
            Context::Statements(dbg[j], pairs[i].2),
        )),
{
}

/// The failure `b` of bulk evaluation is the failure `a` of one slot.
pub open spec fn same_failure(a: (Result<crate::values::Value, ExecutionError>, State), b: (Result<(), ExecutionError>, State)) -> bool {
    a.0 is Err && b.0 is Err && a.0->Err_0 == b.0->Err_0 && a.1 == b.1
}

/// The state after evaluating slots `i..k` in order.
pub open spec fn after_slots(s: State, i: int, k: int, d: nat) -> State
    decreases k - i,
{
    if i >= k {
        s
    } else {
        after_slots(store_eval(s, i, d).1, i + 1, k, d)
    }
}

/// Whether evaluating slots `i..k` in order succeeds for each of them.
pub open spec fn slots_succeed(s: State, i: int, k: int, d: nat) -> bool
    decreases k - i,
{
    i >= k || (store_eval(s, i, d).0 is Ok && slots_succeed(store_eval(s, i, d).1, i + 1, k, d))
}

/// Bulk evaluation goes in insertion order: it succeeds when every slot
/// succeeds in turn, and otherwise fails with the failure of the first slot
/// that fails after the slots before it have succeeded.
pub proof fn lemma_evaluate_all_first_failure(s: State, i: int, n: int, d: nat)
    ensures
        slots_succeed(s, i, n, d) ==> store_eval_from(s, i, n, d) == (Ok::<(), ExecutionError>(()), after_slots(s, i, n, d)),
        store_eval_from(s, i, n, d).0 is Err ==> exists|k: int|
            i <= k < n && slots_succeed(s, i, k, d) && same_failure(#[trigger] store_eval(after_slots(s, i, k, d), k, d), store_eval_from(s, i, n, d)),
    decreases n - i,
{
    if i < n {
        let (r, s1) = store_eval(s, i, d);
        if r is Ok {
            lemma_evaluate_all_first_failure(s1, i + 1, n, d);
            if store_eval_from(s, i, n, d).0 is Err {
                let k = choose|k: int|
                    i + 1 <= k < n && slots_succeed(s1, i + 1, k, d) && same_failure(#[trigger] store_eval(after_slots(s1, i + 1, k, d), k, d),
                        store_eval_from(s1, i + 1, n, d));
                assert(slots_succeed(s, i, k, d));
                assert(after_slots(s, i, k, d) == after_slots(s1, i + 1, k, d));
            }
        } else {
            assert(slots_succeed(s, i, i, d));
            assert(after_slots(s, i, i, d) == s);
        }
    }
}

} // verus!
