//! The thunk store, the scoped-variable store, and forcing.
//!
//! Both stores live in an `EvaluationContext`, which every force takes by
//! `&mut`: a force takes the prior state of its cell out, leaves `Forcing` in
//! its place, and only then evaluates, so that a re-entrant force of the same
//! cell sees the sentinel. Forcing functions take a nesting budget `depth`;
//! an evaluation nested deeper than that fails with `RecursionLimitExceeded`.

use vstd::prelude::*;

use crate::error::{Context, ExecutionError};
use crate::semantics::{
    eval, eval_node, force_pairs, force_thunk, frame, scoped_add, scoped_eval, scoped_eval_from, scoped_force,
    set_cell, set_thunk_state, store_eval, store_eval_from, wf, find_name, find_node, CellState, Scopes, State,
};
use crate::laws::{lemma_scoped_eval_frame, lemma_scoped_eval_from_seals, lemma_store_eval_frame};
use crate::values::{DebugInfo, LazyValue, LazyVariable, SyntaxNodeRef, Value};

verus! {

pub enum ThunkState {
    Unforced(LazyValue),
    Forcing,
    Forced(Value),
}

/// One memoisation cell of the store, with the provenance of its value.
pub struct Thunk {
    pub state: ThunkState,
    pub debug_info: DebugInfo,
}

/// An append-only sequence of thunks.
pub struct LazyStore {
    elements: Vec<Thunk>,
}

/// The state of one scoped variable.
pub enum ScopedValues {
    Unforced(Vec<(LazyValue, LazyValue, DebugInfo)>),
    Forcing,
    Forced(Vec<(SyntaxNodeRef, LazyValue)>),
}

/// Scoped variables by name, in the order their names were first added.
pub struct LazyScopedVariables {
    names: Vec<String>,
    cells: Vec<ScopedValues>,
}

/// What forcing threads through: both stores, and a counter of evaluations
/// of `Counted` values.
pub struct EvaluationContext {
    pub store: LazyStore,
    pub scoped: LazyScopedVariables,
    pub count: u64,
}

pub open spec fn map_view<T, E>(r: Result<Vec<T>, E>) -> Result<Seq<T>, E> {
    match r {
        Ok(v) => Ok(v@),
        Err(e) => Err(e),
    }
}

impl Thunk {
    pub fn new(value: LazyValue, debug_info: DebugInfo) -> (r: Thunk)
        ensures
            r == (Thunk { state: ThunkState::Unforced(value), debug_info }),
    {
        Thunk { state: ThunkState::Unforced(value), debug_info }
    }

    /// Forces slot `location` of the context's store.
    pub fn force(exec: &mut EvaluationContext, location: usize, depth: u64) -> (r: Result<Value, ExecutionError>)
        requires
            wf(old(exec).state()),
            location < old(exec).state().thunks.len(),
        ensures
            (r, final(exec).state()) == force_thunk(old(exec).state(), location as int, depth as nat),
            frame(old(exec).state(), final(exec).state()),
            wf(final(exec).state()),
        decreases depth, 1nat, 0nat,
    {
        let ghost s0 = exec.state();
        let debug_info = exec.store.elements[location].debug_info;
        let mut prior = Thunk { state: ThunkState::Forcing, debug_info };
        exec.store.elements.set_and_swap(location, &mut prior);
        let Thunk { state, debug_info: _ } = prior;
        match state {
            ThunkState::Forced(v) => {
                exec.store.elements.set(location, Thunk { state: ThunkState::Forced(v), debug_info });
                assert(exec.state().thunks =~= s0.thunks);
                Ok(v)
            },
            ThunkState::Forcing => {
                assert(exec.state().thunks =~= s0.thunks);
                Err(ExecutionError::RecursivelyDefinedVariable(debug_info))
            },
            ThunkState::Unforced(e) => {
                assert(exec.state() == set_thunk_state(s0, location as int, ThunkState::Forcing));
                match e.evaluate(exec, depth) {
                    Ok(v) => {
                        exec.store.elements.set(location, Thunk { state: ThunkState::Forced(v), debug_info });
                        Ok(v)
                    },
                    Err(err) => Err(err),
                }
            },
        }
    }
}

impl LazyStore {
    pub closed spec fn view(&self) -> Seq<Thunk> {
        self.elements@
    }

    pub fn new() -> (r: LazyStore)
        ensures
            r@ == Seq::<Thunk>::empty(),
    {
        LazyStore { elements: Vec::new() }
    }

    pub fn len(&self) -> (r: usize)
        ensures
            r == self@.len(),
    {
        self.elements.len()
    }

    /// Appends an unforced thunk; the handle names the new slot.
    pub fn add(&mut self, value: LazyValue, debug_info: DebugInfo) -> (r: LazyVariable)
        ensures
            final(self)@ == old(self)@.push(Thunk { state: ThunkState::Unforced(value), debug_info }),
            r.store_location == old(self)@.len(),
    {
        let store_location = self.elements.len();
        let variable = LazyVariable::new(store_location);
        self.elements.push(Thunk::new(value, debug_info));
        variable
    }

    /// Forces the slot of `variable`; an error is placed in the context of
    /// the slot's statement.
    pub fn evaluate(exec: &mut EvaluationContext, variable: &LazyVariable, depth: u64) -> (r: Result<Value, ExecutionError>)
        requires
            wf(old(exec).state()),
        ensures
            (r, final(exec).state()) == store_eval(old(exec).state(), variable.store_location as int, depth as nat),
            frame(old(exec).state(), final(exec).state()),
            wf(final(exec).state()),
            r matches Ok(v) ==> final(exec).state().thunks[variable.store_location as int].state == ThunkState::Forced(v),
            variable.store_location < old(exec).state().thunks.len() ==> (
                old(exec).state().thunks[variable.store_location as int].state matches ThunkState::Forced(v)
                ==> r == Ok::<Value, ExecutionError>(v) && final(exec).state() == old(exec).state()),
        decreases depth, 2nat, 0nat,
    {
        proof {
            lemma_store_eval_frame(exec.state(), variable.store_location as int, depth as nat);
        }
        let location = variable.store_location;
        if location >= exec.store.elements.len() {
            return Err(ExecutionError::UndefinedVariable(location));
        }
        let debug_info = exec.store.elements[location].debug_info;
        match Thunk::force(exec, location, depth) {
            Ok(v) => Ok(v),
            Err(err) => Err(err.with_context(Context::Statement(debug_info))),
        }
    }

    /// Forces every slot in insertion order, up to the first failure.
    pub fn evaluate_all(exec: &mut EvaluationContext, depth: u64) -> (r: Result<(), ExecutionError>)
        requires
            wf(old(exec).state()),
        ensures
            (r, final(exec).state()) == store_eval_from(old(exec).state(), 0, old(exec).state().thunks.len() as int, depth as nat),
            frame(old(exec).state(), final(exec).state()),
            wf(final(exec).state()),
    {
        let ghost s0 = exec.state();
        let n = exec.store.elements.len();
        let mut i: usize = 0;
        while i < n
            invariant
                i <= n,
                n == s0.thunks.len(),
                s0 == old(exec).state(),
                wf(exec.state()),
                frame(s0, exec.state()),
                store_eval_from(s0, 0, n as int, depth as nat) == store_eval_from(exec.state(), i as int, n as int, depth as nat),
            decreases n - i,
        {
            let variable = LazyVariable::new(i);
            match LazyStore::evaluate(exec, &variable, depth) {
                Ok(_) => {},
                Err(err) => {
                    return Err(err);
                },
            }
            i = i + 1;
        }
        Ok(())
    }
}

impl LazyVariable {
    /// The value of the slot this handle names.
    pub fn evaluate(&self, exec: &mut EvaluationContext, depth: u64) -> (r: Result<Value, ExecutionError>)
        requires
            wf(old(exec).state()),
        ensures
            (r, final(exec).state()) == store_eval(old(exec).state(), self.store_location as int, depth as nat),
            frame(old(exec).state(), final(exec).state()),
            wf(final(exec).state()),
    {
        LazyStore::evaluate(exec, self, depth)
    }
}

impl LazyValue {
    pub fn evaluate(&self, exec: &mut EvaluationContext, depth: u64) -> (r: Result<Value, ExecutionError>)
        requires
            wf(old(exec).state()),
        ensures
            (r, final(exec).state()) == eval(old(exec).state(), *self, depth as nat),
            frame(old(exec).state(), final(exec).state()),
            wf(final(exec).state()),
        decreases depth, 0nat, 0nat,
    {
        if depth == 0 {
            return Err(ExecutionError::RecursionLimitExceeded);
        }
        match self {
            LazyValue::Value(v) => Ok(*v),
            LazyValue::Counted(v) => {
                if exec.count < u64::MAX {
                    exec.count = exec.count + 1;
                }
                Ok(*v)
            },
            LazyValue::Variable(h) => LazyStore::evaluate(exec, h, depth - 1),
            LazyValue::ScopedVariable { scope, name } => {
                let node = match (**scope).evaluate_as_syntax_node(exec, depth - 1) {
                    Ok(n) => n,
                    Err(err) => {
                        return Err(err);
                    },
                };
                let value = match LazyScopedVariables::evaluate(exec, &node, name, depth - 1) {
                    Ok(v) => v,
                    Err(err) => {
                        return Err(err);
                    },
                };
                value.evaluate(exec, depth - 1)
            },
        }
    }

    pub fn evaluate_as_syntax_node(&self, exec: &mut EvaluationContext, depth: u64) -> (r: Result<SyntaxNodeRef, ExecutionError>)
        requires
            wf(old(exec).state()),
        ensures
            (r, final(exec).state()) == eval_node(old(exec).state(), *self, depth as nat),
            frame(old(exec).state(), final(exec).state()),
            wf(final(exec).state()),
        decreases depth, 1nat, 0nat,
    {
        match self.evaluate(exec, depth) {
            Ok(Value::SyntaxNode(n)) => Ok(n),
            Ok(v) => Err(ExecutionError::ExpectedSyntaxNode(v)),
            Err(err) => Err(err),
        }
    }
}

impl ScopedValues {
    pub closed spec fn view(&self) -> CellState {
        match self {
            ScopedValues::Unforced(p) => CellState::Unforced(p@),
            ScopedValues::Forcing => CellState::Forcing,
            ScopedValues::Forced(m) => CellState::Forced(m@),
        }
    }

    pub fn new() -> (r: ScopedValues)
        ensures
            r@ == CellState::Unforced(Seq::empty()),
    {
        ScopedValues::Unforced(Vec::new())
    }
}

fn find_name_index(names: &Vec<String>, name: &String) -> (r: Option<usize>)
    ensures
        r matches Some(k) ==> k < names@.len() && find_name(names@, name@, 0) == Some(k as int),
        r is None ==> find_name(names@, name@, 0) is None,
{
    let mut i: usize = 0;
    while i < names.len()
        invariant
            i <= names.len(),
            find_name(names@, name@, 0) == find_name(names@, name@, i as int),
        decreases names.len() - i,
    {
        if names[i].eq(name) {
            return Some(i);
        }
        i = i + 1;
    }
    None
}

fn find_node_index(m: &Vec<(SyntaxNodeRef, LazyValue)>, node: &SyntaxNodeRef) -> (r: Option<usize>)
    ensures
        r matches Some(j) ==> j < m@.len() && find_node(m@, *node, 0) == Some(j as int),
        r is None ==> find_node(m@, *node, 0) is None,
{
    let mut i: usize = 0;
    while i < m.len()
        invariant
            i <= m.len(),
            find_node(m@, *node, 0) == find_node(m@, *node, i as int),
        decreases m.len() - i,
    {
        if m[i].0.index == node.index {
            return Some(i);
        }
        i = i + 1;
    }
    None
}

impl LazyScopedVariables {
    pub closed spec fn view(&self) -> Scopes {
        Scopes { names: self.names@, cells: self.cells@.map_values(|c: ScopedValues| c@) }
    }

    pub fn new() -> (r: LazyScopedVariables)
        ensures
            r@.names == Seq::<String>::empty(),
            r@.cells == Seq::<CellState>::empty(),
    {
        let r = LazyScopedVariables { names: Vec::new(), cells: Vec::new() };
        assert(r@.cells =~= Seq::<CellState>::empty());
        r
    }

    /// Adds a binding of `name` for the node that `scope` will evaluate to.
    pub fn add(&mut self, scope: LazyValue, name: String, value: LazyValue, debug_info: DebugInfo) -> (r: Result<(), ExecutionError>)
        requires
            old(self)@.names.len() == old(self)@.cells.len(),
        ensures
            (r, final(self)@) == scoped_add(old(self)@, scope, name, value, debug_info),
            final(self)@.names.len() == final(self)@.cells.len(),
    {
        let ghost sc = self@;
        match find_name_index(&self.names, &name) {
            None => {
                let mut pairs: Vec<(LazyValue, LazyValue, DebugInfo)> = Vec::new();
                pairs.push((scope, value, debug_info));
                self.names.push(name);
                self.cells.push(ScopedValues::Unforced(pairs));
                assert(self@.cells =~= sc.cells.push(CellState::Unforced(seq![(scope, value, debug_info)])));
                assert(pairs@ =~= seq![(scope, value, debug_info)]);
                Ok(())
            },
            Some(k) => {
                let mut prior = ScopedValues::Forcing;
                self.cells.set_and_swap(k, &mut prior);
                match prior {
                    ScopedValues::Unforced(mut pairs) => {
                        pairs.push((scope, value, debug_info));
                        self.cells.set(k, ScopedValues::Unforced(pairs));
                        assert(self@.cells =~= sc.cells.update(k as int, CellState::Unforced(pairs@)));
                        Ok(())
                    },
                    ScopedValues::Forcing => {
                        assert(self@.cells =~= sc.cells);
                        Err(ExecutionError::RecursivelyDefinedScopedVariable(name))
                    },
                    ScopedValues::Forced(m) => {
                        self.cells.set(k, ScopedValues::Forced(m));
                        assert(self@.cells =~= sc.cells);
                        Err(ExecutionError::VariableScopesAlreadyForced(name))
                    },
                }
            },
        }
    }

    /// The value bound to `name` for the node `scope`; resolves and seals all
    /// bindings of `name` first.
    pub fn evaluate(exec: &mut EvaluationContext, scope: &SyntaxNodeRef, name: &String, depth: u64) -> (r: Result<LazyValue, ExecutionError>)
        requires
            wf(old(exec).state()),
        ensures
            (r, final(exec).state()) == scoped_eval(old(exec).state(), *scope, *name, depth as nat),
            frame(old(exec).state(), final(exec).state()),
            wf(final(exec).state()),
            r is Ok ==> (find_name(old(exec).state().scopes.names, name@, 0) matches Some(k)
                && final(exec).state().scopes.cells[k] is Forced),
        decreases depth, 5nat, 0nat,
    {
        proof {
            lemma_scoped_eval_frame(exec.state(), *scope, *name, depth as nat);
        }
        let ghost s0 = exec.state();
        let k = match find_name_index(&exec.scoped.names, name) {
            Some(k) => k,
            None => {
                return Err(ExecutionError::UndefinedScopedVariable { scope: *scope, name: name.clone() });
            },
        };
        let mut prior = ScopedValues::Forcing;
        exec.scoped.cells.set_and_swap(k, &mut prior);
        assert(exec.state().scopes.cells =~= s0.scopes.cells.update(k as int, CellState::Forcing));
        assert(exec.state() == set_cell(s0, k as int, CellState::Forcing));
        let m = match LazyScopedVariables::force(exec, name, prior, depth) {
            Ok(m) => m,
            Err(err) => {
                return Err(err);
            },
        };
        match find_node_index(&m, scope) {
            None => Err(ExecutionError::UndefinedScopedVariable { scope: *scope, name: name.clone() }),
            Some(j) => {
                let value = m[j].1.duplicate();
                let ghost s1 = exec.state();
                let ghost mv = m@;
                exec.scoped.cells.set(k, ScopedValues::Forced(m));
                assert(exec.state().scopes.cells =~= s1.scopes.cells.update(k as int, CellState::Forced(mv)));
                Ok(value)
            },
        }
    }

    /// Resolves every scoped variable in order and seals it, up to the first failure.
    pub fn evaluate_all(exec: &mut EvaluationContext, depth: u64) -> (r: Result<(), ExecutionError>)
        requires
            wf(old(exec).state()),
        ensures
            (r, final(exec).state()) == scoped_eval_from(old(exec).state(), 0, old(exec).state().scopes.names.len() as int, depth as nat),
            frame(old(exec).state(), final(exec).state()),
            wf(final(exec).state()),
            r is Ok ==> forall|k: int| 0 <= k < final(exec).state().scopes.cells.len() ==> (#[trigger] final(exec).state().scopes.cells[k]) is Forced,
    {
        proof {
            let s = exec.state();
            let n = s.scopes.names.len() as int;
            if scoped_eval_from(s, 0, n, depth as nat).0 is Ok {
                lemma_scoped_eval_from_seals(s, 0, n, depth as nat);
            }
        }
        let ghost s0 = exec.state();
        let n = exec.scoped.names.len();
        let mut k: usize = 0;
        while k < n
            invariant
                k <= n,
                n == s0.scopes.names.len(),
                s0 == old(exec).state(),
                wf(exec.state()),
                frame(s0, exec.state()),
                scoped_eval_from(s0, 0, n as int, depth as nat) == scoped_eval_from(exec.state(), k as int, n as int, depth as nat),
            decreases n - k,
        {
            let ghost s1 = exec.state();
            let name = exec.scoped.names[k].clone();
            let mut prior = ScopedValues::Forcing;
            exec.scoped.cells.set_and_swap(k, &mut prior);
            assert(exec.state().scopes.cells =~= s1.scopes.cells.update(k as int, CellState::Forcing));
            assert(exec.state() == set_cell(s1, k as int, CellState::Forcing));
            match LazyScopedVariables::force(exec, &name, prior, depth) {
                Ok(m) => {
                    let ghost s2 = exec.state();
                    let ghost mv = m@;
                    exec.scoped.cells.set(k, ScopedValues::Forced(m));
                    assert(exec.state().scopes.cells =~= s2.scopes.cells.update(k as int, CellState::Forced(mv)));
                },
                Err(err) => {
                    return Err(err);
                },
            }
            k = k + 1;
        }
        Ok(())
    }

    /// Resolves the bindings of `name`, whose cell was in state `values`: each
    /// scope is evaluated in the order the bindings were added, and two
    /// bindings that resolve to one node are an error.
    pub fn force(exec: &mut EvaluationContext, name: &String, values: ScopedValues, depth: u64) -> (r: Result<Vec<(SyntaxNodeRef, LazyValue)>, ExecutionError>)
        requires
            wf(old(exec).state()),
        ensures
            (map_view(r), final(exec).state()) == scoped_force(old(exec).state(), *name, values@, depth as nat),
            frame(old(exec).state(), final(exec).state()),
            wf(final(exec).state()),
        decreases depth, 4nat, 0nat,
    {
        match values {
            ScopedValues::Unforced(pairs) => {
                let ghost s0 = exec.state();
                let mut m: Vec<(SyntaxNodeRef, LazyValue)> = Vec::new();
                let mut dbgs: Vec<DebugInfo> = Vec::new();
                let mut i: usize = 0;
                #[verifier::loop_isolation(false)]
                while i < pairs.len()
                    invariant
                        i <= pairs.len(),
                        m@.len() == dbgs@.len(),
                        s0 == old(exec).state(),
                        wf(exec.state()),
                        frame(s0, exec.state()),
                        force_pairs(s0, *name, pairs@, 0, Seq::empty(), Seq::empty(), depth as nat)
                            == force_pairs(exec.state(), *name, pairs@, i as int, m@, dbgs@, depth as nat),
                    decreases pairs.len() - i,
                {
                    let debug_info = pairs[i].2;
                    let node = match pairs[i].0.evaluate_as_syntax_node(exec, depth) {
                        Ok(n) => n,
                        Err(err) => {
                            let err = err.with_context(Context::ScopeOfVariable(name.clone()));
                            let err = err.with_context(Context::Statement(debug_info));
                            return Err(err);
                        },
                    };
                    match find_node_index(&m, &node) {
                        Some(j) => {
                            let err = ExecutionError::DuplicateVariable { node, name: name.clone() };
                            return Err(err.with_context(Context::Statements(dbgs[j], debug_info)));
                        },
                        None => {},
                    }
                    let value = pairs[i].1.duplicate();
                    m.push((node, value));
                    dbgs.push(debug_info);
                    i = i + 1;
                }
                Ok(m)
            },
            ScopedValues::Forcing => Err(ExecutionError::RecursivelyDefinedScopedVariable(name.clone())),
            ScopedValues::Forced(m) => Ok(m),
        }
    }
}

impl EvaluationContext {
    pub open spec fn state(&self) -> State {
        State { thunks: self.store@, scopes: self.scoped@, count: self.count }
    }

    pub fn new() -> (r: EvaluationContext)
        ensures
            r.state().thunks == Seq::<Thunk>::empty(),
            r.state().scopes.names == Seq::<String>::empty(),
            r.state().scopes.cells == Seq::<CellState>::empty(),
            r.state().count == 0,
            wf(r.state()),
    {
        EvaluationContext { store: LazyStore::new(), scoped: LazyScopedVariables::new(), count: 0 }
    }

    /// How many `Counted` values have been evaluated (saturating).
    pub fn count(&self) -> (r: u64)
        ensures
            r == self.state().count,
    {
        self.count
    }
}

} // verus!
