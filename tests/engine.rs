use lazy_store::error::{Context, ExecutionError};
use lazy_store::store::{EvaluationContext, LazyScopedVariables, LazyStore, ScopedValues, Thunk, ThunkState};
use lazy_store::values::{DebugInfo, LazyValue, LazyVariable, SyntaxNodeRef, Value};

const DEPTH: u64 = 64;

fn node(index: u64) -> SyntaxNodeRef {
    SyntaxNodeRef { index }
}

fn scope_of(index: u64) -> LazyValue {
    LazyValue::Value(Value::SyntaxNode(node(index)))
}

fn in_statement(e: ExecutionError, d: DebugInfo) -> ExecutionError {
    ExecutionError::InContext(Box::new(e), Context::Statement(d))
}

#[test]
fn basic_memoisation() {
    let mut exec = EvaluationContext::new();
    let d = DebugInfo::new(1, 1);
    let h = exec.store.add(LazyValue::Counted(Value::Integer(7)), d);
    for _ in 0..3 {
        assert_eq!(h.evaluate(&mut exec, DEPTH), Ok(Value::Integer(7)));
    }
    assert_eq!(exec.count(), 1);
}

#[test]
fn second_evaluation_does_no_work() {
    let mut exec = EvaluationContext::new();
    let a = exec.store.add(LazyValue::Counted(Value::Integer(3)), DebugInfo::new(1, 1));
    let b = exec.store.add(LazyValue::Variable(a), DebugInfo::new(2, 1));
    assert_eq!(LazyStore::evaluate(&mut exec, &b, DEPTH), Ok(Value::Integer(3)));
    assert_eq!(LazyStore::evaluate(&mut exec, &a, DEPTH), Ok(Value::Integer(3)));
    assert_eq!(LazyStore::evaluate(&mut exec, &b, DEPTH), Ok(Value::Integer(3)));
    assert_eq!(exec.count(), 1);
}

#[test]
fn self_cycle() {
    let mut exec = EvaluationContext::new();
    let d = DebugInfo::new(4, 2);
    let own = LazyVariable::new(exec.store.len());
    let h = exec.store.add(LazyValue::Variable(own), d);
    assert_eq!(h.index(), 0);
    let expected = in_statement(in_statement(ExecutionError::RecursivelyDefinedVariable(d), d), d);
    assert_eq!(LazyStore::evaluate(&mut exec, &h, DEPTH), Err(expected));
}

#[test]
fn mutual_cycle() {
    let mut exec = EvaluationContext::new();
    let da = DebugInfo::new(1, 1);
    let db = DebugInfo::new(2, 1);
    let a = exec.store.add(LazyValue::Variable(LazyVariable::new(1)), da);
    let b = exec.store.add(LazyValue::Variable(LazyVariable::new(0)), db);
    assert_eq!((a.index(), b.index()), (0, 1));
    let expected = in_statement(
        in_statement(in_statement(ExecutionError::RecursivelyDefinedVariable(da), da), db),
        da,
    );
    assert_eq!(LazyStore::evaluate(&mut exec, &a, DEPTH), Err(expected));
}

#[test]
fn scoped_duplicate() {
    let mut exec = EvaluationContext::new();
    let d1 = DebugInfo::new(1, 1);
    let d2 = DebugInfo::new(2, 1);
    let x = String::from("x");
    assert_eq!(exec.scoped.add(scope_of(5), x.clone(), LazyValue::Value(Value::Integer(1)), d1), Ok(()));
    assert_eq!(exec.scoped.add(scope_of(5), x.clone(), LazyValue::Value(Value::Integer(2)), d2), Ok(()));
    let expected = ExecutionError::InContext(
        Box::new(ExecutionError::DuplicateVariable { node: node(5), name: x.clone() }),
        Context::Statements(d1, d2),
    );
    assert_eq!(LazyScopedVariables::evaluate(&mut exec, &node(5), &x, DEPTH), Err(expected));
}

#[test]
fn scoped_undefined() {
    let mut exec = EvaluationContext::new();
    let y = String::from("y");
    let expected = ExecutionError::UndefinedScopedVariable { scope: node(3), name: y.clone() };
    assert_eq!(LazyScopedVariables::evaluate(&mut exec, &node(3), &y, DEPTH), Err(expected));
}

#[test]
fn scoped_undefined_for_node() {
    let mut exec = EvaluationContext::new();
    let x = String::from("x");
    assert_eq!(exec.scoped.add(scope_of(1), x.clone(), LazyValue::Value(Value::Integer(1)), DebugInfo::new(1, 1)), Ok(()));
    let expected = ExecutionError::UndefinedScopedVariable { scope: node(2), name: x.clone() };
    assert_eq!(LazyScopedVariables::evaluate(&mut exec, &node(2), &x, DEPTH), Err(expected));
}

#[test]
fn scoped_seal() {
    let mut exec = EvaluationContext::new();
    let x = String::from("x");
    assert_eq!(exec.scoped.add(scope_of(1), x.clone(), LazyValue::Value(Value::Integer(1)), DebugInfo::new(1, 1)), Ok(()));
    assert_eq!(LazyScopedVariables::evaluate_all(&mut exec, DEPTH), Ok(()));
    let r = exec.scoped.add(scope_of(2), x.clone(), LazyValue::Value(Value::Integer(2)), DebugInfo::new(2, 1));
    assert_eq!(r, Err(ExecutionError::VariableScopesAlreadyForced(x)));
}

#[test]
fn scoped_seal_after_lookup() {
    let mut exec = EvaluationContext::new();
    let x = String::from("x");
    assert_eq!(exec.scoped.add(scope_of(1), x.clone(), LazyValue::Value(Value::Integer(10)), DebugInfo::new(1, 1)), Ok(()));
    assert_eq!(exec.scoped.add(scope_of(2), x.clone(), LazyValue::Value(Value::Integer(20)), DebugInfo::new(2, 1)), Ok(()));
    assert_eq!(
        LazyScopedVariables::evaluate(&mut exec, &node(2), &x, DEPTH),
        Ok(LazyValue::Value(Value::Integer(20)))
    );
    assert_eq!(
        LazyScopedVariables::evaluate(&mut exec, &node(1), &x, DEPTH),
        Ok(LazyValue::Value(Value::Integer(10)))
    );
    let r = exec.scoped.add(scope_of(3), x.clone(), LazyValue::Value(Value::Integer(30)), DebugInfo::new(3, 1));
    assert_eq!(r, Err(ExecutionError::VariableScopesAlreadyForced(x)));
}

#[test]
fn scoped_cycle() {
    let mut exec = EvaluationContext::new();
    let x = String::from("x");
    let d = DebugInfo::new(7, 3);
    let scope = LazyValue::ScopedVariable { scope: Box::new(scope_of(1)), name: x.clone() };
    assert_eq!(exec.scoped.add(scope, x.clone(), LazyValue::Value(Value::Integer(1)), d), Ok(()));
    let expected = in_statement(
        ExecutionError::InContext(
            Box::new(ExecutionError::RecursivelyDefinedScopedVariable(x.clone())),
            Context::ScopeOfVariable(x.clone()),
        ),
        d,
    );
    assert_eq!(LazyScopedVariables::evaluate(&mut exec, &node(1), &x, DEPTH), Err(expected));
}

#[test]
fn scoped_variable_through_store() {
    let mut exec = EvaluationContext::new();
    let x = String::from("x");
    let n = exec.store.add(LazyValue::Counted(Value::SyntaxNode(node(9))), DebugInfo::new(1, 1));
    let v = exec.store.add(LazyValue::Value(Value::Integer(42)), DebugInfo::new(2, 1));
    assert_eq!(exec.scoped.add(LazyValue::Variable(n), x.clone(), LazyValue::Variable(v), DebugInfo::new(3, 1)), Ok(()));
    let read = exec.store.add(
        LazyValue::ScopedVariable { scope: Box::new(scope_of(9)), name: x.clone() },
        DebugInfo::new(4, 1),
    );
    assert_eq!(LazyStore::evaluate(&mut exec, &read, DEPTH), Ok(Value::Integer(42)));
    assert_eq!(exec.count(), 1);
}

#[test]
fn scope_must_be_a_syntax_node() {
    let mut exec = EvaluationContext::new();
    let x = String::from("x");
    let d = DebugInfo::new(5, 5);
    assert_eq!(exec.scoped.add(LazyValue::Value(Value::Integer(1)), x.clone(), LazyValue::Value(Value::Null), d), Ok(()));
    let expected = in_statement(
        ExecutionError::InContext(
            Box::new(ExecutionError::ExpectedSyntaxNode(Value::Integer(1))),
            Context::ScopeOfVariable(x.clone()),
        ),
        d,
    );
    assert_eq!(LazyScopedVariables::evaluate_all(&mut exec, DEPTH), Err(expected));
}

#[test]
fn evaluate_all_forces_in_insertion_order() {
    let mut exec = EvaluationContext::new();
    let d0 = DebugInfo::new(1, 1);
    let d2 = DebugInfo::new(3, 1);
    let d3 = DebugInfo::new(4, 1);
    exec.store.add(LazyValue::Counted(Value::Null), d0);
    exec.store.add(LazyValue::Counted(Value::Integer(1)), DebugInfo::new(2, 1));
    exec.store.add(LazyValue::Variable(LazyVariable::new(2)), d2);
    exec.store.add(LazyValue::Variable(LazyVariable::new(3)), d3);
    let expected = in_statement(in_statement(ExecutionError::RecursivelyDefinedVariable(d2), d2), d2);
    assert_eq!(LazyStore::evaluate_all(&mut exec, DEPTH), Err(expected));
    assert_eq!(exec.count(), 2);
}

#[test]
fn evaluate_all_succeeds() {
    let mut exec = EvaluationContext::new();
    let a = exec.store.add(LazyValue::Counted(Value::Integer(1)), DebugInfo::new(1, 1));
    exec.store.add(LazyValue::Variable(a), DebugInfo::new(2, 1));
    exec.store.add(LazyValue::Counted(Value::Integer(2)), DebugInfo::new(3, 1));
    assert_eq!(LazyStore::evaluate_all(&mut exec, DEPTH), Ok(()));
    assert_eq!(exec.count(), 2);
    assert_eq!(LazyStore::evaluate_all(&mut exec, DEPTH), Ok(()));
    assert_eq!(exec.count(), 2);
}

#[test]
fn empty_store_evaluates_all() {
    let mut exec = EvaluationContext::new();
    assert_eq!(exec.store.len(), 0);
    assert_eq!(LazyStore::evaluate_all(&mut exec, DEPTH), Ok(()));
    assert_eq!(LazyScopedVariables::evaluate_all(&mut exec, DEPTH), Ok(()));
}

#[test]
fn handles_are_indices() {
    let mut store = LazyStore::new();
    for i in 0..5usize {
        let h = store.add(LazyValue::Value(Value::Integer(i as u64)), DebugInfo::new(i as u64, 0));
        assert_eq!(h.index(), i);
        assert_eq!(store.len(), i + 1);
    }
}

#[test]
fn dangling_handle() {
    let mut exec = EvaluationContext::new();
    let h = LazyVariable::new(3);
    assert_eq!(h.evaluate(&mut exec, DEPTH), Err(ExecutionError::UndefinedVariable(3)));
}

#[test]
fn depth_is_bounded() {
    let mut exec = EvaluationContext::new();
    let d0 = DebugInfo::new(1, 1);
    let d1 = DebugInfo::new(2, 1);
    let a = exec.store.add(LazyValue::Value(Value::Integer(1)), d0);
    let b = exec.store.add(LazyValue::Variable(a), d1);
    assert_eq!(
        LazyStore::evaluate(&mut exec, &b, 1),
        Err(in_statement(in_statement(ExecutionError::RecursionLimitExceeded, d0), d1))
    );
    assert_eq!(
        LazyValue::Value(Value::Null).evaluate(&mut exec, 0),
        Err(ExecutionError::RecursionLimitExceeded)
    );
}

#[test]
fn duplicate_copies_expressions() {
    let e = LazyValue::ScopedVariable { scope: Box::new(scope_of(4)), name: String::from("z") };
    assert_eq!(e.duplicate(), e);
}

#[test]
fn add_after_failed_lookup() {
    let mut exec = EvaluationContext::new();
    let x = String::from("x");
    assert_eq!(exec.scoped.add(scope_of(1), x.clone(), LazyValue::Value(Value::Null), DebugInfo::new(1, 1)), Ok(()));
    let missing = ExecutionError::UndefinedScopedVariable { scope: node(2), name: x.clone() };
    assert_eq!(LazyScopedVariables::evaluate(&mut exec, &node(2), &x, DEPTH), Err(missing));
    let r = exec.scoped.add(scope_of(2), x.clone(), LazyValue::Value(Value::Null), DebugInfo::new(2, 1));
    assert_eq!(r, Err(ExecutionError::RecursivelyDefinedScopedVariable(x)));
}

#[test]
fn force_of_each_cell_state() {
    let mut exec = EvaluationContext::new();
    let x = String::from("x");
    let sealed = vec![(node(1), LazyValue::Value(Value::Integer(1)))];
    let r = LazyScopedVariables::force(&mut exec, &x, ScopedValues::Forced(sealed), DEPTH);
    assert_eq!(r, Ok(vec![(node(1), LazyValue::Value(Value::Integer(1)))]));
    let r = LazyScopedVariables::force(&mut exec, &x, ScopedValues::Forcing, DEPTH);
    assert_eq!(r, Err(ExecutionError::RecursivelyDefinedScopedVariable(x.clone())));
    let r = LazyScopedVariables::force(&mut exec, &x, ScopedValues::new(), DEPTH);
    assert_eq!(r, Ok(vec![]));
    let pairs = vec![
        (scope_of(2), LazyValue::Value(Value::Integer(20)), DebugInfo::new(1, 1)),
        (scope_of(1), LazyValue::Value(Value::Integer(10)), DebugInfo::new(2, 1)),
    ];
    let r = LazyScopedVariables::force(&mut exec, &x, ScopedValues::Unforced(pairs), DEPTH);
    assert_eq!(
        r,
        Ok(vec![
            (node(2), LazyValue::Value(Value::Integer(20))),
            (node(1), LazyValue::Value(Value::Integer(10))),
        ])
    );
}

#[test]
fn new_thunk_is_unforced() {
    let d = DebugInfo::new(8, 9);
    let t = Thunk::new(LazyValue::Value(Value::Integer(5)), d);
    assert_eq!(t.debug_info, d);
    assert!(matches!(t.state, ThunkState::Unforced(LazyValue::Value(Value::Integer(5)))));
}

#[test]
fn force_thunk_directly() {
    let mut exec = EvaluationContext::new();
    let d = DebugInfo::new(1, 1);
    exec.store.add(LazyValue::Counted(Value::Integer(2)), d);
    assert_eq!(Thunk::force(&mut exec, 0, DEPTH), Ok(Value::Integer(2)));
    assert_eq!(Thunk::force(&mut exec, 0, DEPTH), Ok(Value::Integer(2)));
    assert_eq!(exec.count, 1);
}

#[test]
fn handles_survive_later_operations() {
    let mut exec = EvaluationContext::new();
    let first = exec.store.add(LazyValue::Value(Value::Integer(11)), DebugInfo::new(1, 1));
    for i in 0..4u64 {
        exec.store.add(LazyValue::Value(Value::Integer(i)), DebugInfo::new(2 + i, 1));
    }
    assert_eq!(LazyStore::evaluate_all(&mut exec, DEPTH), Ok(()));
    exec.store.add(LazyValue::Value(Value::Null), DebugInfo::new(9, 1));
    assert_eq!(first.evaluate(&mut exec, DEPTH), Ok(Value::Integer(11)));
    assert_eq!(exec.store.len(), 6);
}
