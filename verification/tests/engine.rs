use rsheet_core::engine::handle_message;
use rsheet_core::graph::{dependents_of, DependencyGraph};
use rsheet_core::propagate::multiple_dependency;
use rsheet_core::store::CellStore;
use rsheet_core::table::Table;
use rsheet_core::values::{Reply, Value};

fn fresh() -> (CellStore, DependencyGraph) {
    (Table::new(), Table::new())
}

/// Sends one message; if it triggers a propagation event, settles it before
/// returning the reply.
fn settle(cells: &mut CellStore, deps: &mut DependencyGraph, msg: &str) -> Option<Reply> {
    let (reply, event) = handle_message(cells, deps, msg);
    if let Some(origin) = event {
        multiple_dependency(cells, deps, &origin);
    }
    reply
}

fn get_value(cells: &mut CellStore, deps: &mut DependencyGraph, cell: &str) -> Value {
    let msg = format!("get {}", cell);
    match settle(cells, deps, &msg) {
        Some(Reply::Value(name, v)) => {
            assert_eq!(name, cell);
            v
        }
        Some(Reply::Error(e)) => Value::Error(e),
        None => panic!("get returned no reply"),
    }
}

#[test]
fn unset_cell_reads_empty() {
    let (mut cells, mut deps) = fresh();
    assert_eq!(get_value(&mut cells, &mut deps, "A1"), Value::Empty);
    assert_eq!(get_value(&mut cells, &mut deps, "ZZ99"), Value::Empty);
}

#[test]
fn set_then_get() {
    let (mut cells, mut deps) = fresh();
    assert!(settle(&mut cells, &mut deps, "set A1 5").is_none());
    assert_eq!(get_value(&mut cells, &mut deps, "A1"), Value::Int(5));
}

#[test]
fn set_evaluates_arithmetic() {
    let (mut cells, mut deps) = fresh();
    settle(&mut cells, &mut deps, "set A1 2 + 3 * 4");
    assert_eq!(get_value(&mut cells, &mut deps, "A1"), Value::Int(14));
}

#[test]
fn dependent_follows_updates() {
    let (mut cells, mut deps) = fresh();
    settle(&mut cells, &mut deps, "set A1 5");
    settle(&mut cells, &mut deps, "set B1 A1");
    assert_eq!(get_value(&mut cells, &mut deps, "B1"), Value::Int(5));
    settle(&mut cells, &mut deps, "set A1 10");
    assert_eq!(get_value(&mut cells, &mut deps, "B1"), Value::Int(10));
}

#[test]
fn sum_over_column_range() {
    let (mut cells, mut deps) = fresh();
    settle(&mut cells, &mut deps, "set A1 1");
    settle(&mut cells, &mut deps, "set A2 2");
    settle(&mut cells, &mut deps, "set A3 3");
    settle(&mut cells, &mut deps, "set B1 sum(A1_A3)");
    assert_eq!(get_value(&mut cells, &mut deps, "B1"), Value::Int(6));
}

#[test]
fn sum_over_matrix_range() {
    let (mut cells, mut deps) = fresh();
    settle(&mut cells, &mut deps, "set A1 1");
    settle(&mut cells, &mut deps, "set B1 2");
    settle(&mut cells, &mut deps, "set A2 3");
    settle(&mut cells, &mut deps, "set B2 4");
    settle(&mut cells, &mut deps, "set C1 sum(A1_B2)");
    assert_eq!(get_value(&mut cells, &mut deps, "C1"), Value::Int(10));
}

#[test]
fn self_reference_is_rejected() {
    let (mut cells, mut deps) = fresh();
    let (reply, event) = handle_message(&mut cells, &mut deps, "set A1 A1");
    assert!(reply.is_none());
    assert!(event.is_none());
    match get_value(&mut cells, &mut deps, "A1") {
        Value::Error(e) => assert_eq!(e, "Cell is self-referential"),
        other => panic!("expected an error value, got {:?}", other),
    }
}

#[test]
fn textual_containment_counts_as_self_reference() {
    let (mut cells, mut deps) = fresh();
    settle(&mut cells, &mut deps, "set AB1 21");
    // The guard is textual: "AB1" contains "B1", so this set is rejected.
    settle(&mut cells, &mut deps, "set B1 AB1");
    assert!(matches!(
        get_value(&mut cells, &mut deps, "B1"),
        Value::Error(_)
    ));
}

#[test]
fn repeated_set_accumulates_nothing() {
    let (mut cells, mut deps) = fresh();
    settle(&mut cells, &mut deps, "set A1 5");
    settle(&mut cells, &mut deps, "set B1 A1");
    settle(&mut cells, &mut deps, "set B1 A1");
    assert_eq!(get_value(&mut cells, &mut deps, "B1"), Value::Int(5));
    let a1_dependents = dependents_of(&deps, "A1");
    assert_eq!(a1_dependents, vec!["B1".to_string()]);
}

#[test]
fn chain_converges_after_settling() {
    let (mut cells, mut deps) = fresh();
    settle(&mut cells, &mut deps, "set A1 1");
    settle(&mut cells, &mut deps, "set B1 A1");
    settle(&mut cells, &mut deps, "set C1 B1");
    settle(&mut cells, &mut deps, "set A1 7");
    assert_eq!(get_value(&mut cells, &mut deps, "B1"), Value::Int(7));
    assert_eq!(get_value(&mut cells, &mut deps, "C1"), Value::Int(7));
}

#[test]
fn disjoint_sets_are_all_observable() {
    let (mut cells, mut deps) = fresh();
    settle(&mut cells, &mut deps, "set A1 1");
    settle(&mut cells, &mut deps, "set B1 2");
    settle(&mut cells, &mut deps, "set C1 3");
    assert_eq!(get_value(&mut cells, &mut deps, "A1"), Value::Int(1));
    assert_eq!(get_value(&mut cells, &mut deps, "B1"), Value::Int(2));
    assert_eq!(get_value(&mut cells, &mut deps, "C1"), Value::Int(3));
}

#[test]
fn malformed_commands_get_error_reply() {
    let (mut cells, mut deps) = fresh();
    for msg in ["", "bogus", "get", "get A1 extra", "set A1", "put A1 5"] {
        match settle(&mut cells, &mut deps, msg) {
            Some(Reply::Error(e)) => assert_eq!(e, "Invalid command"),
            other => panic!("expected an error reply for {:?}, got {:?}", msg, other),
        }
    }
}

#[test]
fn extra_whitespace_is_tolerated() {
    let (mut cells, mut deps) = fresh();
    settle(&mut cells, &mut deps, "  set   A1   5  ");
    assert_eq!(get_value(&mut cells, &mut deps, "A1"), Value::Int(5));
}

#[test]
fn invalid_range_row_stamps_address_error() {
    let (mut cells, mut deps) = fresh();
    // Row numbers are 1-based, so A0 is not an address.
    settle(&mut cells, &mut deps, "set B1 sum(A0_A3)");
    match get_value(&mut cells, &mut deps, "B1") {
        Value::Error(e) => assert_eq!(e, "Invalid cell address"),
        other => panic!("expected an error value, got {:?}", other),
    }
}

#[test]
fn reversed_range_sums_to_zero() {
    let (mut cells, mut deps) = fresh();
    settle(&mut cells, &mut deps, "set A1 1");
    settle(&mut cells, &mut deps, "set A2 2");
    settle(&mut cells, &mut deps, "set B1 sum(A2_A1)");
    assert_eq!(get_value(&mut cells, &mut deps, "B1"), Value::Int(0));
}

#[test]
fn string_values_flow_through() {
    let (mut cells, mut deps) = fresh();
    settle(&mut cells, &mut deps, "set A1 \"hi\"");
    assert_eq!(
        get_value(&mut cells, &mut deps, "A1"),
        Value::Text("hi".to_string())
    );
}

#[test]
fn evaluation_errors_are_stored_and_flow_on() {
    let (mut cells, mut deps) = fresh();
    settle(&mut cells, &mut deps, "set A1 5");
    settle(&mut cells, &mut deps, "set B1 A1");
    settle(&mut cells, &mut deps, "set A1 1 / 0");
    // A1's evaluation failed; the failure is an ordinary stored value and
    // B1 was recomputed from it rather than keeping its old value.
    assert!(matches!(
        get_value(&mut cells, &mut deps, "A1"),
        Value::Error(_)
    ));
    assert_ne!(get_value(&mut cells, &mut deps, "B1"), Value::Int(5));
}

#[test]
fn all_whitespace_kinds_separate_tokens() {
    let (mut cells, mut deps) = fresh();
    settle(&mut cells, &mut deps, "set\u{000B}A1\u{000C}5");
    assert_eq!(get_value(&mut cells, &mut deps, "A1"), Value::Int(5));
}
