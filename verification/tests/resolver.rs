use rsheet_core::address::{format_cell_name, format_col, format_dec, parse_address, CellAddress};
use rsheet_core::engine::handle_message;
use rsheet_core::graph::DependencyGraph;
use rsheet_core::resolver::parse_variable;
use rsheet_core::store::CellStore;
use rsheet_core::table::Table;
use rsheet_core::values::{Argument, Value};

fn store_with(pairs: &[(&str, i64)]) -> CellStore {
    let mut cells: CellStore = Table::new();
    let mut deps: DependencyGraph = Table::new();
    for (name, v) in pairs {
        let (reply, _) = handle_message(&mut cells, &mut deps, &format!("set {} {}", name, v));
        assert!(reply.is_none());
    }
    cells
}

#[test]
fn column_names_round_trip() {
    assert_eq!(format_col(0), "A");
    assert_eq!(format_col(1), "B");
    assert_eq!(format_col(25), "Z");
    assert_eq!(format_col(26), "AA");
    assert_eq!(format_col(27), "AB");
    assert_eq!(format_col(701), "ZZ");
    assert_eq!(format_col(702), "AAA");
}

#[test]
fn decimal_formatting() {
    assert_eq!(format_dec(0), "0");
    assert_eq!(format_dec(7), "7");
    assert_eq!(format_dec(10), "10");
    assert_eq!(format_dec(120340), "120340");
}

#[test]
fn cell_names_are_canonical() {
    assert_eq!(format_cell_name(0, 0), "A1");
    assert_eq!(format_cell_name(2, 9), "C10");
    assert_eq!(format_cell_name(26, 99), "AA100");
}

#[test]
fn addresses_parse_to_indices() {
    assert_eq!(parse_address("A1"), Some(CellAddress { col: 0, row: 0 }));
    assert_eq!(parse_address("B7"), Some(CellAddress { col: 1, row: 6 }));
    assert_eq!(parse_address("AAA703"), Some(CellAddress { col: 702, row: 702 }));
}

#[test]
fn malformed_addresses_are_rejected() {
    assert_eq!(parse_address(""), None);
    assert_eq!(parse_address("A"), None);
    assert_eq!(parse_address("1"), None);
    assert_eq!(parse_address("A0"), None);
    assert_eq!(parse_address("a1"), None);
    assert_eq!(parse_address("A1B"), None);
    assert_eq!(parse_address("A99999999999999999999"), None);
}

#[test]
fn same_column_range_is_a_vector() {
    let cells = store_with(&[("A1", 1), ("A3", 3)]);
    let arg = parse_variable("A1_A3", &cells);
    assert_eq!(
        arg,
        Some(Argument::Vector(vec![
            Value::Int(1),
            Value::Empty,
            Value::Int(3),
        ]))
    );
}

#[test]
fn different_columns_make_a_row_major_matrix() {
    let cells = store_with(&[("A1", 1), ("B1", 2), ("A2", 3), ("B2", 4)]);
    let arg = parse_variable("A1_B2", &cells);
    assert_eq!(
        arg,
        Some(Argument::Matrix(vec![
            vec![Value::Int(1), Value::Int(2)],
            vec![Value::Int(3), Value::Int(4)],
        ]))
    );
}

#[test]
fn malformed_ranges_resolve_to_none() {
    let cells = store_with(&[("A1", 1)]);
    assert_eq!(parse_variable("A1", &cells), None);
    assert_eq!(parse_variable("A0_A3", &cells), None);
    assert_eq!(parse_variable("A1_", &cells), None);
    assert_eq!(parse_variable("_A1", &cells), None);
    assert_eq!(parse_variable("A1_B2_C3", &cells), None);
}

#[test]
fn reversed_range_is_empty() {
    let cells = store_with(&[("A1", 1), ("A2", 2)]);
    assert_eq!(parse_variable("A2_A1", &cells), Some(Argument::Vector(vec![])));
}
