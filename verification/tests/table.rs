use gtfs_coords::columns::{ColumnIndex, ColumnSelector};
use gtfs_coords::error::RewriteError;
use gtfs_coords::table::{copy_row, rewrite_table, transform_row, SkippedRow};

fn row_of(items: &[&str]) -> Vec<String> {
    items.iter().map(|s| s.to_string()).collect()
}

fn by_stop_names() -> ColumnSelector {
    ColumnSelector::ByName { lat_name: "stop_lat".to_string(), lon_name: "stop_lon".to_string() }
}

#[test]
fn coordinate_fields_are_formatted_and_the_others_copied() {
    let idx = ColumnIndex { lat: 2, lon: 3 };
    let out = transform_row(&row_of(&["1", "A", "45.1", "-73.5"]), &idx, 8).unwrap();
    assert_eq!(out, row_of(&["1", "A", "45.10000000", "-73.50000000"]));
}

#[test]
fn a_field_that_is_no_number_stays_as_it_is() {
    let idx = ColumnIndex { lat: 2, lon: 3 };
    let out = transform_row(&row_of(&["1", "A", "N/A", "-73.5"]), &idx, 8).unwrap();
    assert_eq!(out, row_of(&["1", "A", "N/A", "-73.50000000"]));
    let out = transform_row(&row_of(&["1", "A", "", " "]), &idx, 8).unwrap();
    assert_eq!(out, row_of(&["1", "A", "", " "]));
}

#[test]
fn fields_beside_the_coordinates_are_untouched_even_if_numeric() {
    let idx = ColumnIndex { lat: 1, lon: 1 };
    let out = transform_row(&row_of(&["1.5", " 2.5 ", "3e2", "x,y"]), &idx, 8).unwrap();
    assert_eq!(out, row_of(&["1.5", "2.50000000", "3e2", "x,y"]));
}

#[test]
fn a_row_keeps_its_number_of_fields() {
    let idx = ColumnIndex { lat: 0, lon: 1 };
    for n in 2..7 {
        let row: Vec<String> = (0..n).map(|i| format!("{}", i)).collect();
        assert_eq!(transform_row(&row, &idx, 8).unwrap().len(), n);
    }
}

#[test]
fn a_row_that_does_not_reach_both_columns_is_refused() {
    let idx = ColumnIndex { lat: 2, lon: 3 };
    assert_eq!(transform_row(&row_of(&["1", "A", "45.1"]), &idx, 8), None);
    assert_eq!(transform_row(&row_of(&[]), &idx, 8), None);
    let idx = ColumnIndex { lat: 3, lon: 0 };
    assert_eq!(transform_row(&row_of(&["1", "A", "45.1"]), &idx, 8), None);
    assert!(transform_row(&row_of(&["1", "A", "45.1", "2"]), &idx, 8).is_some());
}

#[test]
fn header_is_kept_and_rows_are_rewritten() {
    let table = vec![
        row_of(&["id", "name", "stop_lat", "stop_lon"]),
        row_of(&["1", "A", "45.1", "-73.5"]),
        row_of(&["2", "B", "N/A", "1e1"]),
    ];
    let w = rewrite_table(&table, &by_stop_names(), 8).unwrap();
    assert_eq!(
        w.table,
        vec![
            row_of(&["id", "name", "stop_lat", "stop_lon"]),
            row_of(&["1", "A", "45.10000000", "-73.50000000"]),
            row_of(&["2", "B", "N/A", "10.00000000"]),
        ]
    );
    assert_eq!(w.processed, 2);
    assert!(w.skipped.is_empty());
}

#[test]
fn short_rows_are_left_out_and_reported() {
    let table = vec![
        row_of(&["id", "name", "stop_lat", "stop_lon"]),
        row_of(&["1", "A", "45.1"]),
        row_of(&["2", "B", "45.2", "-73.5"]),
        row_of(&[]),
        row_of(&["3", "C", "45.3", "-73.6", "extra"]),
    ];
    let w = rewrite_table(&table, &by_stop_names(), 8).unwrap();
    assert_eq!(
        w.table,
        vec![
            row_of(&["id", "name", "stop_lat", "stop_lon"]),
            row_of(&["2", "B", "45.20000000", "-73.50000000"]),
            row_of(&["3", "C", "45.30000000", "-73.60000000", "extra"]),
        ]
    );
    assert_eq!(w.processed, 2);
    assert_eq!(w.skipped, vec![SkippedRow { row: 1, fields: 3 }, SkippedRow { row: 3, fields: 0 }]);
}

#[test]
fn a_header_is_never_formatted_nor_left_out() {
    let table = vec![row_of(&["1.5", "2.5"]), row_of(&["1.5", "2.5"])];
    let selector = ColumnSelector::ByFixedIndex { lat: 0, lon: 1 };
    let w = rewrite_table(&table, &selector, 8).unwrap();
    assert_eq!(w.table, vec![row_of(&["1.5", "2.5"]), row_of(&["1.50000000", "2.50000000"])]);
    let selector = ColumnSelector::ByFixedIndex { lat: 5, lon: 6 };
    let w = rewrite_table(&table, &selector, 8).unwrap();
    assert_eq!(w.table, vec![row_of(&["1.5", "2.5"])]);
    assert_eq!(w.processed, 0);
    assert_eq!(w.skipped, vec![SkippedRow { row: 1, fields: 2 }]);
}

#[test]
fn an_empty_table() {
    let table: Vec<Vec<String>> = Vec::new();
    match rewrite_table(&table, &by_stop_names(), 8) {
        Err(RewriteError::ColumnNotFound(name)) => assert_eq!(name, "stop_lat"),
        other => panic!("unexpected: {:?}", other),
    }
    let selector = ColumnSelector::ByFixedIndex { lat: 0, lon: 1 };
    let w = rewrite_table(&table, &selector, 8).unwrap();
    assert!(w.table.is_empty());
    assert_eq!(w.processed, 0);
}

#[test]
fn a_missing_column_fails_the_table() {
    let table = vec![row_of(&["id", "stop_lat"]), row_of(&["1", "45.1"])];
    match rewrite_table(&table, &by_stop_names(), 8) {
        Err(RewriteError::ColumnNotFound(name)) => assert_eq!(name, "stop_lon"),
        other => panic!("unexpected: {:?}", other),
    }
}

#[test]
fn rewriting_twice_gives_what_rewriting_once_gives() {
    let table = vec![
        row_of(&["id", "name", "stop_lat", "stop_lon"]),
        row_of(&["1", "A", "45.123456789", " -73.5 "]),
        row_of(&["short"]),
        row_of(&["2", "B", "N/A", "0.000000005"]),
    ];
    let once = rewrite_table(&table, &by_stop_names(), 8).unwrap();
    let twice = rewrite_table(&once.table, &by_stop_names(), 8).unwrap();
    assert_eq!(twice.table, once.table);
    assert!(twice.skipped.is_empty());
}

#[test]
fn a_copied_row_is_equal() {
    let row = row_of(&["a", "", "45.1"]);
    assert_eq!(copy_row(&row), row);
}
