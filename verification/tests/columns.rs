use gtfs_coords::columns::{
    find_column_indices, header_keys_of, lookup, resolve_columns, ColumnIndex, ColumnSelector,
};
use gtfs_coords::error::RewriteError;

fn strings(items: &[&str]) -> Vec<String> {
    items.iter().map(|s| s.to_string()).collect()
}

fn by_name(lat: &str, lon: &str) -> ColumnSelector {
    ColumnSelector::ByName { lat_name: lat.to_string(), lon_name: lon.to_string() }
}

#[test]
fn finds_each_name_in_order_of_request() {
    let header = strings(&["id", "name", "stop_lat", "stop_lon"]);
    let found = find_column_indices(&header, &strings(&["stop_lat", "stop_lon"])).unwrap();
    assert_eq!(found, vec![2, 3]);
    let found = find_column_indices(&header, &strings(&["stop_lon", "id", "stop_lat"])).unwrap();
    assert_eq!(found, vec![3, 0, 2]);
    assert_eq!(find_column_indices(&header, &strings(&[])).unwrap(), Vec::<usize>::new());
}

#[test]
fn names_are_compared_without_regard_to_case() {
    let header = strings(&["ID", "Stop_Lat", "STOP_LON"]);
    let found = find_column_indices(&header, &strings(&["stop_lat", "Stop_Lon"])).unwrap();
    assert_eq!(found, vec![1, 2]);
    let header = strings(&["\u{c4}RGER", "stra\u{df}e"]);
    assert_eq!(find_column_indices(&header, &strings(&["\u{e4}rger"])).unwrap(), vec![0]);
}

#[test]
fn white_space_around_a_header_name_does_not_count() {
    let header = strings(&[" id ", "\tstop_lat", "stop_lon \u{a0}"]);
    let found = find_column_indices(&header, &strings(&["stop_lat", "stop_lon"])).unwrap();
    assert_eq!(found, vec![1, 2]);
}

#[test]
fn white_space_around_a_requested_name_counts() {
    let header = strings(&["stop_lat", "stop_lon"]);
    match find_column_indices(&header, &strings(&[" stop_lat"])) {
        Err(RewriteError::ColumnNotFound(name)) => assert_eq!(name, " stop_lat"),
        other => panic!("unexpected: {:?}", other),
    }
}

#[test]
fn a_repeated_name_means_its_last_column() {
    let header = strings(&["stop_lat", "x", "STOP_LAT", "stop_lon"]);
    let found = find_column_indices(&header, &strings(&["stop_lat"])).unwrap();
    assert_eq!(found, vec![2]);
}

#[test]
fn the_first_missing_name_is_reported_as_it_was_asked_for() {
    let header = strings(&["id", "stop_lon"]);
    match find_column_indices(&header, &strings(&["Stop_Lat", "stop_lon", "other"])) {
        Err(RewriteError::ColumnNotFound(name)) => assert_eq!(name, "Stop_Lat"),
        other => panic!("unexpected: {:?}", other),
    }
    match find_column_indices(&header, &strings(&["stop_lon", "other", "Stop_Lat"])) {
        Err(RewriteError::ColumnNotFound(name)) => assert_eq!(name, "other"),
        other => panic!("unexpected: {:?}", other),
    }
    match find_column_indices(&strings(&[]), &strings(&["stop_lat"])) {
        Err(RewriteError::ColumnNotFound(name)) => assert_eq!(name, "stop_lat"),
        other => panic!("unexpected: {:?}", other),
    }
}

#[test]
fn keys_are_trimmed_and_lower_case() {
    let keys = header_keys_of(&strings(&[" Stop_LAT ", "b", ""]));
    assert_eq!(keys, strings(&["stop_lat", "b", ""]));
    assert_eq!(lookup(&keys, &"b".to_string()), Some(1));
    assert_eq!(lookup(&keys, &"B".to_string()), None);
    assert_eq!(lookup(&keys, &"".to_string()), Some(2));
}

#[test]
fn resolving_by_name_reads_the_header() {
    let header = strings(&["id", "name", "stop_lat", "stop_lon"]);
    let idx = resolve_columns(&header, &by_name("stop_lat", "stop_lon")).unwrap();
    assert_eq!(idx, ColumnIndex { lat: 2, lon: 3 });
    let idx = resolve_columns(&header, &by_name("STOP_LON", "ID")).unwrap();
    assert_eq!(idx, ColumnIndex { lat: 3, lon: 0 });
    match resolve_columns(&header, &by_name("shape_pt_lat", "shape_pt_lon")) {
        Err(RewriteError::ColumnNotFound(name)) => assert_eq!(name, "shape_pt_lat"),
        other => panic!("unexpected: {:?}", other),
    }
    match resolve_columns(&header, &by_name("stop_lat", "shape_pt_lon")) {
        Err(RewriteError::ColumnNotFound(name)) => assert_eq!(name, "shape_pt_lon"),
        other => panic!("unexpected: {:?}", other),
    }
}

#[test]
fn resolving_by_position_trusts_the_positions() {
    let header = strings(&["a"]);
    let selector = ColumnSelector::ByFixedIndex { lat: 4, lon: 5 };
    assert_eq!(resolve_columns(&header, &selector).unwrap(), ColumnIndex { lat: 4, lon: 5 });
}

#[test]
fn error_messages() {
    let e = RewriteError::ColumnNotFound("stop_lat".to_string());
    assert_eq!(e.message(), "Required column 'stop_lat' not found in header.");
    assert_eq!(RewriteError::FileNotFound.message(), "File not found.");
    assert_eq!(RewriteError::IoFailure("disk full".to_string()).message(), "disk full");
}
