use gtfs_coords::columns::ColumnSelector;
use gtfs_coords::coordinate::COORDINATE_PRECISION;
use gtfs_coords::error::RewriteError;
use gtfs_coords::rewrite::{
    process_gtfs_file, rewrite_bytes, temp_file_name, FileOutcome, MissingFilePolicy,
    RewriteConfig,
};
use gtfs_coords::table::SkippedRow;

fn stops_by_name() -> ColumnSelector {
    ColumnSelector::ByName { lat_name: "stop_lat".to_string(), lon_name: "stop_lon".to_string() }
}

fn stops(missing: MissingFilePolicy) -> RewriteConfig {
    RewriteConfig::new("stops.txt".to_string(), stops_by_name(), missing)
}

fn text(bytes: &[u8]) -> String {
    String::from_utf8(bytes.to_vec()).unwrap()
}

#[test]
fn coordinates_get_eight_places() {
    let input = b"id,name,stop_lat,stop_lon\n1,A,45.1,-73.5\n";
    let w = rewrite_bytes(input, &stops_by_name(), 8).unwrap();
    assert_eq!(text(&w.bytes), "id,name,stop_lat,stop_lon\n1,A,45.10000000,-73.50000000\n");
    assert_eq!(w.processed, 1);
    assert!(w.skipped.is_empty());
}

#[test]
fn non_numeric_latitude_passes_through() {
    let input = b"id,name,stop_lat,stop_lon\n1,A,N/A,-73.5\n";
    let w = rewrite_bytes(input, &stops_by_name(), 8).unwrap();
    assert_eq!(text(&w.bytes), "id,name,stop_lat,stop_lon\n1,A,N/A,-73.50000000\n");
}

#[test]
fn short_row_is_dropped_and_the_rest_processed() {
    let input = b"id,name,stop_lat,stop_lon\n1,A,45.1,-73.5\n2,B\n3,C,46,-74\n";
    let w = rewrite_bytes(input, &stops_by_name(), 8).unwrap();
    assert_eq!(
        text(&w.bytes),
        "id,name,stop_lat,stop_lon\n1,A,45.10000000,-73.50000000\n3,C,46.00000000,-74.00000000\n"
    );
    assert_eq!(w.processed, 2);
    assert_eq!(w.skipped, vec![SkippedRow { row: 2, fields: 2 }]);
}

#[test]
fn missing_optional_file_is_passed_over() {
    let outcome = process_gtfs_file(None, &stops(MissingFilePolicy::Skip)).unwrap();
    assert!(matches!(outcome, FileOutcome::Skipped));
}

#[test]
fn missing_mandatory_file_fails() {
    let outcome = process_gtfs_file(None, &stops(MissingFilePolicy::Fail));
    assert!(matches!(outcome, Err(RewriteError::FileNotFound)));
}

#[test]
fn missing_column_leaves_nothing_to_write() {
    let input = b"id,name,lat,lon\n1,A,45.1,-73.5\n";
    match process_gtfs_file(Some(&input[..]), &stops(MissingFilePolicy::Fail)) {
        Err(RewriteError::ColumnNotFound(name)) => assert_eq!(name, "stop_lat"),
        other => panic!("unexpected: {:?}", other),
    }
}

#[test]
fn a_file_that_is_there_is_replaced_through_its_temporary_file() {
    let input = b"stop_id,STOP_LAT,Stop_Lon\nS1, 4.51e1 ,-7.35E1\n";
    for policy in [MissingFilePolicy::Skip, MissingFilePolicy::Fail] {
        match process_gtfs_file(Some(&input[..]), &stops(policy)).unwrap() {
            FileOutcome::Replace { temp_name, file } => {
                assert_eq!(temp_name, "stops.txt.tmp");
                assert_eq!(
                    text(&file.bytes),
                    "stop_id,STOP_LAT,Stop_Lon\nS1,45.10000000,-73.50000000\n"
                );
                assert_eq!(file.processed, 1);
            },
            other => panic!("unexpected: {:?}", other),
        }
    }
}

#[test]
fn quoted_fields_survive() {
    let input = b"name,stop_lat,stop_lon\n\"Main, corner of \"\"First\"\"\",45.1,-73.5\n\"two\nlines\",1,2\n";
    let w = rewrite_bytes(input, &stops_by_name(), 8).unwrap();
    assert_eq!(
        text(&w.bytes),
        "name,stop_lat,stop_lon\n\"Main, corner of \"\"First\"\"\",45.10000000,-73.50000000\n\"two\nlines\",1.00000000,2.00000000\n"
    );
}

#[test]
fn header_only_and_empty_files() {
    let w = rewrite_bytes(b"stop_lat,stop_lon\n", &stops_by_name(), 8).unwrap();
    assert_eq!(text(&w.bytes), "stop_lat,stop_lon\n");
    assert_eq!(w.processed, 0);
    match rewrite_bytes(b"", &stops_by_name(), 8) {
        Err(RewriteError::ColumnNotFound(name)) => assert_eq!(name, "stop_lat"),
        other => panic!("unexpected: {:?}", other),
    }
    let fixed = ColumnSelector::ByFixedIndex { lat: 0, lon: 1 };
    let w = rewrite_bytes(b"", &fixed, 8).unwrap();
    assert!(w.bytes.is_empty());
}

#[test]
fn fixed_positions_ignore_the_header_names() {
    let fixed = ColumnSelector::ByFixedIndex { lat: 1, lon: 2 };
    let input = b"a,b,c\nx,1,2\ny\nz,3,n/a,4\n";
    let w = rewrite_bytes(input, &fixed, 8).unwrap();
    assert_eq!(text(&w.bytes), "a,b,c\nx,1.00000000,2.00000000\nz,3.00000000,n/a,4\n");
    assert_eq!(w.skipped, vec![SkippedRow { row: 2, fields: 1 }]);
}

#[test]
fn text_that_is_not_utf8_is_an_io_failure() {
    let input = b"stop_lat,stop_lon\n\xff\xfe,2\n";
    match rewrite_bytes(input, &stops_by_name(), 8) {
        Err(RewriteError::IoFailure(message)) => assert!(!message.is_empty()),
        other => panic!("unexpected: {:?}", other),
    }
}

#[test]
fn rewriting_a_rewritten_file_changes_nothing() {
    let input = b"id,stop_lat,stop_lon,note\n1,45.123456789,-73.5,\"a,b\"\n2,bad\n3,N/A,1e-3,\n";
    let once = rewrite_bytes(input, &stops_by_name(), 8).unwrap();
    let twice = rewrite_bytes(&once.bytes, &stops_by_name(), 8).unwrap();
    assert_eq!(twice.bytes, once.bytes);
}

#[test]
fn other_precisions_can_be_asked_for() {
    let w = rewrite_bytes(b"stop_lat,stop_lon\n45.15,-73.55\n", &stops_by_name(), 1).unwrap();
    assert_eq!(text(&w.bytes), "stop_lat,stop_lon\n45.2,-73.6\n");
}

#[test]
fn temporary_file_names() {
    assert_eq!(temp_file_name("stops.txt"), "stops.txt.tmp");
    assert_eq!(temp_file_name(""), ".tmp");
}

#[test]
fn default_precision_is_eight() {
    assert_eq!(COORDINATE_PRECISION, 8);
    let config = stops(MissingFilePolicy::Skip);
    assert_eq!(config.precision, 8);
    assert_eq!(config.filename, "stops.txt");
    assert_eq!(config.missing, MissingFilePolicy::Skip);
}
