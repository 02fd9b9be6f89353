use rust_telemetry::sinks::csv_needs_header;

#[test]
fn csv_header_goes_into_missing_or_empty_files() {
    assert!(csv_needs_header(None));
    assert!(csv_needs_header(Some(0)));
    assert!(!csv_needs_header(Some(1)));
    assert!(!csv_needs_header(Some(4096)));
}
