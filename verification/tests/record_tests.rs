use trr::record::{decode_record, encode_record, RepositoryMetadata};
use trr::store::{allocate_id, collect_records, record_file_name, store_dir, ulid_of_file_name};
use trr::timefmt::now_rfc3339;

const EPOCH: &str = "1970-01-01T00:00:00+00:00";

#[test]
fn test_encode_decode_round_trip() {
    let record = RepositoryMetadata {
        branch: "feature/test".to_string(),
        created_at: now_rfc3339(),
        directory: Some("feature-test".to_string()),
    };
    let content = encode_record(&record);
    let back = decode_record(&content, EPOCH);
    assert_eq!(back.branch, "feature/test");
    assert_eq!(back.created_at, record.created_at);
    assert_eq!(back.directory, Some("feature-test".to_string()));
}

#[test]
fn test_round_trip_with_escapes() {
    let record = RepositoryMetadata {
        branch: "odd\"br\\anch".to_string(),
        created_at: "2024-06-05T04:03:02+00:00".to_string(),
        directory: None,
    };
    let content = encode_record(&record);
    let back = decode_record(&content, EPOCH);
    assert_eq!(back.branch, "odd\"br\\anch");
    assert_eq!(back.created_at, "2024-06-05T04:03:02+00:00");
    assert_eq!(back.directory, None);
}

#[test]
fn test_decode_pretty_printed_record() {
    let content = "{\n  \"branch\": \"feature/test\",\n  \"created_at\": \"2024-01-01T00:00:00Z\",\n  \"directory\": \"feature-test\"\n}";
    let back = decode_record(content, EPOCH);
    assert_eq!(back.branch, "feature/test");
    assert_eq!(back.created_at, "2024-01-01T00:00:00Z");
    assert_eq!(back.directory, Some("feature-test".to_string()));
}

#[test]
fn test_decode_escaped_newline() {
    let content = "{\"branch\":\"a\\nb\",\"created_at\":\"2024-01-01T00:00:00Z\"}";
    let back = decode_record(content, EPOCH);
    assert_eq!(back.branch, "a\nb");
    assert_eq!(back.directory, None);
}

#[test]
fn test_decode_legacy_plain_text() {
    let back = decode_record("feature/legacy", EPOCH);
    assert_eq!(back.branch, "feature/legacy");
    assert_eq!(back.created_at, EPOCH);
    assert_eq!(back.directory, Some("feature-legacy".to_string()));
}

#[test]
fn test_decode_legacy_trims_whitespace() {
    let back = decode_record("feature/legacy\n", EPOCH);
    assert_eq!(back.branch, "feature/legacy");
    assert_eq!(back.directory, Some("feature-legacy".to_string()));
}

#[test]
fn test_decode_bad_timestamp_falls_back_to_legacy() {
    let content = "{\"branch\":\"x\",\"created_at\":\"not-a-date\"}";
    let back = decode_record(content, EPOCH);
    assert_eq!(back.branch, content);
    assert_eq!(back.created_at, EPOCH);
}

#[test]
fn test_now_rfc3339_is_accepted_back() {
    let now = now_rfc3339();
    let content = format!("{{\"branch\":\"x\",\"created_at\":\"{now}\"}}");
    let back = decode_record(&content, EPOCH);
    assert_eq!(back.branch, "x");
    assert_eq!(back.created_at, now);
}

#[test]
fn test_allocate_id_shape() {
    let id = allocate_id();
    assert_eq!(id.len(), 26);
    let other = allocate_id();
    assert_ne!(id, other);
}

#[test]
fn test_record_paths() {
    assert_eq!(record_file_name("01ARZ"), "01ARZ.json");
    assert_eq!(store_dir(".trr"), ".trr/.trr-sys");
    assert_eq!(ulid_of_file_name("01ARZ.json"), "01ARZ");
    assert_eq!(ulid_of_file_name("legacy-entry"), "legacy-entry");
}

#[test]
fn test_collect_records_sorted_by_branch() {
    let entries = vec![
        (
            "b.json".to_string(),
            "{\"branch\":\"zeta\",\"created_at\":\"2024-01-02T00:00:00Z\",\"directory\":\"zeta\"}"
                .to_string(),
        ),
        ("a.json".to_string(), "alpha/legacy".to_string()),
        (
            "c.json".to_string(),
            "{\"branch\":\"beta\",\"created_at\":\"2024-01-03T00:00:00Z\",\"directory\":\"beta\"}"
                .to_string(),
        ),
    ];
    let listed = collect_records(entries, EPOCH);
    assert_eq!(listed.len(), 3);
    assert_eq!(listed[0].branch, "alpha/legacy");
    assert_eq!(listed[0].ulid, "a");
    assert_eq!(listed[0].directory, "alpha-legacy");
    assert_eq!(listed[0].created_at, EPOCH);
    assert_eq!(listed[0].file_name, "a.json");
    assert_eq!(listed[1].branch, "beta");
    assert_eq!(listed[2].branch, "zeta");
}

#[test]
fn test_collect_records_fills_missing_directory() {
    let entries = vec![(
        "x.json".to_string(),
        "{\"branch\":\"feature/a\",\"created_at\":\"2024-01-02T00:00:00Z\"}".to_string(),
    )];
    let listed = collect_records(entries, EPOCH);
    assert_eq!(listed.len(), 1);
    assert_eq!(listed[0].directory, "feature-a");
}

#[test]
fn test_display_row() {
    let entries = vec![(
        "x.json".to_string(),
        "{\"branch\":\"feature/a\",\"created_at\":\"2024-01-02T03:04:05Z\"}".to_string(),
    )];
    let listed = collect_records(entries, EPOCH);
    assert_eq!(listed[0].display_row(), "2024-01-02 03:04:05\tfeature/a");
}
