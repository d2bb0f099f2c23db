use shcs::DotFile;
use shcs::Metadata;
use shcs::StorageError;

#[test]
fn dotfile_encode_is_one_line() {
    let record = DotFile { active_bucket_name: "abc-123".to_string() };
    assert_eq!(record.encode(), "active_bucket_name: abc-123\n");
}

#[test]
fn dotfile_parse_inverts_encode() {
    let record = DotFile { active_bucket_name: "bucket-x".to_string() };
    let text = record.encode();
    let parsed = DotFile::parse(&text).unwrap();
    assert_eq!(parsed.active_bucket_name, "bucket-x");
}

#[test]
fn dotfile_parse_rejects_malformed_text() {
    assert_eq!(DotFile::parse("").unwrap_err(), StorageError::Serde);
    assert_eq!(DotFile::parse("active_bucket_name: x").unwrap_err(), StorageError::Serde);
    assert_eq!(DotFile::parse("other_key: x\n").unwrap_err(), StorageError::Serde);
    assert_eq!(
        DotFile::parse("active_bucket_name: a\nb\n").unwrap_err(),
        StorageError::Serde
    );
}

#[test]
fn dotfile_path_sits_next_to_buckets() {
    assert_eq!(DotFile::path("root"), "root/.storage");
}

#[test]
fn metadata_encode_without_custom() {
    let record = Metadata { alias: "doc.md".to_string(), custom: None };
    assert_eq!(record.encode(), "alias: doc.md\n");
}

#[test]
fn metadata_encode_with_custom() {
    let record = Metadata { alias: "doc.md".to_string(), custom: Some("{\"k\":1}".to_string()) };
    assert_eq!(record.encode(), "alias: doc.md\ncustom: {\"k\":1}\n");
}

#[test]
fn metadata_parse_inverts_encode() {
    let record = Metadata { alias: "a b.txt".to_string(), custom: Some("42".to_string()) };
    let parsed = Metadata::parse(&record.encode()).unwrap();
    assert_eq!(parsed, record);
    let bare = Metadata { alias: "x".to_string(), custom: None };
    let parsed = Metadata::parse(&bare.encode()).unwrap();
    assert_eq!(parsed, bare);
}

#[test]
fn metadata_parse_rejects_malformed_text() {
    assert_eq!(Metadata::parse("").unwrap_err(), StorageError::Serde);
    assert_eq!(Metadata::parse("alias: x").unwrap_err(), StorageError::Serde);
    assert_eq!(Metadata::parse("wrong: x\n").unwrap_err(), StorageError::Serde);
    assert_eq!(Metadata::parse("alias: x\ngarbage").unwrap_err(), StorageError::Serde);
    assert_eq!(Metadata::parse("alias: x\ncustom: 1").unwrap_err(), StorageError::Serde);
}

#[test]
fn sidecar_name_appends_fixed_suffix() {
    assert_eq!(Metadata::metadata_filename("one.md"), "one.md.metadata.yaml");
}

#[test]
fn derived_paths_join_with_separators() {
    assert_eq!(shcs::Bucket::path("root", "b"), "root/b");
    assert_eq!(shcs::Item::path("root", "b", "i.txt"), "root/b/i.txt");
    assert_eq!(Metadata::path("root", "b", "i.txt"), "root/b/i.txt.metadata.yaml");
    assert_eq!(shcs::Item::to_string("b", "i.txt"), "b/i.txt");
}

#[test]
fn storage_path_round_trips_through_split() {
    let path = shcs::storage_path("bucket-1", "file.bin");
    assert_eq!(path, "bucket-1/file.bin");
    let (bucket, item) = shcs::bucket_and_item(&path).unwrap();
    assert_eq!(bucket, "bucket-1");
    assert_eq!(item, "file.bin");
}

#[test]
fn split_takes_first_separator() {
    let (bucket, item) = shcs::bucket_and_item("a/b/c").unwrap();
    assert_eq!(bucket, "a");
    assert_eq!(item, "b/c");
}

#[test]
fn split_reports_missing_parts() {
    assert_eq!(
        shcs::bucket_and_item("no-separator").unwrap_err(),
        StorageError::ReadMissingItem
    );
    assert_eq!(shcs::bucket_and_item("").unwrap_err(), StorageError::ReadMissingItem);
    assert_eq!(shcs::bucket_and_item("/item").unwrap_err(), StorageError::ReadMissingBucket);
    assert_eq!(shcs::bucket_and_item("bucket/").unwrap_err(), StorageError::ReadMissingItem);
}

#[test]
fn error_messages_name_their_kind() {
    assert_eq!(StorageError::ConfigNotSet.message(), "config not set");
    assert_eq!(StorageError::ConfigAlreadySet.message(), "config already set");
    assert_eq!(StorageError::Io.message(), "io error");
    assert_eq!(StorageError::Serde.message(), "serde error");
    assert_eq!(StorageError::PoisonError.message(), "rwlock poison error");
    assert_eq!(
        StorageError::ReadMissingBucket.message(),
        "read failure, missing bucket name"
    );
    assert_eq!(
        StorageError::ReadMissingItem.message(),
        "read failure, missing item name"
    );
}
