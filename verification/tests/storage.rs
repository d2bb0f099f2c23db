use shcs::Disk;
use shcs::Metadata;
use shcs::Store;
use shcs::StorageError;

fn fresh_store(root: &str, threshold: usize) -> Store {
    let mut store = Store::new(Disk::new());
    shcs::initialize(&mut store, root, Some(threshold)).unwrap();
    store
}

fn bucket_of(path: &str) -> String {
    let (bucket, _item) = shcs::bucket_and_item(path).unwrap();
    bucket.to_string()
}

#[test]
fn test_create_file() {
    let mut store = Store::new(Disk::new());
    shcs::initialize(&mut store, "storage-test-test_create_file", Some(2)).unwrap();

    let one = shcs::storage::write(&mut store, "one.md", "content one", None).unwrap();
    let two = shcs::storage::write(&mut store, "two.text", "content two", None).unwrap();
    let three = shcs::storage::write(&mut store, "three.rs", "content three", None).unwrap();

    let (content, _path) = shcs::read(&store, &three).unwrap();

    // verify both one & two have the same bucket
    let one = bucket_of(&one);
    let two = bucket_of(&two);
    assert_eq!(one, two);

    let three = bucket_of(&three);
    assert_ne!(two, three);

    assert_eq!(content, "content three");
}

#[test]
fn test_create_metadata_file() {
    let mut store = Store::new(Disk::new());
    shcs::initialize(&mut store, "storage-test-test_create_metadata_file", Some(2)).unwrap();

    let one = shcs::storage::write(
        &mut store,
        "one.md",
        "content one",
        Some(&Metadata { alias: "an-alias.md".to_string(), custom: None }),
    )
    .unwrap();

    let metadata = shcs::deserialize_metadata(&store, &one).unwrap();

    assert!(metadata.is_some());

    let metadata = metadata.unwrap();
    assert_eq!(metadata.alias, "an-alias.md");
}

#[test]
fn scenario_threshold_two() {
    // initialize with root R, threshold 2; a and b land in one bucket,
    // c lands in another; reading c's path returns its content.
    let mut store = fresh_store("R", 2);
    let pa = shcs::storage::write(&mut store, "a", "x", None).unwrap();
    let pb = shcs::storage::write(&mut store, "b", "y", None).unwrap();
    let pc = shcs::storage::write(&mut store, "c", "z", None).unwrap();
    let b1 = bucket_of(&pa);
    assert_eq!(b1, bucket_of(&pb));
    let b2 = bucket_of(&pc);
    assert_ne!(b1, b2);
    let (content, _) = shcs::read(&store, &pc).unwrap();
    assert_eq!(content, "z");
}

#[test]
fn scenario_metadata_round_trip() {
    // write with an alias and a custom value, then read the record back.
    let mut store = fresh_store("R", 100);
    let record = Metadata { alias: "doc.md".to_string(), custom: Some("{\"k\":1}".to_string()) };
    let path = shcs::storage::write(&mut store, "f", "data", Some(&record)).unwrap();
    let loaded = shcs::deserialize_metadata(&store, &path).unwrap().unwrap();
    assert_eq!(loaded.alias, "doc.md");
    assert_eq!(loaded.custom, Some("{\"k\":1}".to_string()));
}

#[test]
fn write_paths_read_back_their_content() {
    let mut store = fresh_store("R", 10);
    let mut written: Vec<(String, String)> = Vec::new();
    for idx in 0..25usize {
        let name = format!("item-{idx}");
        let content = format!("content of {idx}");
        let path = shcs::storage::write(&mut store, &name, &content, None).unwrap();
        written.push((path, content));
    }
    for (path, content) in &written {
        let (read_back, _) = shcs::read(&store, path).unwrap();
        assert_eq!(&read_back, content);
        assert_eq!(shcs::exists_at(&store, path).unwrap(), true);
    }
}

#[test]
fn rotation_updates_dotfile_and_creates_fresh_bucket() {
    let mut store = fresh_store("R", 1);
    let first = shcs::storage::write(&mut store, "a", "1", None).unwrap();
    let b1 = bucket_of(&first);
    let buckets_before: Vec<String> =
        store.disk.buckets.iter().map(|b| b.name.clone()).collect();
    let second = shcs::storage::write(&mut store, "b", "2", None).unwrap();
    let b2 = bucket_of(&second);
    assert_ne!(b1, b2);
    // the new bucket did not exist before this write
    assert!(!buckets_before.contains(&b2));
    // the dot-file on disk records the new active bucket
    let expected = shcs::DotFile { active_bucket_name: b2.clone() }.encode();
    assert_eq!(store.disk.dotfile.as_deref(), Some(expected.as_str()));
}

#[test]
fn one_threshold_crossing_creates_one_bucket() {
    let mut store = fresh_store("R", 1);
    let _ = shcs::storage::write(&mut store, "a", "1", None).unwrap();
    let before = store.disk.buckets.len();
    // this write crosses the threshold and must create exactly one bucket
    let _ = shcs::storage::write(&mut store, "b", "2", None).unwrap();
    assert_eq!(store.disk.buckets.len(), before + 1);
    // below the threshold, obtaining the active bucket creates nothing
    let mut roomy = fresh_store("R2", 2);
    let _ = shcs::storage::write(&mut roomy, "a", "1", None).unwrap();
    let n = roomy.disk.buckets.len();
    let _ = shcs::active_bucket(&mut roomy).unwrap();
    assert_eq!(roomy.disk.buckets.len(), n);
}

#[test]
fn remove_then_exists_is_false_and_read_fails() {
    let mut store = fresh_store("R", 10);
    let path = shcs::storage::write(&mut store, "doomed", "bytes", None).unwrap();
    assert_eq!(shcs::exists_at(&store, &path).unwrap(), true);
    shcs::remove(&mut store, &path).unwrap();
    assert_eq!(shcs::exists_at(&store, &path).unwrap(), false);
    assert!(shcs::read(&store, &path).is_err());
}

#[test]
fn remove_deletes_sidecar_too() {
    let mut store = fresh_store("R", 10);
    let record = Metadata { alias: "a".to_string(), custom: None };
    let path = shcs::storage::write(&mut store, "x", "bytes", Some(&record)).unwrap();
    let (sidecar, _) = shcs::read_metadata(&store, &path).unwrap();
    assert!(sidecar.is_some());
    shcs::remove(&mut store, &path).unwrap();
    let (sidecar, _) = shcs::read_metadata(&store, &path).unwrap();
    assert!(sidecar.is_none());
}

#[test]
fn remove_missing_item_is_io_error() {
    let mut store = fresh_store("R", 10);
    let active = shcs::active_bucket(&mut store).unwrap();
    let path = shcs::storage_path(&active, "never-written");
    assert_eq!(shcs::remove(&mut store, &path), Err(StorageError::Io));
}

#[test]
fn metadata_never_written_reads_back_empty() {
    let mut store = fresh_store("R", 10);
    let path = shcs::storage::write(&mut store, "bare", "data", None).unwrap();
    // absence of the sidecar is not an error: the result is simply empty
    assert_eq!(shcs::deserialize_metadata(&store, &path).unwrap(), None);
}

#[test]
fn absent_metadata_writes_no_sidecar_file() {
    let mut store = fresh_store("R", 10);
    let path = shcs::storage::write(&mut store, "bare", "data", None).unwrap();
    let (bucket, _) = shcs::bucket_and_item(&path).unwrap();
    // exactly one directory entry: the content file, no sidecar
    assert_eq!(shcs::Bucket::size(&store.disk, bucket).unwrap(), 1);
    let (sidecar, _) = shcs::read_metadata(&store, &path).unwrap();
    assert!(sidecar.is_none());
    // set_metadata with an absent record writes nothing either
    shcs::set_metadata(&mut store, &path, None).unwrap();
    assert_eq!(shcs::Bucket::size(&store.disk, bucket).unwrap(), 1);
}

#[test]
fn set_metadata_overwrites_independently() {
    let mut store = fresh_store("R", 10);
    let first = Metadata { alias: "old".to_string(), custom: None };
    let path = shcs::storage::write(&mut store, "x", "data", Some(&first)).unwrap();
    let second = Metadata { alias: "new".to_string(), custom: Some("7".to_string()) };
    shcs::set_metadata(&mut store, &path, Some(&second)).unwrap();
    let loaded = shcs::deserialize_metadata(&store, &path).unwrap().unwrap();
    assert_eq!(loaded.alias, "new");
    assert_eq!(loaded.custom, Some("7".to_string()));
    let (content, _) = shcs::read(&store, &path).unwrap();
    assert_eq!(content, "data");
}

#[test]
fn operations_before_initialize_fail() {
    let store = Store::new(Disk::new());
    assert_eq!(shcs::exists_at(&store, "b/i"), Err(StorageError::ConfigNotSet));
    assert_eq!(shcs::read(&store, "b/i").unwrap_err(), StorageError::ConfigNotSet);
    let mut store = store;
    assert_eq!(
        shcs::storage::write(&mut store, "x", "y", None).unwrap_err(),
        StorageError::ConfigNotSet
    );
    assert_eq!(shcs::active_bucket(&mut store).unwrap_err(), StorageError::ConfigNotSet);
}

#[test]
fn initialize_twice_fails() {
    let mut store = fresh_store("R", 10);
    assert_eq!(
        shcs::initialize(&mut store, "R", None),
        Err(StorageError::ConfigAlreadySet)
    );
}

#[test]
fn initialize_rejects_corrupt_dotfile() {
    let disk = Disk { dotfile: Some("nonsense".to_string()), buckets: vec![] };
    let mut store = Store::new(disk);
    assert_eq!(shcs::initialize(&mut store, "R", None), Err(StorageError::Serde));
}

#[test]
fn active_bucket_survives_restart() {
    let mut store = fresh_store("R", 10);
    let before = shcs::active_bucket(&mut store).unwrap();
    // a new process over the same root reads the same dot-file
    let mut revived = Store::new(store.disk);
    shcs::initialize(&mut revived, "R", Some(10)).unwrap();
    let after = shcs::active_bucket(&mut revived).unwrap();
    assert_eq!(before, after);
}

#[test]
fn write_exact_targets_named_bucket() {
    let mut store = fresh_store("R", 10);
    let active = shcs::active_bucket(&mut store).unwrap();
    let path = shcs::write_exact(&mut store, &active, "direct", "payload").unwrap();
    assert_eq!(path, format!("{active}/direct"));
    let (content, _) = shcs::read(&store, &path).unwrap();
    assert_eq!(content, "payload");
    // a bucket that does not exist is an io error
    assert_eq!(
        shcs::write_exact(&mut store, "no-such-bucket", "x", "y").unwrap_err(),
        StorageError::Io
    );
}

#[test]
fn persist_tempfile_lands_in_active_bucket() {
    let mut store = fresh_store("R", 10);
    let record = Metadata { alias: "upload.bin".to_string(), custom: None };
    let path = shcs::persist_tempfile(&mut store, "staged-1", "staged bytes", Some(&record))
        .unwrap();
    let (content, _) = shcs::read(&store, &path).unwrap();
    assert_eq!(content, "staged bytes");
    let loaded = shcs::deserialize_metadata(&store, &path).unwrap().unwrap();
    assert_eq!(loaded.alias, "upload.bin");
}

#[test]
fn replace_tempfile_overwrites_in_place() {
    let mut store = fresh_store("R", 10);
    let path = shcs::storage::write(&mut store, "target", "before", None).unwrap();
    let returned = shcs::replace_tempfile(&mut store, &path, "after", None).unwrap();
    assert_eq!(returned, path);
    let (content, _) = shcs::read(&store, &path).unwrap();
    assert_eq!(content, "after");
    // replacing under a bucket that does not exist is an io error
    assert_eq!(
        shcs::replace_tempfile(&mut store, "ghost/item", "x", None).unwrap_err(),
        StorageError::Io
    );
}

#[test]
fn generated_bucket_names_are_nanoid_shaped() {
    let store = fresh_store("R", 10);
    let name = &store.disk.buckets[0].name;
    assert_eq!(name.chars().count(), 21);
    assert!(name
        .chars()
        .all(|c| c.is_ascii_alphanumeric() || c == '_' || c == '-'));
}

#[test]
fn corrupt_sidecar_is_a_serde_error() {
    let mut store = fresh_store("R", 10);
    let record = Metadata { alias: "a".to_string(), custom: None };
    let path = shcs::storage::write(&mut store, "x", "data", Some(&record)).unwrap();
    let (bucket, item) = {
        let (b, i) = shcs::bucket_and_item(&path).unwrap();
        (b.to_string(), i.to_string())
    };
    // corrupt the sidecar file behind the facade's back
    let sidecar = shcs::Metadata::metadata_filename(&item);
    for dir in &mut store.disk.buckets {
        if dir.name == bucket {
            for file in &mut dir.files {
                if file.name == sidecar {
                    file.content = "not a record".to_string();
                }
            }
        }
    }
    assert_eq!(
        shcs::deserialize_metadata(&store, &path).unwrap_err(),
        StorageError::Serde
    );
}

#[test]
fn metadata_with_newline_fails_to_serialize() {
    let mut store = fresh_store("R", 10);
    let record = Metadata { alias: "a\nb".to_string(), custom: None };
    assert_eq!(
        shcs::storage::write(&mut store, "x", "data", Some(&record)).unwrap_err(),
        StorageError::Serde
    );
    // nothing was stored for the rejected write
    let active = shcs::active_bucket(&mut store).unwrap();
    let path = shcs::storage_path(&active, "x");
    assert_eq!(shcs::exists_at(&store, &path).unwrap(), false);
    // the same record is rejected when set independently
    let ok_record = Metadata { alias: "a".to_string(), custom: None };
    let path = shcs::storage::write(&mut store, "x", "data", Some(&ok_record)).unwrap();
    let bad_custom = Metadata { alias: "a".to_string(), custom: Some("1\n2".to_string()) };
    assert_eq!(
        shcs::set_metadata(&mut store, &path, Some(&bad_custom)).unwrap_err(),
        StorageError::Serde
    );
}
