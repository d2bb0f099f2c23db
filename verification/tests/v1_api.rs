use shcs::Disk;
use shcs::Store;
use shcs::StorageError;
use shcs::v1::ApiError;
use shcs::v1::AuthenticatedBearerIdentifier;
use shcs::v1::BearerPassword;
use shcs::v1::Config;
use shcs::v1::Operation;
use shcs::v1::UrlBuilder;
use shcs::v1::alias_for;
use shcs::v1::authenticate_outcome;
use shcs::v1::next_unique_id;
use shcs::v1::upload_parts;

#[test]
fn url_builder_prefixes_v1() {
    let url = UrlBuilder::new("http://localhost:8080");
    assert_eq!(url.as_str(), "http://localhost:8080/v1");
}

#[test]
fn url_builder_join_inserts_one_separator() {
    let url = UrlBuilder::new("http://h").join("a/b");
    assert_eq!(url.as_str(), "http://h/v1/a/b");
    let url = UrlBuilder::new("http://h/").join("/x");
    assert_eq!(url.as_str(), "http://h/v1/x");
}

#[test]
fn operation_names_match_wire_format() {
    assert_eq!(Operation::Upload.name(), "Upload");
    assert_eq!(Operation::Replace.name(), "Replace");
    assert_eq!(Operation::ReplaceActive.name(), "ReplaceActive");
    assert_eq!(Operation::MetadataSet.name(), "MetadataSet");
    assert_eq!(Operation::MetadataGet.name(), "MetadataGet");
    assert_eq!(Operation::Delete.name(), "Delete");
}

#[test]
fn api_error_wraps_storage_error() {
    let wrapped = ApiError::from(StorageError::ConfigNotSet);
    assert_eq!(wrapped, ApiError::Storage(StorageError::ConfigNotSet));
    assert_eq!(wrapped.message(), "storage error: config not set");
    assert_eq!(ApiError::Unauthorized.message(), "unauthorized");
    assert_eq!(ApiError::InternalServerError.message(), "internal server error");
}

#[test]
fn bearer_password_requires_exact_match() {
    assert!(BearerPassword::accept(Some("secret"), Some("secret")).is_ok());
    assert!(matches!(
        BearerPassword::accept(Some("secret"), Some("wrong")),
        Err(ApiError::Unauthorized)
    ));
    assert!(matches!(
        BearerPassword::accept(None, Some("secret")),
        Err(ApiError::Unauthorized)
    ));
    assert!(matches!(
        BearerPassword::accept(Some("secret"), None),
        Err(ApiError::Unauthorized)
    ));
}

#[test]
fn authentication_needs_ok_status_and_body() {
    let id = authenticate_outcome(true, Some("user-1".to_string())).unwrap();
    assert_eq!(id.value(), "user-1");
    assert!(matches!(
        authenticate_outcome(false, Some("user-1".to_string())),
        Err(ApiError::Unauthorized)
    ));
    assert!(matches!(authenticate_outcome(true, None), Err(ApiError::Unauthorized)));
    let cloned = AuthenticatedBearerIdentifier("x".to_string());
    assert_eq!(cloned.value(), "x");
}

#[test]
fn v1_config_exposes_its_fields() {
    let config = Config::new(true, "http://auth".to_string(), "http://done".to_string());
    assert!(config.enabled());
    assert_eq!(config.authentication_endpoint(), "http://auth");
    assert_eq!(config.completion_endpoint(), "http://done");
}

#[test]
fn upload_takes_extension_from_uploaded_name() {
    let (filename, record) = upload_parts(Some("photo.png"), "abc123", None);
    assert_eq!(filename, "abc123.png");
    assert_eq!(record.alias, "photo.png");
    assert_eq!(record.custom, None);
}

#[test]
fn upload_without_filename_uses_the_id() {
    let (filename, record) = upload_parts(None, "abc123", Some("{}".to_string()));
    assert_eq!(filename, "abc123");
    assert_eq!(record.alias, "abc123");
    assert_eq!(record.custom, Some("{}".to_string()));
}

#[test]
fn upload_dotfiles_have_no_extension() {
    let (filename, record) = upload_parts(Some(".gitignore"), "abc123", None);
    assert_eq!(filename, "abc123");
    assert_eq!(record.alias, ".gitignore");
    let (filename, _) = upload_parts(Some("archive.tar.gz"), "id9", None);
    assert_eq!(filename, "id9.gz");
    let (filename, _) = upload_parts(Some("noext"), "id9", None);
    assert_eq!(filename, "id9");
}

#[test]
fn next_unique_id_avoids_existing_items() {
    let mut store = Store::new(Disk::new());
    shcs::initialize(&mut store, "R", Some(100)).unwrap();
    let bucket = shcs::active_bucket(&mut store).unwrap();
    let id = next_unique_id(&store, &bucket).unwrap();
    assert_eq!(id.chars().count(), 21);
    let path = shcs::storage_path(&bucket, &id);
    assert_eq!(shcs::exists_at(&store, &path).unwrap(), false);
}

#[test]
fn next_unique_id_needs_configuration() {
    let store = Store::new(Disk::new());
    assert!(matches!(
        next_unique_id(&store, "some-bucket"),
        Err(ApiError::Storage(StorageError::ConfigNotSet))
    ));
}

#[test]
fn alias_falls_back_to_item_name() {
    let record = shcs::Metadata { alias: "pretty.md".to_string(), custom: None };
    assert_eq!(alias_for(Some(&record), "ugly-id"), "pretty.md");
    assert_eq!(alias_for(None, "ugly-id"), "ugly-id");
}

#[test]
fn with_custom_replaces_only_custom() {
    let record = shcs::Metadata { alias: "a".to_string(), custom: Some("1".to_string()) };
    let updated = record.with_custom(Some("2".to_string()));
    assert_eq!(updated.alias, "a");
    assert_eq!(updated.custom, Some("2".to_string()));
    let cleared = updated.with_custom(None);
    assert_eq!(cleared.custom, None);
}
