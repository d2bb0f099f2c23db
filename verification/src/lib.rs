//! A local-disk blob store: named binary objects are sharded across bucket
//! directories, addressed by a stable `bucket/item` storage path, and carry
//! an optional metadata sidecar.
//!
//! The crate verifies the storage layer itself: path derivation and the
//! storage-path split, the dot-file and sidecar text formats, bucket
//! lifecycle and rotation, the one-shot process configuration, and the
//! facade operations. They are specified and proved over an explicit
//! picture of the root directory's contents — the [`Disk`] — which an
//! unverified shell keeps in step with the real filesystem; everything the
//! shell decides or formats, it takes from here.
mod bucket;
mod config;
mod constants;
mod disk;
mod dotfile;
mod error;
mod item;
mod metadata;
mod path;
pub mod storage;
pub mod v1;

pub use bucket::Bucket;
pub use bucket::generated_name;
pub use bucket::is_safe_char;
pub use bucket::lemma_generated_name_valid;
pub use config::Config;
pub use config::Store;
pub use config::config;
pub use config::dotfile_name_usable;
pub use config::initialize;
pub use config::lemma_no_double_rotation;
pub use config::spec_bucket_obtained;
pub use config::spec_rotated;
pub use constants::BUCKET_SIZE_MAX;
pub use disk::BucketDir;
pub use disk::Disk;
pub use disk::FsFile;
pub use dotfile::DotFile;
pub use dotfile::dotfile_text_ok;
pub use dotfile::lemma_dotfile_round_trip;
pub use dotfile::lemma_dotfile_text_canonical;
pub use dotfile::name_valid_dotfile;
pub use dotfile::spec_dotfile_encode;
pub use dotfile::spec_dotfile_filename;
pub use dotfile::spec_dotfile_name;
pub use dotfile::spec_dotfile_prefix;
pub use error::StorageError;
pub use item::Item;
pub use metadata::Metadata;
pub use metadata::lemma_metadata_decomposition;
pub use metadata::lemma_metadata_encode_injective;
pub use metadata::lemma_metadata_round_trip;
pub use metadata::metadata_fields_ok;
pub use metadata::metadata_text_ok;
pub use metadata::spec_alias_prefix;
pub use metadata::spec_custom_encode;
pub use metadata::spec_custom_prefix;
pub use metadata::spec_metadata_encode;
pub use metadata::spec_sidecar_name;
pub use metadata::spec_sidecar_suffix;
pub use path::contains_slash;
pub use path::find_char;
pub use path::find_first_slash;
pub use path::has_prefix;
pub use path::has_slash;
pub use path::is_first_char;
pub use path::is_first_slash;
pub use path::join;
pub use path::lemma_first_char_unique;
pub use path::lemma_first_slash_unique;
pub use path::lemma_parseable_split;
pub use path::lemma_path_split_unique;
pub use path::lemma_storage_path_round_trip;
pub use path::name_valid;
pub use path::parseable;
pub use path::path_split;
pub use path::slash_at;
pub use path::spec_parse_error;
pub use path::spec_path_parts;
pub use path::spec_storage_path;
pub use path::str_eq;
pub use storage::active_bucket;
pub use storage::bucket_and_item;
pub use storage::deserialize_metadata;
pub use storage::exists_at;
pub use storage::lemma_remove_then_gone;
pub use storage::lemma_write_read_back;
pub use storage::lemma_write_sequence_reads_back;
pub use storage::persist_tempfile;
pub use storage::read;
pub use storage::read_metadata;
pub use storage::remove;
pub use storage::replace_tempfile;
pub use storage::set_metadata;
pub use storage::storage_path;
pub use storage::write_exact;
