use vstd::prelude::*;

use crate::config::Store;
use crate::config::spec_bucket_obtained;
use crate::error::StorageError;
use crate::item::Item;
use crate::metadata::Metadata;
use crate::metadata::spec_metadata_encode;
use crate::metadata::spec_sidecar_name;
use crate::metadata::metadata_text_ok;
use crate::path::find_first_slash;
use crate::path::contains_slash;
use crate::path::lemma_path_split_unique;
use crate::path::name_valid;
use crate::path::parseable;
use crate::path::path_split;
use crate::path::spec_parse_error;
use crate::path::spec_path_parts;
use crate::path::spec_storage_path;
use crate::dotfile::spec_dotfile_encode;

verus! {

/// Split a storage path on its first separator into the bucket name and the
/// item name; fails when either part is missing.
pub fn bucket_and_item(storage_path: &str) -> (r: Result<(&str, &str), StorageError>)
    ensures
        match r {
            Ok((b, it)) => path_split(storage_path@, b@, it@) && spec_path_parts(storage_path@)
                == Some((b@, it@)),
            Err(e) => spec_parse_error(storage_path@, e) && spec_path_parts(storage_path@) is None,
        },
{
    let len = storage_path.unicode_len();
    match find_first_slash(storage_path) {
        None => {
            proof {
                if parseable(storage_path@) {
                    let k = choose|k: int|
                        crate::path::is_first_slash(storage_path@, k) && 0 < k && k + 1 < storage_path@.len();
                    assert(crate::path::has_slash(storage_path@));
                }
                crate::path::lemma_parseable_split(storage_path@);
                if storage_path@.len() > 0 && storage_path@[0] == '/' {
                    assert(crate::path::slash_at(storage_path@, 0));
                    assert(crate::path::has_slash(storage_path@));
                }
            }
            Err(StorageError::ReadMissingItem)
        },
        Some(k) => {
            if k == 0 {
                proof {
                    crate::path::lemma_parseable_split(storage_path@);
                    if parseable(storage_path@) {
                        let k2 = choose|k2: int|
                            crate::path::is_first_slash(storage_path@, k2) && 0 < k2 && k2 + 1
                                < storage_path@.len();
                        crate::path::lemma_first_slash_unique(storage_path@, 0, k2);
                    }
                }
                return Err(StorageError::ReadMissingBucket);
            }
            if k + 1 == len {
                proof {
                    if parseable(storage_path@) {
                        let k2 = choose|k2: int|
                            crate::path::is_first_slash(storage_path@, k2) && 0 < k2 && k2 + 1
                                < storage_path@.len();
                        crate::path::lemma_first_slash_unique(storage_path@, k as int, k2);
                    }
                    crate::path::lemma_parseable_split(storage_path@);
                }
                return Err(StorageError::ReadMissingItem);
            }
            let b = storage_path.substring_char(0, k);
            let it = storage_path.substring_char(k + 1, len);
            proof {
                assert(!b@.contains('/')) by {
                    if b@.contains('/') {
                        let j = choose|j: int| 0 <= j < b@.len() && b@[j] == '/';
                        assert(storage_path@[j] == '/');
                    }
                }
                assert(storage_path@ =~= spec_storage_path(b@, it@));
                assert(path_split(storage_path@, b@, it@));
                lemma_path_split_unique(storage_path@, b@, it@);
            }
            Ok((b, it))
        },
    }
}

/// The storage path of an item: `{bucket}/{name}`.
pub fn storage_path(bucket: &str, name: &str) -> (r: String)
    ensures
        r@ == spec_storage_path(bucket@, name@),
{
    Item::to_string(bucket, name)
}

/// The name of the currently active bucket, rotating first when the
/// current one has reached the threshold.
pub fn active_bucket(store: &mut Store) -> (r: Result<String, StorageError>)
    requires
        old(store).wf(),
    ensures
        final(store).wf(),
        match r {
            Ok(b) => old(store).initialized() && spec_bucket_obtained(
                *old(store),
                *final(store),
                b@,
            ) && name_valid(b@) && b@ == final(store).spec_active()
                && final(store).disk.spec_has_bucket(b@),
            Err(e) => *final(store) == *old(store) && (if old(store).initialized() {
                e == StorageError::NamespaceExhausted && old(store).disk.spec_count(
                    old(store).spec_active(),
                ) >= old(store).spec_threshold()
            } else {
                e == StorageError::ConfigNotSet
            }),
        },
{
    store.with_bucket()
}

/// Write an item into exactly the named bucket, which must exist, and hand
/// back its storage path.
pub fn write_exact(store: &mut Store, bucket: &str, item: &str, content: &str) -> (r: Result<
    String,
    StorageError,
>)
    requires
        old(store).wf(),
        name_valid(bucket@),
        name_valid(item@),
    ensures
        final(store).wf(),
        final(store).config == old(store).config,
        final(store).disk.spec_dotfile() == old(store).disk.spec_dotfile(),
        forall|b: Seq<char>|
            final(store).disk.spec_has_bucket(b) <==> old(store).disk.spec_has_bucket(b),
        match r {
            Ok(p) => {
                &&& p@ == spec_storage_path(bucket@, item@)
                &&& old(store).disk.spec_has_bucket(bucket@)
                &&& final(store).disk.spec_content(bucket@, item@) == Some(content@)
                &&& forall|b: Seq<char>, n: Seq<char>|
                    !(b == bucket@ && n == item@) ==> final(store).disk.spec_content(b, n) == old(store).disk.spec_content(b, n)
                &&& forall|b: Seq<char>|
                    b != bucket@ ==> final(store).disk.spec_count(b) == old(store).disk.spec_count(
                        b,
                    )
            },
            Err(e) => e == StorageError::Io && !old(store).disk.spec_has_bucket(bucket@) && *final(store) == *old(store),
        },
{
    let written = Item::write(&mut store.disk, bucket, item, content);
    match written {
        Ok(_) => Ok(storage_path(bucket, item)),
        Err(e) => Err(e),
    }
}

/// Serialize the metadata record, if one is present, into the sidecar of
/// the item the storage path names. An absent record writes nothing — no
/// sidecar is ever created for it.
pub fn set_metadata(store: &mut Store, storage_path: &str, metadata: Option<&Metadata>) -> (r:
    Result<(), StorageError>)
    requires
        old(store).wf(),
    ensures
        final(store).wf(),
        final(store).config == old(store).config,
        final(store).disk.spec_dotfile() == old(store).disk.spec_dotfile(),
        forall|b: Seq<char>|
            final(store).disk.spec_has_bucket(b) <==> old(store).disk.spec_has_bucket(b),
        metadata is None ==> *final(store) == *old(store) && (match r {
            Ok(_) => parseable(storage_path@),
            Err(e) => spec_parse_error(storage_path@, e),
        }),
        metadata matches Some(m) ==> match spec_path_parts(storage_path@) {
            None => *final(store) == *old(store) && (match r {
                Ok(_) => false,
                Err(e) => spec_parse_error(storage_path@, e),
            }),
            Some((b, i)) => {
                if !m.encodable() {
                    *final(store) == *old(store) && r == Err::<(), StorageError>(
                        StorageError::Serde,
                    )
                } else if !old(store).initialized() {
                    *final(store) == *old(store) && r == Err::<(), StorageError>(
                        StorageError::ConfigNotSet,
                    )
                } else {
                    match r {
                        Ok(_) => {
                            &&& !i.contains('/')
                            &&& old(store).disk.spec_has_bucket(b)
                            &&& final(store).disk.spec_content(b, spec_sidecar_name(i)) == Some(
                                spec_metadata_encode(m.alias@, m.spec_custom()),
                            )
                            &&& forall|bb: Seq<char>, n: Seq<char>|
                                !(bb == b && n == spec_sidecar_name(i)) ==> final(store).disk.spec_content(bb, n) == old(store).disk.spec_content(bb, n)
                            &&& forall|bb: Seq<char>|
                                bb != b ==> final(store).disk.spec_count(bb) == old(store).disk.spec_count(bb)
                        },
                        Err(e) => e == StorageError::Io && *final(store) == *old(store) && (
                        i.contains('/') || !old(store).disk.spec_has_bucket(b)),
                    }
                }
            },
        },
{
    let parsed = bucket_and_item(storage_path);
    let (bucket, item) = match parsed {
        Ok(parts) => parts,
        Err(e) => {
            return Err(e);
        },
    };
    proof {
        crate::path::lemma_parseable_split(storage_path@);
    }
    match metadata {
        None => Ok(()),
        Some(m) => {
            if !m.check_encodable() {
                return Err(StorageError::Serde);
            }
            match &store.config {
                Some(_) => {},
                None => {
                    return Err(StorageError::ConfigNotSet);
                },
            }
            if contains_slash(item) {
                proof {
                    let k = choose|k: int| crate::path::slash_at(item@, k);
                    assert(item@.contains('/'));
                }
                return Err(StorageError::Io);
            }
            proof {
                assert(!item@.contains('/')) by {
                    if item@.contains('/') {
                        let k = choose|k: int| 0 <= k < item@.len() && item@[k] == '/';
                        assert(crate::path::slash_at(item@, k));
                        assert(crate::path::has_slash(item@));
                    }
                }
            }
            let text = m.encode();
            Metadata::write(&mut store.disk, bucket, item, text.as_str())
        },
    }
}

/// The content of the item a storage path names, together with the item's
/// full path under the root; fails when the content file is not there.
pub fn read(store: &Store, storage_path: &str) -> (r: Result<(String, String), StorageError>)
    requires
        store.wf(),
    ensures
        match r {
            Ok((content, p)) => store.initialized() && (match spec_path_parts(storage_path@) {
                Some((b, i)) => store.disk.spec_content(b, i) == Some(content@) && p@
                    == store.spec_root() + seq!['/'] + b + seq!['/'] + i,
                None => false,
            }),
            Err(e) => {
                ||| spec_parse_error(storage_path@, e)
                ||| (parseable(storage_path@) && !store.initialized() && e
                    == StorageError::ConfigNotSet)
                ||| (parseable(storage_path@) && store.initialized() && e == StorageError::Io && (
                match spec_path_parts(storage_path@) {
                    Some((b, i)) => store.disk.spec_content(b, i) is None,
                    None => false,
                }))
            },
        },
{
    proof {
        crate::path::lemma_parseable_split(storage_path@);
    }
    let parsed = bucket_and_item(storage_path);
    let (bucket, item) = match parsed {
        Ok(parts) => parts,
        Err(e) => {
            return Err(e);
        },
    };
    let root = match &store.config {
        Some(c) => &c.root,
        None => {
            return Err(StorageError::ConfigNotSet);
        },
    };
    Item::file(&store.disk, root.as_str(), bucket, item)
}

/// The sidecar content of the item a storage path names, together with the
/// sidecar's full path. An absent sidecar is not an error: the content is
/// simply absent.
pub fn read_metadata(store: &Store, storage_path: &str) -> (r: Result<
    (Option<String>, String),
    StorageError,
>)
    requires
        store.wf(),
    ensures
        match r {
            Ok((oc, p)) => store.initialized() && (match spec_path_parts(storage_path@) {
                Some((b, i)) => p@ == store.spec_root() + seq!['/'] + b + seq!['/']
                    + spec_sidecar_name(i) && (match oc {
                    Some(c) => store.disk.spec_content(b, spec_sidecar_name(i)) == Some(c@),
                    None => store.disk.spec_content(b, spec_sidecar_name(i)) is None,
                }),
                None => false,
            }),
            Err(e) => {
                ||| spec_parse_error(storage_path@, e)
                ||| (parseable(storage_path@) && !store.initialized() && e
                    == StorageError::ConfigNotSet)
            },
        },
{
    proof {
        crate::path::lemma_parseable_split(storage_path@);
    }
    let parsed = bucket_and_item(storage_path);
    let (bucket, item) = match parsed {
        Ok(parts) => parts,
        Err(e) => {
            return Err(e);
        },
    };
    let root = match &store.config {
        Some(c) => &c.root,
        None => {
            return Err(StorageError::ConfigNotSet);
        },
    };
    Metadata::file(&store.disk, root.as_str(), bucket, item)
}

/// The decoded metadata record of the item a storage path names. A path
/// with no sidecar ever written yields an empty result, not an error;
/// a sidecar that does not decode is an error.
pub fn deserialize_metadata(store: &Store, storage_path: &str) -> (r: Result<
    Option<Metadata>,
    StorageError,
>)
    requires
        store.wf(),
    ensures
        match r {
            Ok(om) => store.initialized() && (match spec_path_parts(storage_path@) {
                Some((b, i)) => match store.disk.spec_content(b, spec_sidecar_name(i)) {
                    None => om is None,
                    Some(t) => match om {
                        Some(m) => m.encodable() && t == spec_metadata_encode(
                            m.alias@,
                            m.spec_custom(),
                        ),
                        None => false,
                    },
                },
                None => false,
            }),
            Err(e) => {
                ||| spec_parse_error(storage_path@, e)
                ||| (parseable(storage_path@) && !store.initialized() && e
                    == StorageError::ConfigNotSet)
                ||| (parseable(storage_path@) && store.initialized() && e == StorageError::Serde
                    && (match spec_path_parts(storage_path@) {
                    Some((b, i)) => match store.disk.spec_content(b, spec_sidecar_name(i)) {
                        Some(t) => !metadata_text_ok(t),
                        None => false,
                    },
                    None => false,
                }))
            },
        },
{
    proof {
        crate::path::lemma_parseable_split(storage_path@);
    }
    let fetched = read_metadata(store, storage_path);
    let (oc, _path) = match fetched {
        Ok(pair) => pair,
        Err(e) => {
            return Err(e);
        },
    };
    match oc {
        None => Ok(None),
        Some(text) => {
            let parsed = Metadata::parse(text.as_str());
            match parsed {
                Ok(m) => Ok(Some(m)),
                Err(e) => Err(e),
            }
        },
    }
}

/// Whether the storage path names an existing item. Only the content file
/// counts; a sidecar alone does not.
pub fn exists_at(store: &Store, storage_path: &str) -> (r: Result<bool, StorageError>)
    requires
        store.wf(),
    ensures
        match r {
            Ok(v) => store.initialized() && (match spec_path_parts(storage_path@) {
                Some((b, i)) => v == (store.disk.spec_content(b, i) is Some),
                None => false,
            }),
            Err(e) => {
                ||| spec_parse_error(storage_path@, e)
                ||| (parseable(storage_path@) && !store.initialized() && e
                    == StorageError::ConfigNotSet)
            },
        },
{
    proof {
        crate::path::lemma_parseable_split(storage_path@);
    }
    let parsed = bucket_and_item(storage_path);
    let (bucket, item) = match parsed {
        Ok(parts) => parts,
        Err(e) => {
            return Err(e);
        },
    };
    match &store.config {
        Some(_) => {},
        None => {
            return Err(StorageError::ConfigNotSet);
        },
    }
    Ok(Item::exists_in(&store.disk, bucket, item))
}

/// Delete the item a storage path names, and its sidecar when one exists.
/// Both deletions are attempted; the content file's failure, if any, is the
/// one reported, and the sidecar is removed either way.
pub fn remove(store: &mut Store, storage_path: &str) -> (r: Result<(), StorageError>)
    requires
        old(store).wf(),
    ensures
        final(store).wf(),
        final(store).config == old(store).config,
        final(store).disk.spec_dotfile() == old(store).disk.spec_dotfile(),
        forall|b: Seq<char>|
            final(store).disk.spec_has_bucket(b) <==> old(store).disk.spec_has_bucket(b),
        match spec_path_parts(storage_path@) {
            None => *final(store) == *old(store) && (match r {
                Ok(_) => false,
                Err(e) => spec_parse_error(storage_path@, e),
            }),
            Some((b, i)) => {
                if !old(store).initialized() {
                    *final(store) == *old(store) && r == Err::<(), StorageError>(
                        StorageError::ConfigNotSet,
                    )
                } else {
                    &&& final(store).disk.spec_content(b, i) is None
                    &&& final(store).disk.spec_content(b, spec_sidecar_name(i)) is None
                    &&& forall|bb: Seq<char>, n: Seq<char>|
                        !(bb == b && (n == i || n == spec_sidecar_name(i))) ==> final(store).disk.spec_content(bb, n) == old(store).disk.spec_content(bb, n)
                    &&& forall|bb: Seq<char>|
                        bb != b ==> final(store).disk.spec_count(bb) == old(store).disk.spec_count(
                            bb,
                        )
                    &&& (r is Ok <==> old(store).disk.spec_content(b, i) is Some)
                    &&& (r is Err ==> r == Err::<(), StorageError>(StorageError::Io))
                }
            },
        },
{
    let parsed = bucket_and_item(storage_path);
    let (bucket, item) = match parsed {
        Ok(parts) => parts,
        Err(e) => {
            return Err(e);
        },
    };
    match &store.config {
        Some(_) => {},
        None => {
            return Err(StorageError::ConfigNotSet);
        },
    }
    let item_removal = Item::remove(&mut store.disk, bucket, item);
    if Metadata::exists_in(&store.disk, bucket, item) {
        let metadata_removal = Metadata::remove(&mut store.disk, bucket, item);
        match metadata_removal {
            Ok(_) => {},
            Err(_) => {},
        }
    }
    item_removal
}

/// Write an item into the active bucket — rotating first when it is full —
/// then write its metadata sidecar unless the record is absent, and hand
/// back the storage path. Content and sidecar are two separate writes, not
/// one atomic step; the sidecar is advisory throughout.
pub fn write(store: &mut Store, name: &str, content: &str, metadata: Option<&Metadata>) -> (r:
    Result<String, StorageError>)
    requires
        old(store).wf(),
        name_valid(name@),
    ensures
        final(store).wf(),
        match r {
            Ok(p) => {
                let b = final(store).spec_active();
                &&& old(store).initialized()
                &&& final(store).initialized()
                &&& final(store).spec_threshold() == old(store).spec_threshold()
                &&& final(store).spec_root() == old(store).spec_root()
                &&& name_valid(b)
                &&& p@ == spec_storage_path(b, name@)
                &&& spec_path_parts(p@) == Some((b, name@))
                &&& final(store).disk.spec_content(b, name@) == Some(content@)
                &&& (match metadata {
                    Some(m) => m.encodable() && final(store).disk.spec_content(
                        b,
                        spec_sidecar_name(name@),
                    ) == Some(spec_metadata_encode(m.alias@, m.spec_custom())),
                    None => true,
                })
                &&& (old(store).disk.spec_count(old(store).spec_active()) < old(store).spec_threshold() ==> b == old(store).spec_active() && (forall|n: Seq<char>|
                    n != name@ && (metadata is Some ==> n != spec_sidecar_name(name@)) ==> final(store).disk.spec_content(b, n) == old(store).disk.spec_content(b, n)))
                &&& (old(store).disk.spec_count(old(store).spec_active()) >= old(store).spec_threshold() ==> !old(store).disk.spec_has_bucket(b) && b != old(store).spec_active() && final(store).disk.spec_dotfile() == Some(spec_dotfile_encode(b))
                    && (forall|n: Seq<char>|
                    n != name@ && (metadata is Some ==> n != spec_sidecar_name(name@)) ==> final(store).disk.spec_content(b, n) is None))
                &&& forall|bb: Seq<char>, n: Seq<char>|
                    bb != b ==> final(store).disk.spec_content(bb, n) == old(store).disk.spec_content(bb, n)
                &&& forall|bb: Seq<char>|
                    final(store).disk.spec_has_bucket(bb) <==> (old(store).disk.spec_has_bucket(bb)
                        || bb == b)
            },
            Err(e) => *final(store) == *old(store) && (
            if metadata matches Some(m) && !m.encodable() {
                e == StorageError::Serde
            } else if old(store).initialized() {
                e == StorageError::NamespaceExhausted && old(store).disk.spec_count(
                    old(store).spec_active(),
                ) >= old(store).spec_threshold()
            } else {
                e == StorageError::ConfigNotSet
            }),
        },
{
    match metadata {
        Some(m) => {
            if !m.check_encodable() {
                return Err(StorageError::Serde);
            }
        },
        None => {},
    }
    let obtained = store.with_bucket();
    let active = match obtained {
        Ok(b) => b,
        Err(e) => {
            return Err(e);
        },
    };
    let written = write_exact(store, active.as_str(), name, content);
    let path = match written {
        Ok(p) => p,
        Err(_) => {
            proof {
                assert(false);
            }
            return Err(StorageError::Io);
        },
    };
    proof {
        lemma_path_split_unique(path@, active@, name@);
        crate::path::lemma_parseable_split(path@);
        if path@[0] == '/' {
            assert(active@[0] == '/');
            assert(active@.contains('/'));
        }
    }
    let metadata_written = set_metadata(store, path.as_str(), metadata);
    match metadata_written {
        Ok(_) => {},
        Err(_) => {
            proof {
                assert(false);
            }
        },
    }
    Ok(path)
}

/// Persist an already-staged upload into the active bucket — rotating
/// first when it is full — then write its metadata sidecar unless the
/// record is absent, and hand back the storage path. The staged file's
/// bytes move into place instead of being copied.
pub fn persist_tempfile(store: &mut Store, name: &str, staged: &str, metadata: Option<&Metadata>)
    -> (r: Result<String, StorageError>)
    requires
        old(store).wf(),
        name_valid(name@),
    ensures
        final(store).wf(),
        match r {
            Ok(p) => {
                let b = final(store).spec_active();
                &&& old(store).initialized()
                &&& final(store).initialized()
                &&& final(store).spec_threshold() == old(store).spec_threshold()
                &&& final(store).spec_root() == old(store).spec_root()
                &&& name_valid(b)
                &&& p@ == spec_storage_path(b, name@)
                &&& spec_path_parts(p@) == Some((b, name@))
                &&& final(store).disk.spec_content(b, name@) == Some(staged@)
                &&& (match metadata {
                    Some(m) => m.encodable() && final(store).disk.spec_content(
                        b,
                        spec_sidecar_name(name@),
                    ) == Some(spec_metadata_encode(m.alias@, m.spec_custom())),
                    None => true,
                })
                &&& (old(store).disk.spec_count(old(store).spec_active()) < old(store).spec_threshold() ==> b == old(store).spec_active() && (forall|n: Seq<char>|
                    n != name@ && (metadata is Some ==> n != spec_sidecar_name(name@)) ==> final(store).disk.spec_content(b, n) == old(store).disk.spec_content(b, n)))
                &&& (old(store).disk.spec_count(old(store).spec_active()) >= old(store).spec_threshold() ==> !old(store).disk.spec_has_bucket(b) && final(store).disk.spec_dotfile() == Some(spec_dotfile_encode(b)) && (forall|n: Seq<char>|
                    n != name@ && (metadata is Some ==> n != spec_sidecar_name(name@)) ==> final(store).disk.spec_content(b, n) is None))
                &&& forall|bb: Seq<char>, n: Seq<char>|
                    bb != b ==> final(store).disk.spec_content(bb, n) == old(store).disk.spec_content(bb, n)
                &&& forall|bb: Seq<char>|
                    final(store).disk.spec_has_bucket(bb) <==> (old(store).disk.spec_has_bucket(bb)
                        || bb == b)
            },
            Err(e) => *final(store) == *old(store) && (
            if metadata matches Some(m) && !m.encodable() {
                e == StorageError::Serde
            } else if old(store).initialized() {
                e == StorageError::NamespaceExhausted && old(store).disk.spec_count(
                    old(store).spec_active(),
                ) >= old(store).spec_threshold()
            } else {
                e == StorageError::ConfigNotSet
            }),
        },
{
    match metadata {
        Some(m) => {
            if !m.check_encodable() {
                return Err(StorageError::Serde);
            }
        },
        None => {},
    }
    let obtained = store.with_bucket();
    let active = match obtained {
        Ok(b) => b,
        Err(e) => {
            return Err(e);
        },
    };
    let persisted = Item::persist_tempfile(&mut store.disk, active.as_str(), name, staged);
    match persisted {
        Ok(_) => {},
        Err(_) => {
            proof {
                assert(false);
            }
        },
    }
    let path = storage_path(active.as_str(), name);
    proof {
        lemma_path_split_unique(path@, active@, name@);
        crate::path::lemma_parseable_split(path@);
        if path@[0] == '/' {
            assert(active@[0] == '/');
            assert(active@.contains('/'));
        }
    }
    let metadata_written = set_metadata(store, path.as_str(), metadata);
    match metadata_written {
        Ok(_) => {},
        Err(_) => {
            proof {
                assert(false);
            }
        },
    }
    Ok(path)
}

/// Persist an already-staged upload over an explicit existing storage path,
/// overwriting content in place without changing its logical location, then
/// write its metadata sidecar unless the record is absent.
pub fn replace_tempfile(store: &mut Store, storage_path: &str, staged: &str, metadata: Option<
    &Metadata,
>) -> (r: Result<String, StorageError>)
    requires
        old(store).wf(),
    ensures
        final(store).wf(),
        final(store).config == old(store).config,
        final(store).disk.spec_dotfile() == old(store).disk.spec_dotfile(),
        forall|b: Seq<char>|
            final(store).disk.spec_has_bucket(b) <==> old(store).disk.spec_has_bucket(b),
        match spec_path_parts(storage_path@) {
            None => *final(store) == *old(store) && (match r {
                Ok(_) => false,
                Err(e) => spec_parse_error(storage_path@, e),
            }),
            Some((b, i)) => {
                if !old(store).initialized() {
                    *final(store) == *old(store) && r == Err::<String, StorageError>(
                        StorageError::ConfigNotSet,
                    )
                } else {
                    match r {
                        Ok(p) => {
                            &&& p@ == spec_storage_path(b, i)
                            &&& !i.contains('/')
                            &&& old(store).disk.spec_has_bucket(b)
                            &&& final(store).disk.spec_content(b, i) == Some(staged@)
                            &&& (match metadata {
                                Some(m) => m.encodable() && final(store).disk.spec_content(
                                    b,
                                    spec_sidecar_name(i),
                                ) == Some(spec_metadata_encode(m.alias@, m.spec_custom())),
                                None => final(store).disk.spec_content(b, spec_sidecar_name(i))
                                    == old(store).disk.spec_content(b, spec_sidecar_name(i)),
                            })
                            &&& forall|bb: Seq<char>, n: Seq<char>|
                                !(bb == b && (n == i || n == spec_sidecar_name(i))) ==> final(store).disk.spec_content(bb, n) == old(store).disk.spec_content(bb, n)
                            &&& forall|bb: Seq<char>|
                                bb != b ==> final(store).disk.spec_count(bb) == old(store).disk.spec_count(bb)
                        },
                        Err(e) => *final(store) == *old(store) && (
                        if i.contains('/') {
                            e == StorageError::Io
                        } else if metadata matches Some(m) && !m.encodable() {
                            e == StorageError::Serde
                        } else {
                            e == StorageError::Io && !old(store).disk.spec_has_bucket(b)
                        }),
                    }
                }
            },
        },
{
    let parsed = bucket_and_item(storage_path);
    let (bucket, item) = match parsed {
        Ok(parts) => parts,
        Err(e) => {
            return Err(e);
        },
    };
    match &store.config {
        Some(_) => {},
        None => {
            return Err(StorageError::ConfigNotSet);
        },
    }
    if contains_slash(item) {
        proof {
            let k = choose|k: int| crate::path::slash_at(item@, k);
            assert(item@.contains('/'));
        }
        return Err(StorageError::Io);
    }
    proof {
        assert(!item@.contains('/')) by {
            if item@.contains('/') {
                let k = choose|k: int| 0 <= k < item@.len() && item@[k] == '/';
                assert(crate::path::slash_at(item@, k));
                assert(crate::path::has_slash(item@));
            }
        }
    }
    match metadata {
        Some(m) => {
            if !m.check_encodable() {
                return Err(StorageError::Serde);
            }
        },
        None => {},
    }
    let persisted = Item::persist_tempfile(&mut store.disk, bucket, item, staged);
    match persisted {
        Ok(_) => {},
        Err(e) => {
            return Err(e);
        },
    }
    let path = Item::to_string(bucket, item);
    proof {
        lemma_path_split_unique(path@, bucket@, item@);
        crate::path::lemma_parseable_split(path@);
        if path@[0] == '/' {
            assert(bucket@[0] == '/');
            assert(bucket@.contains('/'));
        }
    }
    let metadata_written = set_metadata(store, path.as_str(), metadata);
    match metadata_written {
        Ok(_) => {},
        Err(_) => {
            proof {
                assert(false);
            }
        },
    }
    Ok(path)
}

/// Every storage path `write` hands back resolves to the content supplied:
/// the path parses back to the written bucket and item, and the store holds
/// exactly that content there, which is what `read` returns. `write`'s
/// frame leaves every other name alone, so a sequence of writes to distinct
/// names reads back elementwise.
pub proof fn lemma_write_read_back(store: Store, b: Seq<char>, name: Seq<char>, content: Seq<char>)
    requires
        name_valid(b),
        name_valid(name),
        store.disk.spec_content(b, name) == Some(content),
    ensures
        match spec_path_parts(spec_storage_path(b, name)) {
            Some((b2, i2)) => b2 == b && i2 == name && store.disk.spec_content(b2, i2) == Some(
                content,
            ),
            None => false,
        },
{
    assert(path_split(spec_storage_path(b, name), b, name));
    lemma_path_split_unique(spec_storage_path(b, name), b, name);
}

/// Across any sequence of writes to distinct names within one bucket, every
/// name still reads back the content its own write supplied once the whole
/// sequence is done: each step stores its content, and leaves every other
/// name in the bucket alone — which is what `write` ensures of each call
/// that writes no sidecar; a call that writes one touches only the written
/// name and its sidecar name, so the same argument carries over.
///
/// `stores[i]` is the store before the `i`-th write; `names[i]` and
/// `contents[i]` are what that write stored.
pub proof fn lemma_write_sequence_reads_back(
    stores: Seq<Store>,
    names: Seq<Seq<char>>,
    contents: Seq<Seq<char>>,
    b: Seq<char>,
    k: int,
)
    requires
        stores.len() == names.len() + 1,
        contents.len() == names.len(),
        0 <= k < names.len(),
        forall|i: int, j: int|
            0 <= i < j < names.len() ==> #[trigger] names[i] != #[trigger] names[j],
        forall|i: int|
            0 <= i < names.len() ==> #[trigger] stores[i + 1].disk.spec_content(b, names[i])
                == Some(contents[i]),
        forall|i: int, n: Seq<char>|
            0 <= i < names.len() && n != names[i] ==> #[trigger] stores[i + 1].disk.spec_content(
                b,
                n,
            ) == stores[i].disk.spec_content(b, n),
    ensures
        stores[stores.len() - 1].disk.spec_content(b, names[k]) == Some(contents[k]),
{
    lemma_written_name_stable(stores, names, contents, b, k, names.len() as int);
}

/// The content written at step `k` still sits in the store after step `m`:
/// the later steps wrote other names.
proof fn lemma_written_name_stable(
    stores: Seq<Store>,
    names: Seq<Seq<char>>,
    contents: Seq<Seq<char>>,
    b: Seq<char>,
    k: int,
    m: int,
)
    requires
        stores.len() == names.len() + 1,
        contents.len() == names.len(),
        0 <= k < names.len(),
        k + 1 <= m <= names.len(),
        forall|i: int, j: int|
            0 <= i < j < names.len() ==> #[trigger] names[i] != #[trigger] names[j],
        forall|i: int|
            0 <= i < names.len() ==> #[trigger] stores[i + 1].disk.spec_content(b, names[i])
                == Some(contents[i]),
        forall|i: int, n: Seq<char>|
            0 <= i < names.len() && n != names[i] ==> #[trigger] stores[i + 1].disk.spec_content(
                b,
                n,
            ) == stores[i].disk.spec_content(b, n),
    ensures
        stores[m].disk.spec_content(b, names[k]) == Some(contents[k]),
    decreases m,
{
    if m > k + 1 {
        lemma_written_name_stable(stores, names, contents, b, k, m - 1);
        assert(names[m - 1] != names[k]);
        assert(stores[(m - 1) + 1].disk.spec_content(b, names[k]) == stores[m
            - 1].disk.spec_content(b, names[k]));
    }
}

/// After `remove` on a storage path, the store holds no content at it, and
/// the same path still parses to the same spot: `exists_at` then reports
/// false, and `read` fails, on that path.
pub proof fn lemma_remove_then_gone(store: Store, b: Seq<char>, i: Seq<char>)
    requires
        !b.contains('/'),
        b.len() > 0,
        i.len() > 0,
        store.disk.spec_content(b, i) is None,
    ensures
        match spec_path_parts(spec_storage_path(b, i)) {
            Some((b2, i2)) => store.disk.spec_content(b2, i2) is None,
            None => false,
        },
{
    assert(path_split(spec_storage_path(b, i), b, i));
    lemma_path_split_unique(spec_storage_path(b, i), b, i);
}

} // verus!
