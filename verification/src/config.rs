use vstd::prelude::*;

use crate::bucket::Bucket;
use crate::bucket::generated_name;
use crate::bucket::lemma_generated_name_valid;
use crate::constants;
use crate::disk::Disk;
use crate::dotfile::DotFile;
use crate::dotfile::dotfile_text_ok;
use crate::dotfile::spec_dotfile_encode;
use crate::dotfile::spec_dotfile_name;
use crate::error::StorageError;
use crate::path::name_valid;

verus! {

/// The process-wide binding of a root directory, the currently active
/// bucket, and the bucket-size threshold.
pub struct Config {
    pub root: String,
    pub active_bucket_name: String,
    /// The maximum size of a bucket.
    pub bucket_size: usize,
}

/// One storage namespace: the picture of the root directory's contents,
/// plus the configuration once `initialize` has installed it. Concurrent
/// callers share one store; the surrounding application guards it with a
/// reader/writer lock and must re-check the rotation condition under
/// exclusive access, which `with_bucket` does.
pub struct Store {
    pub config: Option<Config>,
    pub disk: Disk,
}

impl Store {
    /// `initialize` has run.
    pub open spec fn initialized(self) -> bool {
        self.config is Some
    }

    /// The name of the currently active bucket.
    pub open spec fn spec_active(self) -> Seq<char> {
        self.config.unwrap().active_bucket_name@
    }

    /// The configured bucket-size threshold.
    pub open spec fn spec_threshold(self) -> int {
        self.config.unwrap().bucket_size as int
    }

    /// The configured root directory.
    pub open spec fn spec_root(self) -> Seq<char> {
        self.config.unwrap().root@
    }

    /// The store's invariant: the pictured directory tree is well-formed,
    /// and once initialized, the active bucket exists, its name is usable,
    /// and the dot-file on disk records exactly it.
    pub open spec fn wf(self) -> bool {
        &&& self.disk.wf()
        &&& self.initialized() ==> {
            &&& name_valid(self.spec_active())
            &&& !self.spec_active().contains('\n')
            &&& self.disk.spec_has_bucket(self.spec_active())
            &&& self.disk.spec_dotfile() == Some(spec_dotfile_encode(self.spec_active()))
        }
    }

    /// A store over the given directory contents, not yet initialized.
    pub fn new(disk: Disk) -> (r: Store)
        requires
            disk.wf(),
        ensures
            r.wf(),
            !r.initialized(),
            r.disk == disk,
    {
        Store { config: None, disk }
    }
}

/// A dot-file text that both decodes and names a usable bucket.
pub open spec fn dotfile_name_usable(t: Seq<char>) -> bool {
    dotfile_text_ok(t) && name_valid(spec_dotfile_name(t))
}

/// Bind the store to a root directory: load or create the dot-file, make
/// sure the active bucket's directory exists, and install the
/// configuration. May run once per store; the bucket-size threshold
/// defaults to `BUCKET_SIZE_MAX` when no custom value is given.
pub fn initialize(store: &mut Store, root: &str, custom_bucket_size: Option<usize>) -> (r: Result<
    (),
    StorageError,
>)
    requires
        old(store).wf(),
    ensures
        final(store).wf(),
        old(store).initialized() ==> r == Err::<(), StorageError>(StorageError::ConfigAlreadySet)
            && *final(store) == *old(store),
        !old(store).initialized() ==> match r {
            Ok(_) => {
                &&& final(store).initialized()
                &&& final(store).spec_root() == root@
                &&& final(store).spec_threshold() == (match custom_bucket_size {
                    Some(n) => n as int,
                    None => constants::BUCKET_SIZE_MAX as int,
                })
                &&& final(store).disk.spec_has_bucket(final(store).spec_active())
                &&& final(store).disk.spec_dotfile() == Some(
                    spec_dotfile_encode(final(store).spec_active()),
                )
                &&& match old(store).disk.spec_dotfile() {
                    Some(t) => dotfile_name_usable(t) && final(store).spec_active()
                        == spec_dotfile_name(t),
                    None => generated_name(final(store).spec_active()),
                }
                &&& forall|b: Seq<char>|
                    final(store).disk.spec_has_bucket(b) <==> (old(store).disk.spec_has_bucket(b)
                        || b == final(store).spec_active())
                &&& forall|b: Seq<char>, n: Seq<char>|
                    b != final(store).spec_active() ==> final(store).disk.spec_content(b, n) == old(
                        store,
                    ).disk.spec_content(b, n)
                &&& forall|b: Seq<char>|
                    b != final(store).spec_active() ==> final(store).disk.spec_count(b) == old(
                        store,
                    ).disk.spec_count(b)
                &&& old(store).disk.spec_has_bucket(final(store).spec_active()) ==> (forall|
                    n: Seq<char>,
                |
                    final(store).disk.spec_content(final(store).spec_active(), n) == old(
                        store,
                    ).disk.spec_content(final(store).spec_active(), n))
            },
            Err(e) => {
                &&& e == StorageError::Serde
                &&& *final(store) == *old(store)
                &&& match old(store).disk.spec_dotfile() {
                    Some(t) => !dotfile_name_usable(t),
                    None => false,
                }
            },
        },
{
    match &store.config {
        Some(_) => {
            return Err(StorageError::ConfigAlreadySet);
        },
        None => {},
    }
    let loaded = DotFile::from_file(&mut store.disk);
    let dotfile = match loaded {
        Ok(d) => d,
        Err(e) => {
            return Err(e);
        },
    };
    let name = dotfile.active_bucket_name;
    if name.unicode_len() == 0 {
        return Err(StorageError::Serde);
    }
    if crate::path::contains_slash(name.as_str()) {
        proof {
            let k = choose|k: int| crate::path::slash_at(name@, k);
            assert(name@.contains('/'));
        }
        return Err(StorageError::Serde);
    }
    proof {
        assert(name_valid(name@)) by {
            if name@.contains('/') {
                let k = choose|k: int| 0 <= k < name@.len() && name@[k] == '/';
                assert(crate::path::slash_at(name@, k));
                assert(crate::path::has_slash(name@));
            }
        }
        match old(store).disk.spec_dotfile() {
            Some(t) => {
                assert(!name@.contains('\n')) by {
                    if name@.contains('\n') {
                        let k = choose|k: int| 0 <= k < name@.len() && name@[k] == '\n';
                        assert(spec_dotfile_name(t)[k] == '\n');
                        assert(t[crate::dotfile::spec_dotfile_prefix().len() + k] == '\n');
                    }
                }
                crate::dotfile::lemma_dotfile_text_canonical(t);
            },
            None => {
                lemma_generated_name_valid(name@);
            },
        }
    }
    store.disk.create_bucket(name.as_str());
    store.config = Some(
        Config {
            root: root.to_owned(),
            active_bucket_name: name,
            bucket_size: match custom_bucket_size {
                Some(n) => n,
                None => constants::BUCKET_SIZE_MAX,
            },
        },
    );
    Ok(())
}

/// The installed configuration; fails before `initialize` has run.
pub fn config(store: &Store) -> (r: Result<&Config, StorageError>)
    ensures
        match r {
            Ok(c) => store.initialized() && *c == store.config.unwrap(),
            Err(e) => !store.initialized() && e == StorageError::ConfigNotSet,
        },
{
    match &store.config {
        Some(c) => Ok(c),
        None => Err(StorageError::ConfigNotSet),
    }
}

/// The outcome of obtaining the active bucket when the threshold was
/// crossed: exactly one fresh, previously-nonexistent, empty bucket exists,
/// the dot-file records it, and nothing else moved.
pub open spec fn spec_rotated(pre: Store, post: Store, b: Seq<char>) -> bool {
    &&& !pre.disk.spec_has_bucket(b)
    &&& b != pre.spec_active()
    &&& post.initialized()
    &&& post.spec_active() == b
    &&& post.spec_threshold() == pre.spec_threshold()
    &&& post.spec_root() == pre.spec_root()
    &&& post.disk.spec_count(b) == 0
    &&& post.disk.buckets.len() == pre.disk.buckets.len() + 1
    &&& post.disk.spec_dotfile() == Some(spec_dotfile_encode(b))
    &&& forall|bb: Seq<char>|
        post.disk.spec_has_bucket(bb) <==> (pre.disk.spec_has_bucket(bb) || bb == b)
    &&& forall|n: Seq<char>| post.disk.spec_content(b, n) is None
    &&& forall|bb: Seq<char>, n: Seq<char>|
        bb != b ==> post.disk.spec_content(bb, n) == pre.disk.spec_content(bb, n)
    &&& forall|bb: Seq<char>| bb != b ==> post.disk.spec_count(bb) == pre.disk.spec_count(bb)
}

/// The outcome of obtaining the active bucket: unchanged below the
/// threshold, rotated at or above it.
pub open spec fn spec_bucket_obtained(pre: Store, post: Store, b: Seq<char>) -> bool {
    if pre.disk.spec_count(pre.spec_active()) < pre.spec_threshold() {
        post == pre && b == pre.spec_active()
    } else {
        spec_rotated(pre, post, b)
    }
}

impl Store {
    /// The active bucket to write into, rotating first when the current one
    /// has reached the threshold. The threshold is checked before a write is
    /// accepted, never after; a rotation creates exactly one fresh bucket,
    /// records it in the dot-file, and leaves it empty — so a caller that
    /// re-checks the condition right after a rotation finds it gone.
    pub fn with_bucket(&mut self) -> (r: Result<String, StorageError>)
        requires
            old(self).wf(),
        ensures
            final(self).wf(),
            match r {
                Ok(b) => old(self).initialized() && spec_bucket_obtained(
                    *old(self),
                    *final(self),
                    b@,
                ) && name_valid(b@) && b@ == final(self).spec_active()
                    && final(self).disk.spec_has_bucket(b@),
                Err(e) => *final(self) == *old(self) && (if old(self).initialized() {
                    e == StorageError::NamespaceExhausted && old(self).disk.spec_count(
                        old(self).spec_active(),
                    ) >= old(self).spec_threshold()
                } else {
                    e == StorageError::ConfigNotSet
                }),
            },
    {
        let (root, active, bucket_size) = match &self.config {
            Some(c) => (c.root.clone(), c.active_bucket_name.clone(), c.bucket_size),
            None => {
                return Err(StorageError::ConfigNotSet);
            },
        };
        let count = match self.disk.count_files(active.as_str()) {
            Some(c) => c,
            None => {
                proof {
                    assert(false);
                }
                return Err(StorageError::Io);
            },
        };
        if count >= bucket_size {
            let new_name = match Bucket::new_unique_name(&self.disk) {
                Ok(n) => n,
                Err(e) => {
                    return Err(e);
                },
            };
            self.disk.create_bucket(new_name.as_str());
            let record = DotFile { active_bucket_name: new_name };
            let persisted = record.to_file(&mut self.disk);
            match persisted {
                Ok(_) => {},
                Err(_) => {},
            }
            self.config = Some(
                Config { root, active_bucket_name: record.active_bucket_name, bucket_size },
            );
            let result = match &self.config {
                Some(c) => c.active_bucket_name.clone(),
                None => String::new(),
            };
            Ok(result)
        } else {
            Ok(active)
        }
    }
}

/// One threshold crossing creates at most one bucket: right after a
/// rotation the fresh active bucket is empty, so with any positive
/// threshold the rotation condition no longer holds, and a second writer
/// re-checking it leaves the store as it is.
pub proof fn lemma_no_double_rotation(pre: Store, post: Store, b: Seq<char>)
    requires
        pre.initialized(),
        pre.disk.spec_count(pre.spec_active()) >= pre.spec_threshold(),
        spec_rotated(pre, post, b),
        pre.spec_threshold() >= 1,
    ensures
        post.disk.spec_count(post.spec_active()) < post.spec_threshold(),
{
}

} // verus!
