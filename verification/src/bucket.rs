use vstd::prelude::*;

use crate::disk::Disk;
use crate::error::StorageError;
use crate::path::join;
use crate::path::name_valid;

verus! {

/// A character of nanoid's URL-safe alphabet: `A-Za-z0-9_-`.
pub open spec fn is_safe_char(c: char) -> bool {
    ||| c == '_'
    ||| c == '-'
    ||| ('0' as u32) <= (c as u32) && (c as u32) <= ('9' as u32)
    ||| ('a' as u32) <= (c as u32) && (c as u32) <= ('z' as u32)
    ||| ('A' as u32) <= (c as u32) && (c as u32) <= ('Z' as u32)
}

/// A generated identifier: non-empty, over the URL-safe alphabet.
pub open spec fn generated_name(s: Seq<char>) -> bool {
    s.len() > 0 && (forall|i: int| 0 <= i < s.len() ==> is_safe_char(#[trigger] s[i]))
}

/// A generated identifier is a usable name: it holds no separator and no
/// newline, so it survives both path splitting and the dot-file format.
pub proof fn lemma_generated_name_valid(s: Seq<char>)
    requires
        generated_name(s),
    ensures
        name_valid(s),
        !s.contains('\n'),
{
    assert(forall|i: int| 0 <= i < s.len() ==> s[i] != '/' && s[i] != '\n');
    if s.contains('/') {
        let k = choose|k: int| 0 <= k < s.len() && s[k] == '/';
        assert(false);
    }
    if s.contains('\n') {
        let k = choose|k: int| 0 <= k < s.len() && s[k] == '\n';
        assert(false);
    }
}

/// The sharding unit: a subdirectory of the root, bounding how many items
/// pile up in one directory.
#[derive(Clone)]
pub struct Bucket;

impl Bucket {
    /// Generate a new random bucket name.
    ///
    /// Relies on nanoid::format with nanoid's default RNG and its URL-safe
    /// alphabet — the exact expansion of nanoid::nanoid!() — which returns an
    /// identifier of 21 characters drawn from `A-Za-z0-9_-`.
    #[verifier::external_body]
    pub(crate) fn new_random_name() -> (r: String)
        ensures
            r@.len() == 21,
            generated_name(r@),
    {
        nanoid::format(nanoid::rngs::default, &nanoid::alphabet::SAFE, 21)
    }

    /// The directory of bucket `name`: `{root}/{name}`.
    pub fn path(root: &str, name: &str) -> (r: String)
        ensures
            r@ == root@ + seq!['/'] + name@,
    {
        join(root, name)
    }

    /// Whether the bucket directory exists under the root.
    pub fn exists_in(disk: &Disk, name: &str) -> (r: bool)
        ensures
            r == disk.spec_has_bucket(name@),
    {
        disk.bucket_exists(name)
    }

    /// The number of directory entries in the bucket; fails when the bucket
    /// directory cannot be listed because it is not there.
    pub fn size(disk: &Disk, name: &str) -> (r: Result<usize, StorageError>)
        requires
            disk.wf(),
        ensures
            match r {
                Ok(c) => disk.spec_has_bucket(name@) && c == disk.spec_count(name@),
                Err(e) => !disk.spec_has_bucket(name@) && e == StorageError::Io,
            },
    {
        match disk.count_files(name) {
            Some(c) => Ok(c),
            None => Err(StorageError::Io),
        }
    }

    /// Generate a random name that collides with no existing bucket, giving
    /// up after a bounded number of attempts rather than looping forever.
    pub fn new_unique_name(disk: &Disk) -> (r: Result<String, StorageError>)
        ensures
            match r {
                Ok(n) => generated_name(n@) && name_valid(n@) && !n@.contains('\n')
                    && !disk.spec_has_bucket(n@),
                Err(e) => e == StorageError::NamespaceExhausted,
            },
    {
        let mut attempts: usize = 0;
        while attempts < 100
            invariant
                attempts <= 100,
            decreases 100 - attempts,
        {
            let candidate = Self::new_random_name();
            if !Self::exists_in(disk, candidate.as_str()) {
                proof {
                    lemma_generated_name_valid(candidate@);
                }
                return Ok(candidate);
            }
            attempts = attempts + 1;
        }
        Err(StorageError::NamespaceExhausted)
    }
}

} // verus!
