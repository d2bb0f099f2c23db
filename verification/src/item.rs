use vstd::prelude::*;

use crate::disk::Disk;
use crate::error::StorageError;
use crate::path::join;
use crate::path::spec_storage_path;

verus! {

/// One stored object's content file inside a bucket.
pub struct Item;

impl Item {
    /// The content file of an item: `{root}/{bucket}/{name}`.
    pub fn path(root: &str, bucket: &str, name: &str) -> (r: String)
        ensures
            r@ == root@ + seq!['/'] + bucket@ + seq!['/'] + name@,
    {
        let bucket_dir = crate::bucket::Bucket::path(root, bucket);
        let r = join(bucket_dir.as_str(), name);
        proof {
            assert(r@ =~= root@ + seq!['/'] + bucket@ + seq!['/'] + name@);
        }
        r
    }

    /// The item's content together with its full path; fails when the file
    /// is not there.
    pub fn file(disk: &Disk, root: &str, bucket: &str, name: &str) -> (r: Result<
        (String, String),
        StorageError,
    >)
        requires
            disk.wf(),
        ensures
            match r {
                Ok((content, p)) => disk.spec_content(bucket@, name@) == Some(content@) && p@
                    == root@ + seq!['/'] + bucket@ + seq!['/'] + name@,
                Err(e) => disk.spec_content(bucket@, name@) is None && e == StorageError::Io,
            },
    {
        let p = Self::path(root, bucket, name);
        match disk.read_file(bucket, name) {
            Some(content) => Ok((content, p)),
            None => Err(StorageError::Io),
        }
    }

    /// Write the item's content verbatim; the bucket directory must exist.
    pub fn write(disk: &mut Disk, bucket: &str, name: &str, content: &str) -> (r: Result<
        (),
        StorageError,
    >)
        requires
            old(disk).wf(),
            name@.len() > 0,
        ensures
            final(disk).wf(),
            final(disk).dotfile == old(disk).dotfile,
            forall|b: Seq<char>| final(disk).spec_has_bucket(b) <==> old(disk).spec_has_bucket(b),
            r is Ok <==> old(disk).spec_has_bucket(bucket@),
            r is Err ==> *final(disk) == *old(disk) && r == Err::<(), StorageError>(
                StorageError::Io,
            ),
            r is Ok ==> final(disk).spec_content(bucket@, name@) == Some(content@),
            forall|b: Seq<char>, n: Seq<char>|
                !(b == bucket@ && n == name@) ==> final(disk).spec_content(b, n) == old(
                    disk,
                ).spec_content(b, n),
            forall|b: Seq<char>| b != bucket@ ==> final(disk).spec_count(b) == old(disk).spec_count(b),
            r is Ok ==> final(disk).spec_count(bucket@) == if old(disk).spec_content(
                bucket@,
                name@,
            ) is Some {
                old(disk).spec_count(bucket@)
            } else {
                old(disk).spec_count(bucket@) + 1
            },
    {
        disk.write_file(bucket, name, content)
    }

    /// Whether the item's content file exists.
    pub fn exists_in(disk: &Disk, bucket: &str, name: &str) -> (r: bool)
        requires
            disk.wf(),
        ensures
            r == (disk.spec_content(bucket@, name@) is Some),
    {
        disk.file_exists(bucket, name)
    }

    /// Delete the item's content file; fails when it is not there.
    pub fn remove(disk: &mut Disk, bucket: &str, name: &str) -> (r: Result<(), StorageError>)
        requires
            old(disk).wf(),
        ensures
            final(disk).wf(),
            final(disk).dotfile == old(disk).dotfile,
            forall|b: Seq<char>| final(disk).spec_has_bucket(b) <==> old(disk).spec_has_bucket(b),
            r is Ok <==> old(disk).spec_content(bucket@, name@) is Some,
            r is Err ==> r == Err::<(), StorageError>(StorageError::Io),
            final(disk).spec_content(bucket@, name@) is None,
            forall|b: Seq<char>, n: Seq<char>|
                !(b == bucket@ && n == name@) ==> final(disk).spec_content(b, n) == old(
                    disk,
                ).spec_content(b, n),
            forall|b: Seq<char>| b != bucket@ ==> final(disk).spec_count(b) == old(disk).spec_count(b),
            final(disk).spec_count(bucket@) == if old(disk).spec_content(bucket@, name@) is Some {
                old(disk).spec_count(bucket@) - 1
            } else {
                old(disk).spec_count(bucket@)
            },
    {
        if disk.remove_file(bucket, name) {
            Ok(())
        } else {
            Err(StorageError::Io)
        }
    }

    /// Move an already-staged temporary file into place as the item's
    /// content; the bucket directory must exist. In this model the staged
    /// file is its text.
    pub fn persist_tempfile(disk: &mut Disk, bucket: &str, name: &str, staged: &str) -> (r: Result<
        (),
        StorageError,
    >)
        requires
            old(disk).wf(),
            name@.len() > 0,
        ensures
            final(disk).wf(),
            final(disk).dotfile == old(disk).dotfile,
            forall|b: Seq<char>| final(disk).spec_has_bucket(b) <==> old(disk).spec_has_bucket(b),
            r is Ok <==> old(disk).spec_has_bucket(bucket@),
            r is Err ==> *final(disk) == *old(disk) && r == Err::<(), StorageError>(
                StorageError::Io,
            ),
            r is Ok ==> final(disk).spec_content(bucket@, name@) == Some(staged@),
            forall|b: Seq<char>, n: Seq<char>|
                !(b == bucket@ && n == name@) ==> final(disk).spec_content(b, n) == old(
                    disk,
                ).spec_content(b, n),
            forall|b: Seq<char>| b != bucket@ ==> final(disk).spec_count(b) == old(disk).spec_count(b),
            r is Ok ==> final(disk).spec_count(bucket@) == if old(disk).spec_content(
                bucket@,
                name@,
            ) is Some {
                old(disk).spec_count(bucket@)
            } else {
                old(disk).spec_count(bucket@) + 1
            },
    {
        disk.write_file(bucket, name, staged)
    }

    /// The storage path of an item: `{bucket}/{name}`.
    pub fn to_string(bucket: &str, name: &str) -> (r: String)
        ensures
            r@ == spec_storage_path(bucket@, name@),
    {
        join(bucket, name)
    }
}

} // verus!
