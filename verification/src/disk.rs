use vstd::prelude::*;

use crate::path::name_valid;

verus! {

/// One regular file: an item's content, or a metadata sidecar.
pub struct FsFile {
    pub name: String,
    pub content: String,
}

/// One bucket: a subdirectory of the root holding a flat set of files.
pub struct BucketDir {
    pub name: String,
    pub files: Vec<FsFile>,
}

/// The contents of a root directory: the optional dot-file text and the
/// bucket subdirectories. This is the storage layer's picture of everything
/// it owns on disk.
pub struct Disk {
    pub dotfile: Option<String>,
    pub buckets: Vec<BucketDir>,
}

impl BucketDir {
    /// A file of this name sits in the bucket.
    pub open spec fn spec_has_file(self, name: Seq<char>) -> bool {
        exists|j: int| 0 <= j < self.files.len() && self.files[j].name@ == name
    }

    /// The index of the file of this name.
    pub open spec fn spec_file_index(self, name: Seq<char>) -> int {
        choose|j: int| 0 <= j < self.files.len() && self.files[j].name@ == name
    }

    /// The content of the file of this name, if the bucket holds one.
    pub open spec fn spec_content(self, name: Seq<char>) -> Option<Seq<char>> {
        if self.spec_has_file(name) {
            Some(self.files[self.spec_file_index(name)].content@)
        } else {
            None
        }
    }

    /// How many directory entries the bucket holds.
    pub open spec fn spec_count(self) -> int {
        self.files.len() as int
    }

    /// Well-formed: a usable bucket name, and one file per name.
    pub open spec fn wf(self) -> bool {
        &&& name_valid(self.name@)
        &&& forall|j1: int, j2: int|
            0 <= j1 < j2 < self.files.len() ==> self.files[j1].name@ != self.files[j2].name@
        &&& forall|j: int| 0 <= j < self.files.len() ==> (#[trigger] self.files[j].name@).len() > 0
    }

    /// In a well-formed bucket, a file found at an index is the one file of
    /// its name.
    pub proof fn lemma_file_at_index(self, j: int)
        requires
            self.wf(),
            0 <= j < self.files.len(),
        ensures
            self.spec_has_file(self.files[j].name@),
            self.spec_file_index(self.files[j].name@) == j,
            self.spec_content(self.files[j].name@) == Some(self.files[j].content@),
    {
        let n = self.files[j].name@;
        assert(self.spec_has_file(n));
        let k = self.spec_file_index(n);
        assert(0 <= k < self.files.len() && self.files[k].name@ == n);
        if k != j {
            assert(false);
        }
    }

    /// The index of the file of this name, if the bucket holds one.
    pub fn find_file(&self, name: &str) -> (r: Option<usize>)
        ensures
            match r {
                Some(j) => j < self.files.len() && self.files[j as int].name@ == name@,
                None => !self.spec_has_file(name@),
            },
    {
        let len = self.files.len();
        let mut j: usize = 0;
        while j < len
            invariant
                0 <= j <= len,
                len == self.files.len(),
                forall|k: int| 0 <= k < j ==> self.files[k].name@ != name@,
            decreases len - j,
        {
            if crate::path::str_eq(self.files[j].name.as_str(), name) {
                return Some(j);
            }
            j = j + 1;
        }
        None
    }

    /// Create or overwrite the file of this name with the given content.
    pub fn upsert_file(&mut self, name: &str, content: &str)
        requires
            old(self).wf(),
            name@.len() > 0,
        ensures
            final(self).wf(),
            final(self).name@ == old(self).name@,
            final(self).spec_content(name@) == Some(content@),
            forall|n: Seq<char>|
                n != name@ ==> final(self).spec_content(n) == old(self).spec_content(n),
            forall|n: Seq<char>|
                final(self).spec_has_file(n) <==> (old(self).spec_has_file(n) || n == name@),
            final(self).spec_count() == if old(self).spec_has_file(name@) {
                old(self).spec_count()
            } else {
                old(self).spec_count() + 1
            },
    {
        let entry = FsFile { name: name.to_owned(), content: content.to_owned() };
        let found = self.find_file(name);
        match found {
            Some(j) => {
                proof {
                    old(self).lemma_file_at_index(j as int);
                }
                self.files[j] = entry;
                proof {
                    self.lemma_upsert_frame(*old(self), j as int, name@);
                }
            },
            None => {
                self.files.push(entry);
                proof {
                    self.lemma_push_frame(*old(self), name@);
                }
            },
        }
    }

    /// After updating the file at index `j` (same name), every other lookup
    /// is unchanged.
    proof fn lemma_upsert_frame(self, prev: BucketDir, j: int, name: Seq<char>)
        requires
            prev.wf(),
            0 <= j < prev.files.len(),
            prev.files[j].name@ == name,
            self.name@ == prev.name@,
            self.files@ == prev.files@.update(j, self.files[j]),
            self.files[j].name@ == name,
        ensures
            self.wf(),
            self.spec_content(name) == Some(self.files[j].content@),
            forall|n: Seq<char>| n != name ==> self.spec_content(n) == prev.spec_content(n),
            forall|n: Seq<char>| self.spec_has_file(n) <==> (prev.spec_has_file(n) || n == name),
            self.spec_count() == prev.spec_count(),
    {
        assert(self.files.len() == prev.files.len());
        assert(forall|k: int|
            0 <= k < self.files.len() ==> self.files[k].name@ == prev.files[k].name@);
        assert(self.wf());
        self.lemma_file_at_index(j);
        prev.lemma_file_at_index(j);
        assert forall|n: Seq<char>| n != name implies self.spec_content(n) == prev.spec_content(
            n,
        ) by {
            if prev.spec_has_file(n) {
                let k = prev.spec_file_index(n);
                prev.lemma_file_at_index(k);
                assert(k != j);
                self.lemma_file_at_index(k);
            } else {
                assert(!self.spec_has_file(n));
            }
        }
        assert forall|n: Seq<char>| self.spec_has_file(n) <==> (prev.spec_has_file(n) || n
            == name) by {
            if self.spec_has_file(n) {
                let k = self.spec_file_index(n);
                if k != j {
                    assert(prev.files[k].name@ == n);
                }
            }
            if prev.spec_has_file(n) {
                let k = prev.spec_file_index(n);
                assert(self.files[k].name@ == n);
            }
        }
    }

    /// After pushing a file of a fresh name, every other lookup is unchanged.
    proof fn lemma_push_frame(self, prev: BucketDir, name: Seq<char>)
        requires
            prev.wf(),
            !prev.spec_has_file(name),
            name.len() > 0,
            self.name@ == prev.name@,
            self.files@ == prev.files@.push(self.files[prev.files.len() as int]),
            self.files[prev.files.len() as int].name@ == name,
        ensures
            self.wf(),
            self.spec_content(name) == Some(self.files[prev.files.len() as int].content@),
            forall|n: Seq<char>| n != name ==> self.spec_content(n) == prev.spec_content(n),
            forall|n: Seq<char>| self.spec_has_file(n) <==> (prev.spec_has_file(n) || n == name),
            self.spec_count() == prev.spec_count() + 1,
    {
        let last = prev.files.len() as int;
        assert(self.files.len() == prev.files.len() + 1);
        assert(forall|k: int| 0 <= k < last ==> self.files[k] == prev.files[k]);
        assert forall|j1: int, j2: int|
            0 <= j1 < j2 < self.files.len() implies self.files[j1].name@
            != self.files[j2].name@ by {
            if j2 == last {
                assert(prev.files[j1].name@ == self.files[j1].name@);
                if self.files[j1].name@ == name {
                    assert(prev.spec_has_file(name));
                }
            }
        }
        assert(self.wf());
        self.lemma_file_at_index(last);
        assert forall|n: Seq<char>| n != name implies self.spec_content(n) == prev.spec_content(
            n,
        ) by {
            if prev.spec_has_file(n) {
                let k = prev.spec_file_index(n);
                prev.lemma_file_at_index(k);
                self.lemma_file_at_index(k);
            } else {
                if self.spec_has_file(n) {
                    let k = self.spec_file_index(n);
                    assert(k != last);
                    assert(prev.files[k].name@ == n);
                }
            }
        }
        assert forall|n: Seq<char>| self.spec_has_file(n) <==> (prev.spec_has_file(n) || n
            == name) by {
            if self.spec_has_file(n) {
                let k = self.spec_file_index(n);
                if k != last {
                    assert(prev.files[k].name@ == n);
                }
            }
            if prev.spec_has_file(n) {
                let k = prev.spec_file_index(n);
                assert(self.files[k].name@ == n);
            }
        }
    }

    /// Delete the file of this name; report whether it was there.
    pub fn remove_file(&mut self, name: &str) -> (existed: bool)
        requires
            old(self).wf(),
        ensures
            final(self).wf(),
            final(self).name@ == old(self).name@,
            existed == old(self).spec_has_file(name@),
            final(self).spec_content(name@) is None,
            forall|n: Seq<char>|
                n != name@ ==> final(self).spec_content(n) == old(self).spec_content(n),
            forall|n: Seq<char>|
                final(self).spec_has_file(n) <==> (old(self).spec_has_file(n) && n != name@),
            final(self).spec_count() == if old(self).spec_has_file(name@) {
                old(self).spec_count() - 1
            } else {
                old(self).spec_count()
            },
    {
        let found = self.find_file(name);
        match found {
            Some(j) => {
                proof {
                    old(self).lemma_file_at_index(j as int);
                }
                self.files.remove(j);
                proof {
                    self.lemma_remove_frame(*old(self), j as int, name@);
                }
                true
            },
            None => false,
        }
    }

    /// After removing the file at index `j`, every other lookup is unchanged.
    proof fn lemma_remove_frame(self, prev: BucketDir, j: int, name: Seq<char>)
        requires
            prev.wf(),
            0 <= j < prev.files.len(),
            prev.files[j].name@ == name,
            self.name@ == prev.name@,
            self.files@ == prev.files@.remove(j),
        ensures
            self.wf(),
            self.spec_content(name) is None,
            forall|n: Seq<char>| n != name ==> self.spec_content(n) == prev.spec_content(n),
            forall|n: Seq<char>| self.spec_has_file(n) <==> (prev.spec_has_file(n) && n != name),
            self.spec_count() == prev.spec_count() - 1,
    {
        assert(self.files.len() == prev.files.len() - 1);
        assert(forall|k: int| 0 <= k < j ==> self.files[k] == prev.files[k]);
        assert(forall|k: int| j <= k < self.files.len() ==> self.files[k] == prev.files[k + 1]);
        assert forall|j1: int, j2: int|
            0 <= j1 < j2 < self.files.len() implies self.files[j1].name@
            != self.files[j2].name@ by {
            let p1 = if j1 < j { j1 } else { j1 + 1 };
            let p2 = if j2 < j { j2 } else { j2 + 1 };
            assert(self.files[j1] == prev.files[p1]);
            assert(self.files[j2] == prev.files[p2]);
        }
        assert(self.wf());
        prev.lemma_file_at_index(j);
        if self.spec_has_file(name) {
            let k = self.spec_file_index(name);
            let p = if k < j { k } else { k + 1 };
            assert(prev.files[p].name@ == name);
            prev.lemma_file_at_index(p);
            assert(false);
        }
        assert forall|n: Seq<char>| n != name implies self.spec_content(n) == prev.spec_content(
            n,
        ) by {
            if prev.spec_has_file(n) {
                let k = prev.spec_file_index(n);
                prev.lemma_file_at_index(k);
                assert(k != j);
                let k2 = if k < j { k } else { k - 1 };
                assert(self.files[k2].name@ == n);
                assert(self.files[k2].content@ == prev.files[k].content@);
                self.lemma_file_at_index(k2);
            } else {
                if self.spec_has_file(n) {
                    let k = self.spec_file_index(n);
                    let p = if k < j { k } else { k + 1 };
                    assert(prev.files[p].name@ == n);
                }
            }
        }
        assert forall|n: Seq<char>| self.spec_has_file(n) <==> (prev.spec_has_file(n) && n
            != name) by {
            if self.spec_has_file(n) {
                let k = self.spec_file_index(n);
                let p = if k < j { k } else { k + 1 };
                assert(prev.files[p].name@ == n);
            }
            if prev.spec_has_file(n) && n != name {
                let k = prev.spec_file_index(n);
                prev.lemma_file_at_index(k);
                assert(k != j);
                let k2 = if k < j { k } else { k - 1 };
                assert(self.files[k2].name@ == n);
            }
        }
    }
}

impl Disk {
    /// A bucket of this name sits under the root.
    pub open spec fn spec_has_bucket(self, name: Seq<char>) -> bool {
        exists|j: int| 0 <= j < self.buckets.len() && self.buckets[j].name@ == name
    }

    /// The index of the bucket of this name.
    pub open spec fn spec_bucket_index(self, name: Seq<char>) -> int {
        choose|j: int| 0 <= j < self.buckets.len() && self.buckets[j].name@ == name
    }

    /// The bucket of this name.
    pub open spec fn spec_bucket(self, name: Seq<char>) -> BucketDir {
        self.buckets[self.spec_bucket_index(name)]
    }

    /// The content of file `name` in bucket `bucket`, if both exist.
    pub open spec fn spec_content(self, bucket: Seq<char>, name: Seq<char>) -> Option<Seq<char>> {
        if self.spec_has_bucket(bucket) {
            self.spec_bucket(bucket).spec_content(name)
        } else {
            None
        }
    }

    /// How many directory entries the bucket of this name holds.
    pub open spec fn spec_count(self, bucket: Seq<char>) -> int {
        if self.spec_has_bucket(bucket) {
            self.spec_bucket(bucket).spec_count()
        } else {
            0
        }
    }

    /// The dot-file text, if the dot-file exists.
    pub open spec fn spec_dotfile(self) -> Option<Seq<char>> {
        match self.dotfile {
            Some(t) => Some(t@),
            None => None,
        }
    }

    /// Well-formed: one bucket per name, each bucket well-formed.
    pub open spec fn wf(self) -> bool {
        &&& forall|j1: int, j2: int|
            0 <= j1 < j2 < self.buckets.len() ==> self.buckets[j1].name@ != self.buckets[j2].name@
        &&& forall|j: int| 0 <= j < self.buckets.len() ==> (#[trigger] self.buckets[j]).wf()
    }

    /// In a well-formed root, a bucket found at an index is the one bucket of
    /// its name.
    pub proof fn lemma_bucket_at_index(self, j: int)
        requires
            self.wf(),
            0 <= j < self.buckets.len(),
        ensures
            self.spec_has_bucket(self.buckets[j].name@),
            self.spec_bucket_index(self.buckets[j].name@) == j,
            self.spec_bucket(self.buckets[j].name@) == self.buckets[j],
    {
        let n = self.buckets[j].name@;
        assert(self.spec_has_bucket(n));
        let k = self.spec_bucket_index(n);
        if k != j {
            assert(false);
        }
    }

    /// An empty root directory: no dot-file, no buckets.
    pub fn new() -> (r: Disk)
        ensures
            r.wf(),
            r.spec_dotfile() is None,
            r.buckets@.len() == 0,
            forall|b: Seq<char>| !r.spec_has_bucket(b),
    {
        Disk { dotfile: None, buckets: Vec::new() }
    }

    /// The index of the bucket of this name, if the root holds one.
    pub fn find_bucket(&self, name: &str) -> (r: Option<usize>)
        ensures
            match r {
                Some(j) => j < self.buckets.len() && self.buckets[j as int].name@ == name@,
                None => !self.spec_has_bucket(name@),
            },
    {
        let len = self.buckets.len();
        let mut j: usize = 0;
        while j < len
            invariant
                0 <= j <= len,
                len == self.buckets.len(),
                forall|k: int| 0 <= k < j ==> self.buckets[k].name@ != name@,
            decreases len - j,
        {
            if crate::path::str_eq(self.buckets[j].name.as_str(), name) {
                return Some(j);
            }
            j = j + 1;
        }
        None
    }

    /// Whether a bucket of this name exists.
    pub fn bucket_exists(&self, name: &str) -> (r: bool)
        ensures
            r == self.spec_has_bucket(name@),
    {
        match self.find_bucket(name) {
            Some(j) => {
                proof {
                    assert(self.spec_has_bucket(name@));
                }
                true
            },
            None => false,
        }
    }

    /// Create the bucket directory of this name; a no-op when it exists.
    pub fn create_bucket(&mut self, name: &str)
        requires
            old(self).wf(),
            name_valid(name@),
        ensures
            final(self).wf(),
            final(self).dotfile == old(self).dotfile,
            forall|b: Seq<char>|
                final(self).spec_has_bucket(b) <==> (old(self).spec_has_bucket(b) || b == name@),
            old(self).spec_has_bucket(name@) ==> *final(self) == *old(self),
            !old(self).spec_has_bucket(name@) ==> final(self).buckets.len() == old(
                self,
            ).buckets.len() + 1 && final(self).spec_count(name@) == 0 && forall|n: Seq<char>|
                final(self).spec_content(name@, n) is None,
            forall|b: Seq<char>, n: Seq<char>|
                b != name@ ==> final(self).spec_content(b, n) == old(self).spec_content(b, n),
            forall|b: Seq<char>|
                b != name@ ==> final(self).spec_count(b) == old(self).spec_count(b),
    {
        let found = self.find_bucket(name);
        match found {
            Some(j) => {
                proof {
                    old(self).lemma_bucket_at_index(j as int);
                }
            },
            None => {
                self.buckets.push(BucketDir { name: name.to_owned(), files: Vec::new() });
                proof {
                    self.lemma_bucket_push_frame(*old(self), name@);
                }
            },
        }
    }

    /// After pushing a bucket of a fresh name, every other lookup is
    /// unchanged.
    proof fn lemma_bucket_push_frame(self, prev: Disk, name: Seq<char>)
        requires
            prev.wf(),
            !prev.spec_has_bucket(name),
            name_valid(name),
            self.dotfile == prev.dotfile,
            self.buckets@ == prev.buckets@.push(self.buckets[prev.buckets.len() as int]),
            self.buckets[prev.buckets.len() as int].name@ == name,
            self.buckets[prev.buckets.len() as int].wf(),
            self.buckets[prev.buckets.len() as int].files.len() == 0,
        ensures
            self.wf(),
            forall|b: Seq<char>| self.spec_has_bucket(b) <==> (prev.spec_has_bucket(b) || b == name),
            self.spec_count(name) == 0,
            forall|n: Seq<char>| self.spec_content(name, n) is None,
            forall|b: Seq<char>, n: Seq<char>|
                b != name ==> self.spec_content(b, n) == prev.spec_content(b, n),
            forall|b: Seq<char>| b != name ==> self.spec_count(b) == prev.spec_count(b),
    {
        let last = prev.buckets.len() as int;
        assert(self.buckets.len() == prev.buckets.len() + 1);
        assert(forall|k: int| 0 <= k < last ==> self.buckets[k] == prev.buckets[k]);
        assert forall|j1: int, j2: int|
            0 <= j1 < j2 < self.buckets.len() implies self.buckets[j1].name@
            != self.buckets[j2].name@ by {
            if j2 == last {
                if self.buckets[j1].name@ == name {
                    assert(prev.spec_has_bucket(name));
                }
            }
        }
        assert(self.wf());
        self.lemma_bucket_at_index(last);
        assert forall|b: Seq<char>| self.spec_has_bucket(b) <==> (prev.spec_has_bucket(b) || b
            == name) by {
            if self.spec_has_bucket(b) {
                let k = self.spec_bucket_index(b);
                if k != last {
                    assert(prev.buckets[k].name@ == b);
                }
            }
            if prev.spec_has_bucket(b) {
                let k = prev.spec_bucket_index(b);
                assert(self.buckets[k].name@ == b);
            }
        }
        assert forall|b: Seq<char>, n: Seq<char>| b != name implies self.spec_content(b, n)
            == prev.spec_content(b, n) by {
            if prev.spec_has_bucket(b) {
                let k = prev.spec_bucket_index(b);
                prev.lemma_bucket_at_index(k);
                self.lemma_bucket_at_index(k);
            }
        }
        assert forall|b: Seq<char>| b != name implies self.spec_count(b) == prev.spec_count(
            b,
        ) by {
            if prev.spec_has_bucket(b) {
                let k = prev.spec_bucket_index(b);
                prev.lemma_bucket_at_index(k);
                self.lemma_bucket_at_index(k);
            }
        }
    }

    /// After replacing the bucket at index `j` (same name), lookups in every
    /// other bucket are unchanged.
    proof fn lemma_bucket_update_frame(self, prev: Disk, j: int)
        requires
            prev.wf(),
            0 <= j < prev.buckets.len(),
            self.buckets@ == prev.buckets@.update(j, self.buckets[j]),
            self.buckets[j].name@ == prev.buckets[j].name@,
            self.buckets[j].wf(),
        ensures
            self.wf(),
            forall|b: Seq<char>| self.spec_has_bucket(b) <==> prev.spec_has_bucket(b),
            self.spec_bucket_index(prev.buckets[j].name@) == j,
            self.spec_bucket(prev.buckets[j].name@) == self.buckets[j],
            forall|b: Seq<char>, n: Seq<char>|
                b != prev.buckets[j].name@ ==> self.spec_content(b, n) == prev.spec_content(b, n),
            forall|b: Seq<char>|
                b != prev.buckets[j].name@ ==> self.spec_count(b) == prev.spec_count(b),
    {
        let name = prev.buckets[j].name@;
        assert(self.buckets.len() == prev.buckets.len());
        assert(forall|k: int|
            0 <= k < self.buckets.len() ==> self.buckets[k].name@ == prev.buckets[k].name@);
        assert(forall|k: int| 0 <= k < self.buckets.len() && k != j
            ==> self.buckets[k] == prev.buckets[k]);
        assert(self.wf());
        self.lemma_bucket_at_index(j);
        assert forall|b: Seq<char>| self.spec_has_bucket(b) <==> prev.spec_has_bucket(b) by {
            if self.spec_has_bucket(b) {
                let k = self.spec_bucket_index(b);
                assert(prev.buckets[k].name@ == b);
            }
            if prev.spec_has_bucket(b) {
                let k = prev.spec_bucket_index(b);
                assert(self.buckets[k].name@ == b);
            }
        }
        assert forall|b: Seq<char>, n: Seq<char>| b != name implies self.spec_content(b, n)
            == prev.spec_content(b, n) by {
            if prev.spec_has_bucket(b) {
                let k = prev.spec_bucket_index(b);
                prev.lemma_bucket_at_index(k);
                assert(k != j);
                self.lemma_bucket_at_index(k);
            }
        }
        assert forall|b: Seq<char>| b != name implies self.spec_count(b) == prev.spec_count(
            b,
        ) by {
            if prev.spec_has_bucket(b) {
                let k = prev.spec_bucket_index(b);
                prev.lemma_bucket_at_index(k);
                assert(k != j);
                self.lemma_bucket_at_index(k);
            }
        }
    }

    /// Create or overwrite a file in the named bucket; the bucket must exist.
    pub fn write_file(&mut self, bucket: &str, name: &str, content: &str) -> (r: Result<
        (),
        crate::error::StorageError,
    >)
        requires
            old(self).wf(),
            name@.len() > 0,
        ensures
            final(self).wf(),
            final(self).dotfile == old(self).dotfile,
            r is Ok <==> old(self).spec_has_bucket(bucket@),
            r is Err ==> *final(self) == *old(self) && r == Err::<(), crate::error::StorageError>(
                crate::error::StorageError::Io,
            ),
            forall|b: Seq<char>| final(self).spec_has_bucket(b) <==> old(self).spec_has_bucket(b),
            r is Ok ==> final(self).spec_content(bucket@, name@) == Some(content@),
            forall|b: Seq<char>, n: Seq<char>|
                !(b == bucket@ && n == name@) ==> final(self).spec_content(b, n) == old(
                    self,
                ).spec_content(b, n),
            forall|b: Seq<char>| b != bucket@ ==> final(self).spec_count(b) == old(self).spec_count(b),
            r is Ok ==> final(self).spec_count(bucket@) == if old(self).spec_content(
                bucket@,
                name@,
            ) is Some {
                old(self).spec_count(bucket@)
            } else {
                old(self).spec_count(bucket@) + 1
            },
    {
        let found = self.find_bucket(bucket);
        match found {
            Some(j) => {
                proof {
                    old(self).lemma_bucket_at_index(j as int);
                }
                let dir = &mut self.buckets[j];
                dir.upsert_file(name, content);
                proof {
                    self.lemma_bucket_update_frame(*old(self), j as int);
                }
                Ok(())
            },
            None => Err(crate::error::StorageError::Io),
        }
    }

    /// The content of a file, if its bucket holds it.
    pub fn read_file(&self, bucket: &str, name: &str) -> (r: Option<String>)
        requires
            self.wf(),
        ensures
            match r {
                Some(c) => self.spec_content(bucket@, name@) == Some(c@),
                None => self.spec_content(bucket@, name@) is None,
            },
    {
        let found = self.find_bucket(bucket);
        match found {
            Some(j) => {
                proof {
                    self.lemma_bucket_at_index(j as int);
                }
                let dir = &self.buckets[j];
                let file = dir.find_file(name);
                match file {
                    Some(k) => {
                        proof {
                            dir.lemma_file_at_index(k as int);
                        }
                        Some(dir.files[k].content.clone())
                    },
                    None => None,
                }
            },
            None => None,
        }
    }

    /// Whether the named file sits in the named bucket.
    pub fn file_exists(&self, bucket: &str, name: &str) -> (r: bool)
        requires
            self.wf(),
        ensures
            r == (self.spec_content(bucket@, name@) is Some),
    {
        match self.read_file(bucket, name) {
            Some(_) => true,
            None => false,
        }
    }

    /// Delete a file from its bucket; report whether it was there.
    pub fn remove_file(&mut self, bucket: &str, name: &str) -> (existed: bool)
        requires
            old(self).wf(),
        ensures
            final(self).wf(),
            final(self).dotfile == old(self).dotfile,
            forall|b: Seq<char>| final(self).spec_has_bucket(b) <==> old(self).spec_has_bucket(b),
            existed == (old(self).spec_content(bucket@, name@) is Some),
            final(self).spec_content(bucket@, name@) is None,
            forall|b: Seq<char>, n: Seq<char>|
                !(b == bucket@ && n == name@) ==> final(self).spec_content(b, n) == old(
                    self,
                ).spec_content(b, n),
            forall|b: Seq<char>| b != bucket@ ==> final(self).spec_count(b) == old(self).spec_count(b),
            final(self).spec_count(bucket@) == if old(self).spec_content(bucket@, name@) is Some {
                old(self).spec_count(bucket@) - 1
            } else {
                old(self).spec_count(bucket@)
            },
    {
        let found = self.find_bucket(bucket);
        match found {
            Some(j) => {
                proof {
                    old(self).lemma_bucket_at_index(j as int);
                }
                let dir = &mut self.buckets[j];
                let existed = dir.remove_file(name);
                proof {
                    self.lemma_bucket_update_frame(*old(self), j as int);
                }
                existed
            },
            None => false,
        }
    }

    /// How many directory entries the named bucket holds, if it exists.
    pub fn count_files(&self, bucket: &str) -> (r: Option<usize>)
        requires
            self.wf(),
        ensures
            match r {
                Some(c) => self.spec_has_bucket(bucket@) && c == self.spec_count(bucket@),
                None => !self.spec_has_bucket(bucket@),
            },
    {
        let found = self.find_bucket(bucket);
        match found {
            Some(j) => {
                proof {
                    self.lemma_bucket_at_index(j as int);
                }
                Some(self.buckets[j].files.len())
            },
            None => None,
        }
    }

    /// Overwrite the dot-file with the given text.
    pub fn write_dotfile(&mut self, text: &str)
        requires
            old(self).wf(),
        ensures
            final(self).wf(),
            final(self).spec_dotfile() == Some(text@),
            final(self).buckets == old(self).buckets,
            forall|b: Seq<char>| final(self).spec_has_bucket(b) <==> old(self).spec_has_bucket(b),
            forall|b: Seq<char>, n: Seq<char>|
                final(self).spec_content(b, n) == old(self).spec_content(b, n),
            forall|b: Seq<char>| final(self).spec_count(b) == old(self).spec_count(b),
    {
        self.dotfile = Some(text.to_owned());
    }

    /// A copy of the dot-file text, if the dot-file exists.
    pub fn dotfile_text(&self) -> (r: Option<String>)
        ensures
            match r {
                Some(t) => self.spec_dotfile() == Some(t@),
                None => self.spec_dotfile() is None,
            },
    {
        match &self.dotfile {
            Some(t) => Some(t.clone()),
            None => None,
        }
    }
}

} // verus!
