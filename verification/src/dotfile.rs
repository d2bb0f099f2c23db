use vstd::prelude::*;

use crate::bucket::Bucket;
use crate::bucket::generated_name;
use crate::bucket::lemma_generated_name_valid;
use crate::disk::Disk;
use crate::error::StorageError;
use crate::path::has_prefix;
use crate::path::find_char;
use crate::path::is_first_char;
use crate::path::join;

verus! {

/// The key under which the dot-file records the active bucket.
pub open spec fn spec_dotfile_prefix() -> Seq<char> {
    seq![
        'a',
        'c',
        't',
        'i',
        'v',
        'e',
        '_',
        'b',
        'u',
        'c',
        'k',
        'e',
        't',
        '_',
        'n',
        'a',
        'm',
        'e',
        ':',
        ' ',
    ]
}

/// The file name of the dot-file under the root.
pub open spec fn spec_dotfile_filename() -> Seq<char> {
    seq!['.', 's', 't', 'o', 'r', 'a', 'g', 'e']
}

/// The serialized form of a dot-file record: one key, one value, one line.
pub open spec fn spec_dotfile_encode(name: Seq<char>) -> Seq<char> {
    spec_dotfile_prefix() + name + seq!['\n']
}

/// Text that decodes as a dot-file record: the key, a value free of
/// newlines, and a final newline.
pub open spec fn dotfile_text_ok(t: Seq<char>) -> bool {
    &&& t.len() > spec_dotfile_prefix().len()
    &&& t.subrange(0, spec_dotfile_prefix().len() as int) == spec_dotfile_prefix()
    &&& t[t.len() - 1] == '\n'
    &&& forall|j: int| spec_dotfile_prefix().len() <= j < t.len() - 1 ==> t[j] != '\n'
}

/// The bucket name a well-formed dot-file text records.
pub open spec fn spec_dotfile_name(t: Seq<char>) -> Seq<char> {
    t.subrange(spec_dotfile_prefix().len() as int, t.len() - 1)
}

/// Encoding a newline-free name gives text that decodes back to exactly
/// that name: the dot-file format round-trips.
pub proof fn lemma_dotfile_round_trip(name: Seq<char>)
    requires
        !name.contains('\n'),
    ensures
        dotfile_text_ok(spec_dotfile_encode(name)),
        spec_dotfile_name(spec_dotfile_encode(name)) == name,
{
    let t = spec_dotfile_encode(name);
    assert(forall|i: int| 0 <= i < name.len() ==> name[i] != '\n') by {
        if exists|i: int| 0 <= i < name.len() && name[i] == '\n' {
            assert(name.contains('\n'));
        }
    }
    assert(t.subrange(0, spec_dotfile_prefix().len() as int) =~= spec_dotfile_prefix());
    assert(spec_dotfile_name(t) =~= name);
}

/// A well-formed dot-file text is exactly the encoding of the name it
/// records.
pub proof fn lemma_dotfile_text_canonical(t: Seq<char>)
    requires
        dotfile_text_ok(t),
    ensures
        t == spec_dotfile_encode(spec_dotfile_name(t)),
        !spec_dotfile_name(t).contains('\n'),
{
    assert(t =~= spec_dotfile_encode(spec_dotfile_name(t)));
    let name = spec_dotfile_name(t);
    if name.contains('\n') {
        let k = choose|k: int| 0 <= k < name.len() && name[k] == '\n';
        assert(t[spec_dotfile_prefix().len() + k] == '\n');
    }
}

/// The durable record of which bucket is currently active, stored next to
/// the buckets as `.storage`.
#[derive(Debug)]
pub struct DotFile {
    pub active_bucket_name: String,
}

impl DotFile {
    /// Where the dot-file sits: `{root}/.storage`.
    pub fn path(root: &str) -> (r: String)
        ensures
            r@ == root@ + seq!['/'] + spec_dotfile_filename(),
    {
        proof {
            reveal_strlit(".storage");
            assert(".storage"@ =~= spec_dotfile_filename());
        }
        join(root, ".storage")
    }

    /// Whether the dot-file exists under the root.
    pub fn exists_in(disk: &Disk) -> (r: bool)
        ensures
            r == (disk.spec_dotfile() is Some),
    {
        match &disk.dotfile {
            Some(_) => true,
            None => false,
        }
    }

    /// The serialized one-line form of this record.
    pub fn encode(&self) -> (r: String)
        ensures
            r@ == spec_dotfile_encode(self.active_bucket_name@),
    {
        proof {
            reveal_strlit("active_bucket_name: ");
            reveal_strlit("\n");
            assert("active_bucket_name: "@ =~= spec_dotfile_prefix());
            assert("\n"@ =~= seq!['\n']);
        }
        let mut out = String::from_str("active_bucket_name: ");
        out.append(self.active_bucket_name.as_str());
        out.append("\n");
        proof {
            assert(out@ =~= spec_dotfile_encode(self.active_bucket_name@));
        }
        out
    }

    /// Decode a dot-file text; fails on anything the one-line format does
    /// not produce.
    pub fn parse(text: &str) -> (r: Result<DotFile, StorageError>)
        ensures
            match r {
                Ok(d) => dotfile_text_ok(text@) && d.active_bucket_name@ == spec_dotfile_name(
                    text@,
                ),
                Err(e) => e == StorageError::Serde && !dotfile_text_ok(text@),
            },
    {
        proof {
            reveal_strlit("active_bucket_name: ");
            assert("active_bucket_name: "@ =~= spec_dotfile_prefix());
        }
        let len = text.unicode_len();
        if !has_prefix(text, "active_bucket_name: ") {
            return Err(StorageError::Serde);
        }
        if len < 21 {
            return Err(StorageError::Serde);
        }
        if text.get_char(len - 1) != '\n' {
            return Err(StorageError::Serde);
        }
        let name_part = text.substring_char(20, len - 1);
        match find_char(name_part, '\n') {
            Some(k) => {
                proof {
                    assert(text@[20 + k] == '\n');
                }
                Err(StorageError::Serde)
            },
            None => {
                proof {
                    assert(forall|j: int| 20 <= j < text@.len() - 1 ==> text@[j] != '\n') by {
                        if exists|j: int| 20 <= j < text@.len() - 1 && text@[j] == '\n' {
                            let j = choose|j: int|
                                20 <= j < text@.len() - 1 && text@[j] == '\n';
                            assert(name_part@[j - 20] == '\n');
                            assert(name_part@.contains('\n'));
                        }
                    }
                    assert(dotfile_text_ok(text@));
                    assert(name_part@ == spec_dotfile_name(text@));
                }
                Ok(DotFile { active_bucket_name: name_part.to_owned() })
            },
        }
    }

    /// Serialize this record and overwrite the dot-file under the root.
    pub fn to_file(&self, disk: &mut Disk) -> (r: Result<(), StorageError>)
        requires
            old(disk).wf(),
        ensures
            r is Ok,
            final(disk).wf(),
            final(disk).spec_dotfile() == Some(spec_dotfile_encode(self.active_bucket_name@)),
            final(disk).buckets == old(disk).buckets,
            forall|b: Seq<char>| final(disk).spec_has_bucket(b) <==> old(disk).spec_has_bucket(b),
            forall|b: Seq<char>, n: Seq<char>|
                final(disk).spec_content(b, n) == old(disk).spec_content(b, n),
            forall|b: Seq<char>| final(disk).spec_count(b) == old(disk).spec_count(b),
    {
        let text = self.encode();
        disk.write_dotfile(text.as_str());
        Ok(())
    }

    /// Load the dot-file record, or create and persist a fresh one when none
    /// exists yet. The freshly created record carries a random bucket name.
    pub fn from_file(disk: &mut Disk) -> (r: Result<DotFile, StorageError>)
        requires
            old(disk).wf(),
        ensures
            final(disk).wf(),
            match old(disk).spec_dotfile() {
                Some(t) => *final(disk) == *old(disk) && (match r {
                    Ok(d) => dotfile_text_ok(t) && d.active_bucket_name@ == spec_dotfile_name(t),
                    Err(e) => e == StorageError::Serde && !dotfile_text_ok(t),
                }),
                None => (match r {
                    Ok(d) => generated_name(d.active_bucket_name@) && final(disk).spec_dotfile()
                        == Some(spec_dotfile_encode(d.active_bucket_name@))
                        && final(disk).buckets == old(disk).buckets,
                    Err(_) => false,
                }),
            },
            forall|b: Seq<char>| final(disk).spec_has_bucket(b) <==> old(disk).spec_has_bucket(b),
            forall|b: Seq<char>, n: Seq<char>|
                final(disk).spec_content(b, n) == old(disk).spec_content(b, n),
            forall|b: Seq<char>| final(disk).spec_count(b) == old(disk).spec_count(b),
    {
        match disk.dotfile_text() {
            Some(text) => Self::parse(text.as_str()),
            None => {
                let fresh = Self::default();
                let persisted = fresh.to_file(disk);
                match persisted {
                    Ok(_) => Ok(fresh),
                    Err(e) => Err(e),
                }
            },
        }
    }
}

impl Default for DotFile {
    /// A fresh record naming a random bucket.
    fn default() -> (d: DotFile)
        ensures
            generated_name(d.active_bucket_name@),
            name_valid_dotfile(d),
    {
        let name = Bucket::new_random_name();
        proof {
            lemma_generated_name_valid(name@);
        }
        DotFile { active_bucket_name: name }
    }
}

/// The record names a bucket that path splitting and the dot-file format
/// both carry faithfully.
pub open spec fn name_valid_dotfile(d: DotFile) -> bool {
    crate::path::name_valid(d.active_bucket_name@) && !d.active_bucket_name@.contains('\n')
}

} // verus!
