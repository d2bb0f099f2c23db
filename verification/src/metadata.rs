use vstd::prelude::*;

use crate::disk::Disk;
use crate::error::StorageError;
use crate::path::find_char;
use crate::path::has_prefix;
use crate::path::join;

verus! {

/// The key introducing the display alias in a sidecar.
pub open spec fn spec_alias_prefix() -> Seq<char> {
    seq!['a', 'l', 'i', 'a', 's', ':', ' ']
}

/// The key introducing the caller-supplied custom value in a sidecar.
pub open spec fn spec_custom_prefix() -> Seq<char> {
    seq!['c', 'u', 's', 't', 'o', 'm', ':', ' ']
}

/// The suffix that turns an item file name into its sidecar file name.
pub open spec fn spec_sidecar_suffix() -> Seq<char> {
    seq!['.', 'm', 'e', 't', 'a', 'd', 'a', 't', 'a', '.', 'y', 'a', 'm', 'l']
}

/// The sidecar file name derived from an item file name.
pub open spec fn spec_sidecar_name(item: Seq<char>) -> Seq<char> {
    item + spec_sidecar_suffix()
}

/// The serialized custom line: present only when a custom value is.
pub open spec fn spec_custom_encode(custom: Option<Seq<char>>) -> Seq<char> {
    match custom {
        Some(c) => spec_custom_prefix() + c + seq!['\n'],
        None => Seq::empty(),
    }
}

/// The serialized form of a metadata record: an alias line, then at most
/// one custom line.
pub open spec fn spec_metadata_encode(alias: Seq<char>, custom: Option<Seq<char>>) -> Seq<char> {
    spec_alias_prefix() + alias + seq!['\n'] + spec_custom_encode(custom)
}

/// Field values the line-oriented sidecar format can carry.
pub open spec fn metadata_fields_ok(alias: Seq<char>, custom: Option<Seq<char>>) -> bool {
    !alias.contains('\n') && (custom matches Some(c) ==> !c.contains('\n'))
}

/// Text that decodes as a metadata record.
pub open spec fn metadata_text_ok(t: Seq<char>) -> bool {
    exists|alias: Seq<char>, custom: Option<Seq<char>>|
        metadata_fields_ok(alias, custom) && t == spec_metadata_encode(alias, custom)
}

/// What the encoding pins down about its text: where each part sits.
pub proof fn lemma_metadata_decomposition(t: Seq<char>, alias: Seq<char>, custom: Option<
    Seq<char>,
>)
    requires
        metadata_fields_ok(alias, custom),
        t == spec_metadata_encode(alias, custom),
    ensures
        t.len() >= 8 + alias.len(),
        t.subrange(0, 7) == spec_alias_prefix(),
        crate::path::is_first_char(t, '\n', 7 + alias.len() as int),
        alias == t.subrange(7, 7 + alias.len() as int),
        custom is None ==> t.len() == 8 + alias.len(),
        custom matches Some(c) ==> t.len() == 17 + alias.len() + c.len() && t.subrange(
            8 + alias.len() as int,
            16 + alias.len() as int,
        ) == spec_custom_prefix() && c == t.subrange(16 + alias.len() as int, t.len() - 1) && t[t.len()
            - 1] == '\n' && (forall|j: int| 16 + alias.len() <= j < t.len() - 1 ==> t[j] != '\n'),
{
    assert(forall|i: int| 0 <= i < alias.len() ==> alias[i] != '\n') by {
        if exists|i: int| 0 <= i < alias.len() && alias[i] == '\n' {
            assert(alias.contains('\n'));
        }
    }
    assert(spec_alias_prefix()[0] == 'a');
    assert(spec_alias_prefix()[1] == 'l');
    assert(spec_alias_prefix()[2] == 'i');
    assert(spec_alias_prefix()[3] == 'a');
    assert(spec_alias_prefix()[4] == 's');
    assert(spec_alias_prefix()[5] == ':');
    assert(spec_alias_prefix()[6] == ' ');
    assert(t.subrange(0, 7) =~= spec_alias_prefix());
    assert(t[7 + alias.len() as int] == '\n');
    assert(forall|j: int| 0 <= j < 7 ==> t[j] != '\n');
    assert(forall|j: int| 7 <= j < 7 + alias.len() ==> t[j] == alias[j - 7] && t[j] != '\n');
    assert(crate::path::is_first_char(t, '\n', 7 + alias.len() as int));
    assert(alias =~= t.subrange(7, 7 + alias.len() as int));
    match custom {
        None => {
            assert(t.len() == 8 + alias.len());
        },
        Some(c) => {
            assert(forall|i: int| 0 <= i < c.len() ==> c[i] != '\n') by {
                if exists|i: int| 0 <= i < c.len() && c[i] == '\n' {
                    assert(c.contains('\n'));
                }
            }
            assert(spec_custom_prefix()[0] == 'c');
            assert(spec_custom_prefix()[1] == 'u');
            assert(spec_custom_prefix()[2] == 's');
            assert(spec_custom_prefix()[3] == 't');
            assert(spec_custom_prefix()[4] == 'o');
            assert(spec_custom_prefix()[5] == 'm');
            assert(spec_custom_prefix()[6] == ':');
            assert(spec_custom_prefix()[7] == ' ');
            assert(t.len() == 17 + alias.len() + c.len());
            assert(t.subrange(8 + alias.len() as int, 16 + alias.len() as int) =~= spec_custom_prefix());
            assert(c =~= t.subrange(16 + alias.len() as int, t.len() - 1));
            assert(t[t.len() - 1] == '\n');
            assert(forall|j: int|
                16 + alias.len() <= j < t.len() - 1 ==> t[j] == c[j - 16 - alias.len()] && t[j]
                    != '\n');
        },
    }
}

/// Encoding any representable fields gives text the sidecar format decodes.
pub proof fn lemma_metadata_round_trip(alias: Seq<char>, custom: Option<Seq<char>>)
    requires
        metadata_fields_ok(alias, custom),
    ensures
        metadata_text_ok(spec_metadata_encode(alias, custom)),
{
}

/// One text decodes as at most one record: the sidecar format is injective
/// on the fields it can carry.
pub proof fn lemma_metadata_encode_injective(
    a1: Seq<char>,
    c1: Option<Seq<char>>,
    a2: Seq<char>,
    c2: Option<Seq<char>>,
)
    requires
        metadata_fields_ok(a1, c1),
        metadata_fields_ok(a2, c2),
        spec_metadata_encode(a1, c1) == spec_metadata_encode(a2, c2),
    ensures
        a1 == a2,
        c1 == c2,
{
    let t = spec_metadata_encode(a1, c1);
    lemma_metadata_decomposition(t, a1, c1);
    lemma_metadata_decomposition(t, a2, c2);
    crate::path::lemma_first_char_unique(t, '\n', 7 + a1.len() as int, 7 + a2.len() as int);
    assert(a1.len() == a2.len());
    assert(a1 == a2);
    match c1 {
        None => {
            match c2 {
                None => {},
                Some(_) => {
                    assert(t.len() == 8 + a1.len());
                    assert(false);
                },
            }
        },
        Some(v1) => {
            match c2 {
                None => {
                    assert(t.len() == 8 + a2.len());
                    assert(false);
                },
                Some(v2) => {
                    assert(v1.len() == v2.len());
                    assert(v1 == t.subrange(16 + a1.len() as int, t.len() - 1));
                    assert(v2 == t.subrange(16 + a2.len() as int, t.len() - 1));
                },
            }
        },
    }
}

/// The structured record a metadata sidecar carries: a display alias and an
/// optional caller-supplied custom value, kept as the text the caller
/// serialized it to.
#[derive(Debug, Clone, PartialEq, Eq)]
pub struct Metadata {
    pub alias: String,
    pub custom: Option<String>,
}

impl Metadata {
    /// The custom value's characters, if a custom value is present.
    pub open spec fn spec_custom(self) -> Option<Seq<char>> {
        match self.custom {
            Some(c) => Some(c@),
            None => None,
        }
    }

    /// The fields fit the line-oriented sidecar format.
    pub open spec fn encodable(self) -> bool {
        metadata_fields_ok(self.alias@, self.spec_custom())
    }

    /// Whether the fields fit the line-oriented sidecar format: a field
    /// holding a newline has no serialized form.
    pub fn check_encodable(&self) -> (r: bool)
        ensures
            r == self.encodable(),
    {
        if find_char(self.alias.as_str(), '\n').is_some() {
            return false;
        }
        match &self.custom {
            Some(c) => find_char(c.as_str(), '\n').is_none(),
            None => true,
        }
    }

    /// The sidecar file name of the item file `name`.
    pub fn metadata_filename(name: &str) -> (r: String)
        ensures
            r@ == spec_sidecar_name(name@),
    {
        proof {
            reveal_strlit(".metadata.yaml");
            assert(".metadata.yaml"@ =~= spec_sidecar_suffix());
        }
        let mut out: String = name.to_owned();
        out.append(".metadata.yaml");
        proof {
            assert(out@ =~= spec_sidecar_name(name@));
        }
        out
    }

    /// The sidecar of an item: `{root}/{bucket}/{name}.metadata.yaml`.
    pub fn path(root: &str, bucket: &str, name: &str) -> (r: String)
        ensures
            r@ == root@ + seq!['/'] + bucket@ + seq!['/'] + spec_sidecar_name(name@),
    {
        let bucket_dir = crate::bucket::Bucket::path(root, bucket);
        let filename = Self::metadata_filename(name);
        let r = join(bucket_dir.as_str(), filename.as_str());
        proof {
            assert(r@ =~= root@ + seq!['/'] + bucket@ + seq!['/'] + spec_sidecar_name(name@));
        }
        r
    }

    /// Serialize this record to the sidecar text.
    pub fn encode(&self) -> (r: String)
        ensures
            r@ == spec_metadata_encode(self.alias@, self.spec_custom()),
    {
        proof {
            reveal_strlit("alias: ");
            reveal_strlit("custom: ");
            reveal_strlit("\n");
            assert("alias: "@ =~= spec_alias_prefix());
            assert("custom: "@ =~= spec_custom_prefix());
            assert("\n"@ =~= seq!['\n']);
        }
        let mut out = String::from_str("alias: ");
        out.append(self.alias.as_str());
        out.append("\n");
        match &self.custom {
            Some(c) => {
                out.append("custom: ");
                out.append(c.as_str());
                out.append("\n");
            },
            None => {},
        }
        proof {
            assert(out@ =~= spec_metadata_encode(self.alias@, self.spec_custom()));
        }
        out
    }

    /// Decode a sidecar text; fails on anything the line format does not
    /// produce.
    pub fn parse(text: &str) -> (r: Result<Metadata, StorageError>)
        ensures
            match r {
                Ok(m) => m.encodable() && text@ == spec_metadata_encode(m.alias@, m.spec_custom()),
                Err(e) => e == StorageError::Serde && !metadata_text_ok(text@),
            },
    {
        proof {
            reveal_strlit("alias: ");
            reveal_strlit("custom: ");
            assert("alias: "@ =~= spec_alias_prefix());
            assert("custom: "@ =~= spec_custom_prefix());
        }
        let len = text.unicode_len();
        if !has_prefix(text, "alias: ") {
            proof {
                if metadata_text_ok(text@) {
                    let (a, c) = choose|a: Seq<char>, c: Option<Seq<char>>|
                        metadata_fields_ok(a, c) && text@ == spec_metadata_encode(a, c);
                    lemma_metadata_decomposition(text@, a, c);
                }
            }
            return Err(StorageError::Serde);
        }
        let newline = find_char(text, '\n');
        match newline {
            None => {
                proof {
                    if metadata_text_ok(text@) {
                        let (a, c) = choose|a: Seq<char>, c: Option<Seq<char>>|
                            metadata_fields_ok(a, c) && text@ == spec_metadata_encode(a, c);
                        lemma_metadata_decomposition(text@, a, c);
                        assert(text@.contains('\n'));
                    }
                }
                Err(StorageError::Serde)
            },
            Some(nl) => {
                proof {
                    assert(text@[nl as int] == '\n');
                    assert(nl >= 7) by {
                        assert(forall|j: int|
                            0 <= j < 7 ==> text@.subrange(0, 7)[j] == text@[j]);
                        assert(spec_alias_prefix()[0] == 'a');
                        assert(spec_alias_prefix()[1] == 'l');
                        assert(spec_alias_prefix()[2] == 'i');
                        assert(spec_alias_prefix()[3] == 'a');
                        assert(spec_alias_prefix()[4] == 's');
                        assert(spec_alias_prefix()[5] == ':');
                        assert(spec_alias_prefix()[6] == ' ');
                    }
                }
                let alias_part = text.substring_char(7, nl);
                if nl + 1 == len {
                    let m = Metadata { alias: alias_part.to_owned(), custom: None };
                    proof {
                        assert(!m.alias@.contains('\n')) by {
                            if m.alias@.contains('\n') {
                                let i = choose|i: int|
                                    0 <= i < m.alias@.len() && m.alias@[i] == '\n';
                                assert(text@[7 + i] == '\n');
                            }
                        }
                        assert(text@ =~= spec_metadata_encode(m.alias@, m.spec_custom()));
                    }
                    return Ok(m);
                }
                let rest = text.substring_char(nl + 1, len);
                if !has_prefix(rest, "custom: ") {
                    proof {
                        if metadata_text_ok(text@) {
                            let (a, c) = choose|a: Seq<char>, c: Option<Seq<char>>|
                                metadata_fields_ok(a, c) && text@ == spec_metadata_encode(a, c);
                            lemma_metadata_decomposition(text@, a, c);
                            crate::path::lemma_first_char_unique(
                                text@,
                                '\n',
                                nl as int,
                                7 + a.len() as int,
                            );
                            match c {
                                None => {
                                    assert(text@.len() == 8 + a.len());
                                    assert(false);
                                },
                                Some(v) => {
                                    assert(rest@ =~= text@.subrange(
                                        8 + a.len() as int,
                                        text@.len() as int,
                                    ));
                                    assert(rest@.subrange(0, 8) =~= text@.subrange(
                                        8 + a.len() as int,
                                        16 + a.len() as int,
                                    ));
                                    assert(false);
                                },
                            }
                        }
                    }
                    return Err(StorageError::Serde);
                }
                if text.get_char(len - 1) != '\n' {
                    proof {
                        if metadata_text_ok(text@) {
                            let (a, c) = choose|a: Seq<char>, c: Option<Seq<char>>|
                                metadata_fields_ok(a, c) && text@ == spec_metadata_encode(a, c);
                            lemma_metadata_decomposition(text@, a, c);
                            crate::path::lemma_first_char_unique(
                                text@,
                                '\n',
                                nl as int,
                                7 + a.len() as int,
                            );
                            match c {
                                None => {
                                    assert(text@.len() == 8 + a.len());
                                    assert(false);
                                },
                                Some(v) => {
                                    assert(false);
                                },
                            }
                        }
                    }
                    return Err(StorageError::Serde);
                }
                let custom_part = text.substring_char(nl + 1 + 8, len - 1);
                match find_char(custom_part, '\n') {
                    Some(k) => {
                        proof {
                            assert(text@[nl + 9 + k] == '\n');
                            if metadata_text_ok(text@) {
                                let (a, c) = choose|a: Seq<char>, c: Option<Seq<char>>|
                                    metadata_fields_ok(a, c) && text@ == spec_metadata_encode(
                                        a,
                                        c,
                                    );
                                lemma_metadata_decomposition(text@, a, c);
                                crate::path::lemma_first_char_unique(
                                    text@,
                                    '\n',
                                    nl as int,
                                    7 + a.len() as int,
                                );
                                match c {
                                    None => {
                                        assert(text@.len() == 8 + a.len());
                                        assert(false);
                                    },
                                    Some(v) => {
                                        assert(16 + a.len() <= nl + 9 + k < text@.len() - 1);
                                        assert(false);
                                    },
                                }
                            }
                        }
                        Err(StorageError::Serde)
                    },
                    None => {
                        let m = Metadata {
                            alias: alias_part.to_owned(),
                            custom: Some(custom_part.to_owned()),
                        };
                        proof {
                            assert(!m.alias@.contains('\n')) by {
                                if m.alias@.contains('\n') {
                                    let i = choose|i: int|
                                        0 <= i < m.alias@.len() && m.alias@[i] == '\n';
                                    assert(text@[7 + i] == '\n');
                                }
                            }
                            assert(text@ =~= spec_metadata_encode(m.alias@, m.spec_custom()));
                        }
                        Ok(m)
                    },
                }
            },
        }
    }

    /// The sidecar's content together with its full path; the content is
    /// absent, not an error, when no sidecar exists.
    pub fn file(disk: &Disk, root: &str, bucket: &str, name: &str) -> (r: Result<
        (Option<String>, String),
        StorageError,
    >)
        requires
            disk.wf(),
        ensures
            match r {
                Ok((content, p)) => p@ == root@ + seq!['/'] + bucket@ + seq!['/']
                    + spec_sidecar_name(name@) && (match content {
                    Some(c) => disk.spec_content(bucket@, spec_sidecar_name(name@)) == Some(c@),
                    None => disk.spec_content(bucket@, spec_sidecar_name(name@)) is None,
                }),
                Err(_) => false,
            },
    {
        let p = Self::path(root, bucket, name);
        let filename = Self::metadata_filename(name);
        let content = disk.read_file(bucket, filename.as_str());
        Ok((content, p))
    }

    /// Write the sidecar text of the item file `name`; the bucket directory
    /// must exist.
    pub fn write(disk: &mut Disk, bucket: &str, name: &str, content: &str) -> (r: Result<
        (),
        StorageError,
    >)
        requires
            old(disk).wf(),
            name@.len() > 0,
        ensures
            final(disk).wf(),
            final(disk).dotfile == old(disk).dotfile,
            forall|b: Seq<char>| final(disk).spec_has_bucket(b) <==> old(disk).spec_has_bucket(b),
            r is Ok <==> old(disk).spec_has_bucket(bucket@),
            r is Err ==> *final(disk) == *old(disk) && r == Err::<(), StorageError>(
                StorageError::Io,
            ),
            r is Ok ==> final(disk).spec_content(bucket@, spec_sidecar_name(name@)) == Some(
                content@,
            ),
            forall|b: Seq<char>, n: Seq<char>|
                !(b == bucket@ && n == spec_sidecar_name(name@)) ==> final(disk).spec_content(b, n)
                    == old(disk).spec_content(b, n),
            forall|b: Seq<char>| b != bucket@ ==> final(disk).spec_count(b) == old(disk).spec_count(b),
            r is Ok ==> final(disk).spec_count(bucket@) == if old(disk).spec_content(
                bucket@,
                spec_sidecar_name(name@),
            ) is Some {
                old(disk).spec_count(bucket@)
            } else {
                old(disk).spec_count(bucket@) + 1
            },
    {
        let filename = Self::metadata_filename(name);
        disk.write_file(bucket, filename.as_str(), content)
    }

    /// Whether the item file `name` has a sidecar.
    pub fn exists_in(disk: &Disk, bucket: &str, name: &str) -> (r: bool)
        requires
            disk.wf(),
        ensures
            r == (disk.spec_content(bucket@, spec_sidecar_name(name@)) is Some),
    {
        let filename = Self::metadata_filename(name);
        disk.file_exists(bucket, filename.as_str())
    }

    /// Delete the sidecar of the item file `name`; fails when it is not
    /// there.
    pub fn remove(disk: &mut Disk, bucket: &str, name: &str) -> (r: Result<(), StorageError>)
        requires
            old(disk).wf(),
        ensures
            final(disk).wf(),
            final(disk).dotfile == old(disk).dotfile,
            forall|b: Seq<char>| final(disk).spec_has_bucket(b) <==> old(disk).spec_has_bucket(b),
            r is Ok <==> old(disk).spec_content(bucket@, spec_sidecar_name(name@)) is Some,
            r is Err ==> r == Err::<(), StorageError>(StorageError::Io),
            final(disk).spec_content(bucket@, spec_sidecar_name(name@)) is None,
            forall|b: Seq<char>, n: Seq<char>|
                !(b == bucket@ && n == spec_sidecar_name(name@)) ==> final(disk).spec_content(b, n)
                    == old(disk).spec_content(b, n),
            forall|b: Seq<char>| b != bucket@ ==> final(disk).spec_count(b) == old(disk).spec_count(b),
    {
        let filename = Self::metadata_filename(name);
        if disk.remove_file(bucket, filename.as_str()) {
            Ok(())
        } else {
            Err(StorageError::Io)
        }
    }
}

} // verus!
