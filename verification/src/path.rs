use vstd::prelude::*;

verus! {

/// A usable bucket or item name: non-empty and free of the path separator.
pub open spec fn name_valid(s: Seq<char>) -> bool {
    s.len() > 0 && !s.contains('/')
}

/// Index `k` holds a separator.
pub open spec fn slash_at(s: Seq<char>, k: int) -> bool {
    0 <= k < s.len() && s[k] == '/'
}

/// Index `k` holds the first separator of `s`.
pub open spec fn is_first_slash(s: Seq<char>, k: int) -> bool {
    slash_at(s, k) && (forall|j: int| 0 <= j < k ==> s[j] != '/')
}

/// `s` holds a separator somewhere.
pub open spec fn has_slash(s: Seq<char>) -> bool {
    exists|k: int| slash_at(s, k)
}

/// The externally visible identifier of an item: `{bucket}/{item}`.
pub open spec fn spec_storage_path(bucket: Seq<char>, item: Seq<char>) -> Seq<char> {
    bucket + seq!['/'] + item
}

/// `s` splits on its first separator into a non-empty bucket part and a
/// non-empty item part.
pub open spec fn parseable(s: Seq<char>) -> bool {
    exists|k: int| is_first_slash(s, k) && 0 < k && k + 1 < s.len()
}

/// `s` is exactly `{b}/{i}` with a usable bucket part and a non-empty item
/// part: the one way a storage path decomposes.
pub open spec fn path_split(s: Seq<char>, b: Seq<char>, i: Seq<char>) -> bool {
    s == spec_storage_path(b, i) && !b.contains('/') && b.len() > 0 && i.len() > 0
}

/// The bucket and item parts of a storage path, if it has both.
pub open spec fn spec_path_parts(s: Seq<char>) -> Option<(Seq<char>, Seq<char>)> {
    if exists|b: Seq<char>, i: Seq<char>| path_split(s, b, i) {
        Some(choose|b: Seq<char>, i: Seq<char>| path_split(s, b, i))
    } else {
        None
    }
}

/// The error a malformed storage path draws: a missing bucket part when the
/// text opens with the separator, a missing item part otherwise.
pub open spec fn spec_parse_error(s: Seq<char>, e: crate::error::StorageError) -> bool {
    match e {
        crate::error::StorageError::ReadMissingBucket => s.len() > 0 && s[0] == '/',
        crate::error::StorageError::ReadMissingItem => !parseable(s) && (s.len() == 0 || s[0]
            != '/'),
        _ => false,
    }
}

/// The first separator of a sequence sits at one index only.
pub proof fn lemma_first_slash_unique(s: Seq<char>, k1: int, k2: int)
    requires
        is_first_slash(s, k1),
        is_first_slash(s, k2),
    ensures
        k1 == k2,
{
}

/// A storage path built from a separator-free bucket name decomposes in one
/// way only: parsing is the exact inverse of formatting.
pub proof fn lemma_storage_path_round_trip(
    bucket: Seq<char>,
    item: Seq<char>,
    b2: Seq<char>,
    i2: Seq<char>,
)
    requires
        name_valid(bucket),
        item.len() > 0,
        !b2.contains('/'),
        spec_storage_path(bucket, item) == spec_storage_path(b2, i2),
    ensures
        b2 == bucket,
        i2 == item,
{
    let s = spec_storage_path(bucket, item);
    assert(s[bucket.len() as int] == '/');
    assert(forall|j: int| 0 <= j < bucket.len() ==> s[j] == bucket[j] && s[j] != '/');
    assert(is_first_slash(s, bucket.len() as int));
    assert(s == spec_storage_path(b2, i2));
    assert(s[b2.len() as int] == '/');
    assert(forall|j: int| 0 <= j < b2.len() ==> s[j] == b2[j] && s[j] != '/');
    assert(is_first_slash(s, b2.len() as int));
    lemma_first_slash_unique(s, bucket.len() as int, b2.len() as int);
    assert(b2 =~= bucket);
    assert(i2.len() == item.len());
    assert(forall|j: int| 0 <= j < item.len() ==> item[j] == s[bucket.len() + 1 + j]);
    assert(forall|j: int| 0 <= j < i2.len() ==> i2[j] == s[b2.len() + 1 + j]);
    assert(i2 =~= item);
}

/// A storage path decomposes in one way only, so `spec_path_parts` returns
/// exactly the parts any split exhibits.
pub proof fn lemma_path_split_unique(s: Seq<char>, b: Seq<char>, i: Seq<char>)
    requires
        path_split(s, b, i),
    ensures
        spec_path_parts(s) == Some((b, i)),
{
    assert(exists|b2: Seq<char>, i2: Seq<char>| path_split(s, b2, i2));
    let (b2, i2) = choose|b2: Seq<char>, i2: Seq<char>| path_split(s, b2, i2);
    lemma_storage_path_round_trip(b2, i2, b, i);
}

/// A storage path has both parts exactly when it is parseable.
pub proof fn lemma_parseable_split(s: Seq<char>)
    ensures
        parseable(s) <==> (spec_path_parts(s) is Some),
{
    if parseable(s) {
        let k = choose|k: int| is_first_slash(s, k) && 0 < k && k + 1 < s.len();
        let b = s.subrange(0, k);
        let i = s.subrange(k + 1, s.len() as int);
        assert(!b.contains('/')) by {
            if b.contains('/') {
                let j = choose|j: int| 0 <= j < b.len() && b[j] == '/';
                assert(s[j] == '/');
            }
        }
        assert(s =~= spec_storage_path(b, i));
        assert(path_split(s, b, i));
    }
    if spec_path_parts(s) is Some {
        let (b, i) = choose|b: Seq<char>, i: Seq<char>| path_split(s, b, i);
        assert(s[b.len() as int] == '/');
        assert(forall|j: int| 0 <= j < b.len() ==> s[j] == b[j] && s[j] != '/');
        assert(is_first_slash(s, b.len() as int) && 0 < b.len() && b.len() + 1 < s.len());
        assert(parseable(s));
    }
}

/// Character-exact equality of two string slices.
pub fn str_eq(a: &str, b: &str) -> (r: bool)
    ensures
        r == (a@ == b@),
{
    let owned_a: String = a.to_owned();
    let owned_b: String = b.to_owned();
    owned_a == owned_b
}

/// Index `k` holds the first occurrence of `c` in `s`.
pub open spec fn is_first_char(s: Seq<char>, c: char, k: int) -> bool {
    0 <= k < s.len() && s[k] == c && (forall|j: int| 0 <= j < k ==> s[j] != c)
}

/// The first occurrence of a character sits at one index only.
pub proof fn lemma_first_char_unique(s: Seq<char>, c: char, k1: int, k2: int)
    requires
        is_first_char(s, c, k1),
        is_first_char(s, c, k2),
    ensures
        k1 == k2,
{
}

/// The index of the first occurrence of `c` in `s`, if any.
pub fn find_char(s: &str, c: char) -> (r: Option<usize>)
    ensures
        match r {
            Some(k) => is_first_char(s@, c, k as int),
            None => !s@.contains(c),
        },
{
    let len = s.unicode_len();
    let mut i: usize = 0;
    while i < len
        invariant
            0 <= i <= len,
            len == s@.len(),
            forall|j: int| 0 <= j < i ==> s@[j] != c,
        decreases len - i,
    {
        if s.get_char(i) == c {
            return Some(i);
        }
        i = i + 1;
    }
    proof {
        if s@.contains(c) {
            let k = choose|k: int| 0 <= k < s@.len() && s@[k] == c;
            assert(s@[k] != c);
        }
    }
    None
}

/// The index of the first separator of `s`, if any.
pub fn find_first_slash(s: &str) -> (r: Option<usize>)
    ensures
        match r {
            Some(k) => is_first_slash(s@, k as int),
            None => !has_slash(s@),
        },
{
    let r = find_char(s, '/');
    proof {
        match r {
            Some(k) => {},
            None => {
                if has_slash(s@) {
                    let k = choose|k: int| slash_at(s@, k);
                    assert(s@.contains('/'));
                }
            },
        }
    }
    r
}

/// Whether `s` begins with the characters of `prefix`.
pub fn has_prefix(s: &str, prefix: &str) -> (r: bool)
    ensures
        r == (s@.len() >= prefix@.len() && s@.subrange(0, prefix@.len() as int) == prefix@),
{
    let slen = s.unicode_len();
    let plen = prefix.unicode_len();
    if plen > slen {
        proof {
            assert(s@.len() < prefix@.len());
        }
        return false;
    }
    let head = s.substring_char(0, plen);
    str_eq(head, prefix)
}

/// Whether any character of `s` is a separator.
pub fn contains_slash(s: &str) -> (r: bool)
    ensures
        r == has_slash(s@),
{
    match find_first_slash(s) {
        Some(_) => true,
        None => false,
    }
}

/// `left` joined to `right` with the path separator between them.
pub fn join(left: &str, right: &str) -> (r: String)
    ensures
        r@ == left@ + seq!['/'] + right@,
{
    proof {
        reveal_strlit("/");
    }
    let mut out: String = left.to_owned();
    out.append("/");
    out.append(right);
    proof {
        assert("/"@ =~= seq!['/']);
        assert(out@ =~= left@ + seq!['/'] + right@);
    }
    out
}

} // verus!
