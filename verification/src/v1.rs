use vstd::prelude::*;

use crate::bucket::Bucket;
use crate::bucket::generated_name;
use crate::bucket::lemma_generated_name_valid;
use crate::config::Store;
use crate::error::StorageError;
use crate::metadata::Metadata;
use crate::path::lemma_path_split_unique;
use crate::path::name_valid;
use crate::path::str_eq;

verus! {

/// Why a v1 API call fails.
#[derive(Debug, Clone, Copy, PartialEq, Eq, Structural)]
pub enum ApiError {
    /// The storage layer failed underneath the call.
    Storage(StorageError),
    /// A collaborator misbehaved: configuration, serialization or
    /// transport.
    InternalServerError,
    /// The caller's bearer credential did not pass.
    Unauthorized,
}

impl ApiError {
    /// The description each error kind carries.
    pub open spec fn spec_message(self) -> Seq<char> {
        match self {
            ApiError::Storage(e) => "storage error: "@ + e.spec_message(),
            ApiError::InternalServerError => "internal server error"@,
            ApiError::Unauthorized => "unauthorized"@,
        }
    }

    /// A short human-readable description of the error.
    pub fn message(&self) -> (r: String)
        ensures
            r@ == self.spec_message(),
    {
        match self {
            ApiError::Storage(e) => {
                let mut out = String::from_str("storage error: ");
                out.append(e.message());
                out
            },
            ApiError::InternalServerError => String::from_str("internal server error"),
            ApiError::Unauthorized => String::from_str("unauthorized"),
        }
    }
}

impl From<StorageError> for ApiError {
    fn from(value: StorageError) -> Self {
        ApiError::Storage(value)
    }
}

impl vstd::std_specs::convert::FromSpecImpl<StorageError> for ApiError {
    open spec fn obeys_from_spec() -> bool {
        true
    }

    open spec fn from_spec(t: StorageError) -> Self {
        ApiError::Storage(t)
    }
}

/// The operation a caller attempts, named to the authorization service.
#[derive(Debug, Clone, Copy, PartialEq, Eq, Structural)]
pub enum Operation {
    Upload,
    Replace,
    ReplaceActive,
    MetadataSet,
    MetadataGet,
    Delete,
}

impl Operation {
    /// The operation's name as the wire format spells it.
    pub open spec fn spec_name(self) -> Seq<char> {
        match self {
            Operation::Upload => seq!['U', 'p', 'l', 'o', 'a', 'd'],
            Operation::Replace => seq!['R', 'e', 'p', 'l', 'a', 'c', 'e'],
            Operation::ReplaceActive => seq![
                'R',
                'e',
                'p',
                'l',
                'a',
                'c',
                'e',
                'A',
                'c',
                't',
                'i',
                'v',
                'e',
            ],
            Operation::MetadataSet => seq![
                'M',
                'e',
                't',
                'a',
                'd',
                'a',
                't',
                'a',
                'S',
                'e',
                't',
            ],
            Operation::MetadataGet => seq![
                'M',
                'e',
                't',
                'a',
                'd',
                'a',
                't',
                'a',
                'G',
                'e',
                't',
            ],
            Operation::Delete => seq!['D', 'e', 'l', 'e', 't', 'e'],
        }
    }

    /// The operation's display name.
    pub fn name(&self) -> (r: &'static str)
        ensures
            r@ == self.spec_name(),
    {
        proof {
            reveal_strlit("Upload");
            reveal_strlit("Replace");
            reveal_strlit("ReplaceActive");
            reveal_strlit("MetadataSet");
            reveal_strlit("MetadataGet");
            reveal_strlit("Delete");
            assert("Upload"@ =~= Operation::Upload.spec_name());
            assert("Replace"@ =~= Operation::Replace.spec_name());
            assert("ReplaceActive"@ =~= Operation::ReplaceActive.spec_name());
            assert("MetadataSet"@ =~= Operation::MetadataSet.spec_name());
            assert("MetadataGet"@ =~= Operation::MetadataGet.spec_name());
            assert("Delete"@ =~= Operation::Delete.spec_name());
        }
        match self {
            Operation::Upload => "Upload",
            Operation::Replace => "Replace",
            Operation::ReplaceActive => "ReplaceActive",
            Operation::MetadataSet => "MetadataSet",
            Operation::MetadataGet => "MetadataGet",
            Operation::Delete => "Delete",
        }
    }
}

/// How one URL segment extends a URL under construction: a separator comes
/// between them unless either side already provides one or nothing has been
/// built yet.
pub open spec fn spec_url_join(cur: Seq<char>, seg: Seq<char>) -> Seq<char> {
    if cur.len() > 0 && cur[cur.len() - 1] != '/' && !(seg.len() > 0 && seg[0] == '/') {
        cur + seq!['/'] + seg
    } else {
        cur + seg
    }
}

/// Builds the URL of a v1 endpoint segment by segment.
pub struct UrlBuilder(pub String);

impl UrlBuilder {
    /// Start from a base domain, under its `v1` prefix.
    pub fn new(base: &str) -> (r: Self)
        ensures
            r.0@ == spec_url_join(spec_url_join(Seq::<char>::empty(), base@), seq!['v', '1']),
    {
        proof {
            reveal_strlit("v1");
            assert("v1"@ =~= seq!['v', '1']);
        }
        Self(String::new()).join(base).join("v1")
    }

    /// Append one segment.
    pub fn join(self, segment: &str) -> (r: Self)
        ensures
            r.0@ == spec_url_join(self.0@, segment@),
    {
        proof {
            reveal_strlit("/");
            assert("/"@ =~= seq!['/']);
        }
        let mut out = self.0;
        let len = out.as_str().unicode_len();
        if len > 0 {
            let ends_with_separator = out.as_str().get_char(len - 1) == '/';
            let starts_with_separator = if segment.unicode_len() > 0 {
                segment.get_char(0) == '/'
            } else {
                false
            };
            if !ends_with_separator && !starts_with_separator {
                out.append("/");
            }
        }
        out.append(segment);
        UrlBuilder(out)
    }

    /// The URL text built so far.
    pub fn as_str(&self) -> (r: &str)
        ensures
            r@ == self.0@,
    {
        self.0.as_str()
    }
}

/// Marks a request whose `Authorization` header matched the configured
/// password.
pub struct BearerPassword;

impl BearerPassword {
    /// The decision inside the extractor: a password must be configured, the
    /// request must carry one, and the two must match character for
    /// character.
    pub fn accept(expected: Option<&str>, provided: Option<&str>) -> (r: Result<
        BearerPassword,
        ApiError,
    >)
        ensures
            match r {
                Ok(_) => expected matches Some(e) && provided matches Some(p) && e@ == p@,
                Err(x) => x == ApiError::Unauthorized && !(expected matches Some(e)
                    && provided matches Some(p) && e@ == p@),
            },
    {
        match (expected, provided) {
            (Some(e), Some(p)) => {
                if str_eq(e, p) {
                    Ok(BearerPassword)
                } else {
                    Err(ApiError::Unauthorized)
                }
            },
            _ => Err(ApiError::Unauthorized),
        }
    }
}

/// Holds the response from the successful authentication of a bearer token.
#[derive(Debug, Clone)]
pub struct AuthenticatedBearerIdentifier(pub String);

impl AuthenticatedBearerIdentifier {
    /// The identifier the authorization service returned.
    pub fn value(&self) -> (r: &str)
        ensures
            r@ == self.0@,
    {
        self.0.as_str()
    }
}

/// The decision inside bearer authentication: a 200-status response with
/// its body yields the authenticated identifier; any other status, or a
/// missing body, is unauthorized.
pub fn authenticate_outcome(status_ok: bool, body: Option<String>) -> (r: Result<
    AuthenticatedBearerIdentifier,
    ApiError,
>)
    ensures
        match r {
            Ok(id) => status_ok && (match body {
                Some(b) => id.0@ == b@,
                None => false,
            }),
            Err(e) => e == ApiError::Unauthorized && (!status_ok || body is None),
        },
{
    if status_ok {
        match body {
            Some(b) => Ok(AuthenticatedBearerIdentifier(b)),
            None => Err(ApiError::Unauthorized),
        }
    } else {
        Err(ApiError::Unauthorized)
    }
}

/// The v1 API's own configuration, read from disk at startup.
#[derive(Debug)]
pub struct Config {
    pub enabled: bool,
    /// The server sends a POST request to this endpoint to authenticate an
    /// operation.
    pub authentication_endpoint: String,
    /// The server sends a POST request to this endpoint to report the
    /// completed operation.
    pub completion_endpoint: String,
}

impl Config {
    /// Assemble a configuration from its decoded fields.
    pub fn new(enabled: bool, authentication_endpoint: String, completion_endpoint: String) -> (r:
        Config)
        ensures
            r.enabled == enabled,
            r.authentication_endpoint@ == authentication_endpoint@,
            r.completion_endpoint@ == completion_endpoint@,
    {
        Config { enabled, authentication_endpoint, completion_endpoint }
    }

    /// Whether the v1 API is switched on.
    pub fn enabled(&self) -> (r: bool)
        ensures
            r == self.enabled,
    {
        self.enabled
    }

    /// The endpoint that authenticates operations.
    pub fn authentication_endpoint(&self) -> (r: &str)
        ensures
            r@ == self.authentication_endpoint@,
    {
        self.authentication_endpoint.as_str()
    }

    /// The endpoint that hears of completed operations.
    pub fn completion_endpoint(&self) -> (r: &str)
        ensures
            r@ == self.completion_endpoint@,
    {
        self.completion_endpoint.as_str()
    }
}

/// Index `p` holds the dot that starts the extension of the final path
/// component of `s`: a dot with no later dot or separator, and not the
/// component's first character.
pub open spec fn extension_split(s: Seq<char>, p: int) -> bool {
    &&& 0 <= p < s.len()
    &&& s[p] == '.'
    &&& forall|j: int| p < j < s.len() ==> s[j] != '/' && s[j] != '.'
    &&& p > 0
    &&& s[p - 1] != '/'
}

/// The index of the extension dot of `s`, if the final component has an
/// extension.
pub fn find_extension_dot(s: &str) -> (r: Option<usize>)
    ensures
        match r {
            Some(p) => extension_split(s@, p as int),
            None => forall|p: int| !extension_split(s@, p),
        },
{
    let len = s.unicode_len();
    let mut i: usize = len;
    while i > 0
        invariant
            0 <= i <= len,
            len == s@.len(),
            forall|j: int| i <= j < len ==> s@[j] != '/' && s@[j] != '.',
        decreases i,
    {
        let c = s.get_char(i - 1);
        if c == '/' {
            proof {
                assert forall|p: int| !extension_split(s@, p) by {
                    if extension_split(s@, p) {
                        assert(p < i - 1);
                        assert(s@[i - 1] == '/');
                    }
                }
            }
            return None;
        }
        if c == '.' {
            if i == 1 || s.get_char(i - 2) == '/' {
                proof {
                    assert forall|p: int| !extension_split(s@, p) by {
                        if extension_split(s@, p) {
                            if p == i - 1 {
                            } else {
                                assert(p < i - 1);
                                assert(s@[i - 1] == '.');
                            }
                        }
                    }
                }
                return None;
            }
            return Some(i - 1);
        }
        i = i - 1;
    }
    proof {
        assert forall|p: int| !extension_split(s@, p) by {
            if extension_split(s@, p) {
                assert(s@[p] == '.');
            }
        }
    }
    None
}

/// What an upload becomes: the stored file name — the unique id, extended
/// with the uploaded file's extension when it has one — and the metadata
/// record, whose alias is the uploaded file's name when the caller gave
/// one, else the unique id, and whose custom value is passed through.
pub fn upload_parts(user_filename: Option<&str>, unique_id: &str, custom: Option<String>) -> (r: (
    String,
    Metadata,
))
    ensures
        ({
            let (filename, m) = r;
            &&& m.alias@ == (match user_filename {
                Some(u) => u@,
                None => unique_id@,
            })
            &&& m.spec_custom() == (match custom {
                Some(c) => Some(c@),
                None => None::<Seq<char>>,
            })
            &&& (match user_filename {
                None => filename@ == unique_id@,
                Some(u) => {
                    ||| (filename@ == unique_id@ && (forall|p: int| !extension_split(u@, p)))
                    ||| (exists|p: int|
                        extension_split(u@, p) && filename@ == unique_id@ + seq!['.'] + u@.subrange(
                            p + 1,
                            u@.len() as int,
                        ))
                },
            })
        }),
{
    proof {
        reveal_strlit(".");
        assert("."@ =~= seq!['.']);
    }
    let mut filename: String = unique_id.to_owned();
    let alias: String = match user_filename {
        Some(u) => {
            match find_extension_dot(u) {
                Some(p) => {
                    let ulen = u.unicode_len();
                    proof {
                        assert(p < ulen);
                    }
                    let ext = u.substring_char(p + 1, ulen);
                    filename.append(".");
                    filename.append(ext);
                    proof {
                        assert(extension_split(u@, p as int) && filename@ == unique_id@
                            + seq!['.'] + u@.subrange(p + 1, u@.len() as int));
                    }
                },
                None => {},
            }
            u.to_owned()
        },
        None => unique_id.to_owned(),
    };
    (filename, Metadata { alias, custom })
}

/// A random item id that collides with nothing in the bucket, sought over
/// a bounded number of attempts.
pub fn next_unique_id(store: &Store, bucket: &str) -> (r: Result<String, ApiError>)
    requires
        store.wf(),
        name_valid(bucket@),
    ensures
        match r {
            Ok(id) => store.initialized() && generated_name(id@) && name_valid(id@)
                && store.disk.spec_content(bucket@, id@) is None,
            Err(e) => if store.initialized() {
                e == ApiError::InternalServerError
            } else {
                e == ApiError::Storage(StorageError::ConfigNotSet)
            },
        },
{
    let mut attempts: usize = 0;
    while attempts < 100
        invariant
            attempts <= 100,
            store.wf(),
            name_valid(bucket@),
            attempts > 0 ==> store.initialized(),
        decreases 100 - attempts,
    {
        let id = Bucket::new_random_name();
        proof {
            lemma_generated_name_valid(id@);
        }
        let path = crate::storage::storage_path(bucket, id.as_str());
        proof {
            lemma_path_split_unique(path@, bucket@, id@);
            crate::path::lemma_parseable_split(path@);
            if path@[0] == '/' {
                assert(bucket@[0] == '/');
                assert(bucket@.contains('/'));
            }
        }
        let present = crate::storage::exists_at(store, path.as_str());
        match present {
            Ok(true) => {},
            Ok(false) => {
                return Ok(id);
            },
            Err(e) => {
                return Err(ApiError::Storage(e));
            },
        }
        attempts = attempts + 1;
    }
    Err(ApiError::InternalServerError)
}

/// The file name to serve an item under: its recorded alias when metadata
/// holds one, else the item name itself.
pub fn alias_for(metadata: Option<&Metadata>, item: &str) -> (r: String)
    ensures
        r@ == (match metadata {
            Some(m) => m.alias@,
            None => item@,
        }),
{
    match metadata {
        Some(m) => m.alias.clone(),
        None => item.to_owned(),
    }
}

impl Metadata {
    /// This record with its custom value replaced, its alias kept.
    pub fn with_custom(self, custom: Option<String>) -> (r: Metadata)
        ensures
            r.alias@ == self.alias@,
            r.spec_custom() == (match custom {
                Some(c) => Some(c@),
                None => None::<Seq<char>>,
            }),
    {
        Metadata { alias: self.alias, custom }
    }
}

} // verus!
