use vstd::prelude::*;

verus! {

/// The error kinds of the storage layer.
///
/// Every fallible storage operation reports one of these; no retries and no
/// local recovery happen below this boundary.
#[derive(Debug, Clone, Copy, PartialEq, Eq, Structural)]
pub enum StorageError {
    /// A storage operation ran before `initialize`.
    ConfigNotSet,
    /// `initialize` ran a second time on the same store.
    ConfigAlreadySet,
    /// An underlying filesystem failure; in particular, opening, writing or
    /// removing a content file under a bucket that does not hold it.
    Io,
    /// A dot-file or metadata sidecar held text that does not decode.
    Serde,
    /// An exclusive-access section failed while held, so the shared
    /// configuration can no longer be trusted.
    PoisonError,
    /// No collision-free name was found within the bounded number of
    /// attempts.
    NamespaceExhausted,
    /// A storage path whose bucket component is empty.
    ReadMissingBucket,
    /// A storage path with no item component after the separator split.
    ReadMissingItem,
}

impl StorageError {
    /// The description each error kind carries.
    pub open spec fn spec_message(self) -> Seq<char> {
        match self {
            StorageError::ConfigNotSet => "config not set"@,
            StorageError::ConfigAlreadySet => "config already set"@,
            StorageError::Io => "io error"@,
            StorageError::Serde => "serde error"@,
            StorageError::PoisonError => "rwlock poison error"@,
            StorageError::NamespaceExhausted => "no unused name found"@,
            StorageError::ReadMissingBucket => "read failure, missing bucket name"@,
            StorageError::ReadMissingItem => "read failure, missing item name"@,
        }
    }

    /// A short human-readable description of the error.
    pub fn message(&self) -> (r: &'static str)
        ensures
            r@ == self.spec_message(),
    {
        match self {
            StorageError::ConfigNotSet => "config not set",
            StorageError::ConfigAlreadySet => "config already set",
            StorageError::Io => "io error",
            StorageError::Serde => "serde error",
            StorageError::PoisonError => "rwlock poison error",
            StorageError::NamespaceExhausted => "no unused name found",
            StorageError::ReadMissingBucket => "read failure, missing bucket name",
            StorageError::ReadMissingItem => "read failure, missing item name",
        }
    }
}

} // verus!
