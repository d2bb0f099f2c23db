use vstd::prelude::*;

verus! {

/// The maximum number of items a single bucket stores before a new bucket
/// is created to hold new items.
pub const BUCKET_SIZE_MAX: usize = 10_000;

} // verus!
