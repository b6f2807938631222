use vstd::prelude::*;

verus! {

/// Fresh download attempts after the resumed one.
pub const FETCH_RETRIES: u64 = 3;

/// Fetch tasks that may run at once.
pub const MAX_CONCURRENT_FETCHES: usize = 16;

} // verus!
