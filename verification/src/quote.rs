use vstd::prelude::*;

verus! {

/// What the library reads of a stored quote: its symbol and its source timestamp (epoch
/// seconds). The quoted value is a float and stays with the caller.
pub struct Quote {
    pub symbol: String,
    pub ts: i64,
}

} // verus!
