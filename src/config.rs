//! Defaults of the EventStoreDB metrics source.
use vstd::prelude::*;
use vstd::string::StringExecFns;

verus! {

/// The default number of seconds between two scrapes.
pub fn default_scrape_interval_secs() -> (r: u64)
    ensures
        r == 15,
{
    15
}

/// The default stats endpoint.
pub fn default_endpoint() -> (r: String)
    ensures
        r@ == "https://localhost:2113/stats"@,
{
    String::from_str("https://localhost:2113/stats")
}

} // verus!
