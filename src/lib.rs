//! Host telemetry: the address of the interface that owns a configured IPv4 prefix,
//! and a one-line report of CPU load, memory use and CPU temperature, computed from
//! the interface listing, the text of the uptime and free reports and the thermal
//! readings that the caller gathers.
use vstd::prelude::*;

pub mod address;
pub mod metrics;
pub mod text;

verus! {

/// Body of the liveness answer.
pub fn ok() -> (r: String)
    ensures
        r@ == "ok"@,
{
    String::from_str("ok")
}

} // verus!
