//! What a broker computes before it registers itself in the cluster: the
//! address it announces and the pace at which it renews its lease.

use vstd::prelude::*;
use vstd::string::*;

verus! {

/// The address that a broker at `broker_addr` announces.
pub open spec fn broker_uri_of(broker_addr: Seq<char>, is_secure: bool) -> Seq<char> {
    if is_secure {
        "https://"@ + broker_addr
    } else {
        "http://"@ + broker_addr
    }
}

/// The address that a broker at `broker_addr` announces: the address behind
/// the scheme, which is `https` for a secure broker and `http` for another.
pub fn broker_uri(broker_addr: &str, is_secure: bool) -> (uri: String)
    ensures
        uri@ == broker_uri_of(broker_addr@, is_secure),
{
    let scheme = if is_secure {
        "https://"
    } else {
        "http://"
    };
    String::from_str(scheme).concat(broker_addr)
}

/// The number of seconds between two renewals of a lease of `ttl` seconds:
/// a third of the lease. A negative `ttl` counts as the unsigned number with
/// the same bits.
pub fn lease_renewal_secs(ttl: i64) -> (secs: u64)
    ensures
        secs == (if ttl >= 0 {
            ttl as int
        } else {
            ttl + 0x1_0000_0000_0000_0000
        }) / 3,
{
    let unsigned: u64 = if ttl >= 0 {
        ttl as u64
    } else {
        // two's complement: u64::MAX - (-(ttl + 1))
        u64::MAX - ((-(ttl + 1)) as u64)
    };
    unsigned / 3
}

} // verus!
