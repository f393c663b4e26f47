//! Discovery plumbing: credentials and the manager that owns the handle to
//! the device store. Target parsing and the discovery loop itself are
//! outward-facing work and live outside the library.

use vstd::prelude::*;

verus! {

/// SNMPv2c credentials: a cleartext community string.
#[derive(Debug, Clone)]
pub struct SnmpCredentials {
    pub community: String,
}

/// Owns what a discovery run needs: the handle to the device store. The
/// handle is opaque to the library — the storage collaborator alone gives
/// it meaning — so the manager is generic in it.
pub struct DiscoveryManager<P> {
    pub db_pool: P,
}

impl<P> DiscoveryManager<P> {
    pub fn new(db_pool: P) -> (m: Self)
        ensures
            m.db_pool == db_pool,
    {
        DiscoveryManager { db_pool }
    }
}

} // verus!
