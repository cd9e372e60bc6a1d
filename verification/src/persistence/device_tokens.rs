//! Paired devices and when a pairing lapses.

use vstd::prelude::*;

verus! {

/// One paired device: its token, its name, when the pairing lapses (in
/// milliseconds since the epoch; never, where there is no such time), and its
/// SSH public key, where it has one.
#[derive(Debug, Clone, PartialEq, Eq)]
pub struct DeviceRecord {
    pub label: String,
    pub token: String,
    pub expires_at: Option<i64>,
    pub ssh_key: Option<String>,
}

/// Whether a pairing that lapses at `expires_at` has lapsed at `now`.
pub open spec fn lapsed(expires_at: Option<i64>, now: i64) -> bool {
    expires_at matches Some(e) && e <= now
}

impl DeviceRecord {
    /// Whether this pairing has lapsed at `now_ms`. The instant of the expiry
    /// is out already.
    pub fn is_expired(&self, now_ms: i64) -> (r: bool)
        ensures
            r == lapsed(self.expires_at, now_ms),
    {
        match self.expires_at {
            Some(e) => e <= now_ms,
            None => false,
        }
    }
}

/// A pairing without an expiry never lapses; one with an expiry lapses at that
/// instant and stays lapsed.
pub proof fn law_expiry_is_final(expires_at: Option<i64>, now: i64, later: i64)
    requires
        now <= later,
    ensures
        expires_at is None ==> !lapsed(expires_at, now),
        expires_at matches Some(e) ==> lapsed(expires_at, e),
        lapsed(expires_at, now) ==> lapsed(expires_at, later),
{
}

/// A pairing holds up to the moment that it is made to last to, and not at it.
pub proof fn law_pairing_holds_until_it_lapses(e: i64, now: i64)
    ensures
        lapsed(Some(e), now) <==> now >= e,
        !lapsed(None, now),
{
}

} // verus!
