//! The claim registry: which connection is hosting which session.
//!
//! A claim belongs to a connection and lasts until it is released or the
//! connection ends. It is not a lock on the session; it says who is
//! responsible for it.

use crate::assoc::{assoc_get, assoc_ordered, assoc_put, assoc_remove, law_assoc_put_get,
    law_assoc_remove_get, lemma_assoc_get, StrMap};
use crate::text::{lemma_less_total, less};
use vstd::prelude::*;

verus! {

/// The identity of one client connection. 0 is never given out, so it can
/// stand for no connection.
pub type ConnId = u64;

/// A claimed uid and the connection that holds it.
#[derive(Debug, Clone, PartialEq, Eq)]
pub struct ClaimInfo {
    pub uid: String,
    pub owner: ConnId,
}

/// The outcome of a claim.
#[derive(Debug, Clone, Copy, PartialEq, Eq, Structural)]
pub enum ClaimOutcome {
    /// The caller owns the uid now.
    Granted,
    /// Another connection owns it; this is who.
    Denied(ConnId),
}

impl ClaimOutcome {
    /// Whether the claim was granted.
    pub fn granted(self) -> (r: bool)
        ensures
            r == (self is Granted),
    {
        match self {
            ClaimOutcome::Granted => true,
            ClaimOutcome::Denied(_) => false,
        }
    }

    /// The incumbent owner when denied.
    pub fn owner(self) -> (r: Option<ConnId>)
        ensures
            r == (match self {
                ClaimOutcome::Granted => None,
                ClaimOutcome::Denied(c) => Some(c),
            }),
    {
        match self {
            ClaimOutcome::Granted => None,
            ClaimOutcome::Denied(c) => Some(c),
        }
    }
}

/// The claims, each a uid and its owner, in order of the uids.
pub type Claims = Seq<(Seq<char>, u64)>;

/// What a claim of `uid` by `conn` comes to.
pub open spec fn claim_outcome(s: Claims, uid: Seq<char>, conn: u64) -> ClaimOutcome {
    match assoc_get(s, uid) {
        Some(owner) => if owner == conn {
            ClaimOutcome::Granted
        } else {
            ClaimOutcome::Denied(owner)
        },
        None => ClaimOutcome::Granted,
    }
}

/// The claims after a claim of `uid` by `conn`.
pub open spec fn claimed(s: Claims, uid: Seq<char>, conn: u64) -> Claims {
    match assoc_get(s, uid) {
        Some(_) => s,
        None => assoc_put(s, uid, conn),
    }
}

/// The claims after `conn` gave `uid` up: unchanged, where it was not its own.
pub open spec fn released(s: Claims, uid: Seq<char>, conn: u64) -> Claims {
    if assoc_get(s, uid) == Some(conn) {
        assoc_remove(s, uid)
    } else {
        s
    }
}

/// The claims that are not held by `conn`.
pub open spec fn not_held_by(s: Claims, conn: u64) -> Claims
    decreases s.len(),
{
    if s.len() == 0 {
        s
    } else if s.last().1 == conn {
        not_held_by(s.drop_last(), conn)
    } else {
        not_held_by(s.drop_last(), conn).push(s.last())
    }
}

/// Which claims are left when those of a connection go.
pub proof fn lemma_not_held_members(s: Claims, conn: u64)
    ensures
        not_held_by(s, conn).len() <= s.len(),
        forall|i: int|
            0 <= i < not_held_by(s, conn).len() ==> s.contains(
                #[trigger] not_held_by(s, conn)[i],
            ) && not_held_by(s, conn)[i].1 != conn,
        forall|i: int|
            0 <= i < s.len() && (#[trigger] s[i]).1 != conn ==> not_held_by(s, conn).contains(
                s[i],
            ),
        (forall|i: int| 0 <= i < s.len() ==> (#[trigger] s[i]).1 != conn) ==> not_held_by(s, conn)
            == s,
        (exists|i: int| 0 <= i < s.len() && (#[trigger] s[i]).1 == conn) ==> not_held_by(
            s,
            conn,
        ).len() < s.len(),
    decreases s.len(),
{
    if s.len() > 0 {
        let d = s.drop_last();
        let t = not_held_by(s, conn);
        let u = not_held_by(d, conn);
        lemma_not_held_members(d, conn);
        assert(s[s.len() - 1] == s.last());
        assert forall|i: int| 0 <= i < t.len() implies s.contains(#[trigger] t[i]) && t[i].1
            != conn by {
            if i < u.len() {
                assert(t[i] == u[i]);
                let m = choose|m: int| 0 <= m < d.len() && d[m] == u[i];
                assert(s[m] == u[i]);
            }
        }
        assert forall|i: int| 0 <= i < s.len() && (#[trigger] s[i]).1 != conn implies t.contains(
            s[i],
        ) by {
            if i < d.len() {
                assert(d[i] == s[i]);
                let m = choose|m: int| 0 <= m < u.len() && u[m] == s[i];
                assert(t[m] == s[i]);
            } else {
                assert(t[t.len() - 1] == s[i]);
            }
        }
        if forall|i: int| 0 <= i < s.len() ==> (#[trigger] s[i]).1 != conn {
            assert forall|i: int| 0 <= i < d.len() implies (#[trigger] d[i]).1 != conn by {
                assert(d[i] == s[i]);
            }
            assert(t =~= s);
        }
        if exists|i: int| 0 <= i < s.len() && (#[trigger] s[i]).1 == conn {
            let i = choose|i: int| 0 <= i < s.len() && (#[trigger] s[i]).1 == conn;
            if i < d.len() {
                assert(d[i].1 == conn);
            }
        }
    }
}

proof fn lemma_not_held_ordered(s: Claims, conn: u64)
    requires
        assoc_ordered(s),
    ensures
        assoc_ordered(not_held_by(s, conn)),
    decreases s.len(),
{
    if s.len() > 0 {
        let d = s.drop_last();
        let t = not_held_by(s, conn);
        let u = not_held_by(d, conn);
        assert forall|i: int, j: int| 0 <= i < j < d.len() implies less(
            (#[trigger] d[i]).0,
            (#[trigger] d[j]).0,
        ) by {
            assert(d[i] == s[i] && d[j] == s[j]);
        }
        lemma_not_held_ordered(d, conn);
        lemma_not_held_members(d, conn);
        assert forall|i: int, j: int| 0 <= i < j < t.len() implies less(
            (#[trigger] t[i]).0,
            (#[trigger] t[j]).0,
        ) by {
            if j < u.len() {
                assert(t[i] == u[i] && t[j] == u[j]);
            } else {
                assert(t[i] == u[i]);
                let m = choose|m: int| 0 <= m < d.len() && d[m] == u[i];
                assert(less(s[m].0, s[s.len() - 1].0));
            }
        }
    }
}

/// A claim is exclusive: once it is granted, a claim of the same uid by any
/// other connection is denied and told who holds it, and changes nothing.
pub proof fn law_claims_are_exclusive(s: Claims, uid: Seq<char>, first: u64, second: u64)
    requires
        claim_outcome(s, uid, first) is Granted,
        first != second,
    ensures
        assoc_get(claimed(s, uid, first), uid) == Some(first),
        claim_outcome(claimed(s, uid, first), uid, second) == ClaimOutcome::Denied(first),
        claimed(claimed(s, uid, first), uid, second) == claimed(s, uid, first),
{
    law_assoc_put_get(s, uid, first, uid);
}

/// Claiming what one already holds is granted and changes nothing.
pub proof fn law_reclaiming_is_idempotent(s: Claims, uid: Seq<char>, conn: u64)
    requires
        claim_outcome(s, uid, conn) is Granted,
    ensures
        claim_outcome(claimed(s, uid, conn), uid, conn) is Granted,
        claimed(claimed(s, uid, conn), uid, conn) == claimed(s, uid, conn),
{
    law_assoc_put_get(s, uid, conn, uid);
}

/// A connection cannot release what another holds; what it released itself is
/// free for the next, and no other claim changes.
pub proof fn law_release_frees_only_ones_own(
    s: Claims,
    uid: Seq<char>,
    conn: u64,
    other: Seq<char>,
    next: u64,
)
    requires
        assoc_ordered(s),
    ensures
        assoc_get(s, uid) != Some(conn) ==> released(s, uid, conn) == s,
        assoc_get(s, uid) == Some(conn) ==> claim_outcome(
            released(s, uid, conn),
            uid,
            next,
        ) is Granted,
        other != uid ==> assoc_get(released(s, uid, conn), other) == assoc_get(s, other),
{
    law_assoc_remove_get(s, uid, other);
    law_assoc_remove_get(s, uid, uid);
}

/// When a connection ends, its claims are free and all others stand.
pub proof fn law_ended_connection_frees_its_claims(
    s: Claims,
    conn: u64,
    uid: Seq<char>,
    next: u64,
)
    requires
        assoc_ordered(s),
    ensures
        assoc_get(s, uid) == Some(conn) ==> assoc_get(not_held_by(s, conn), uid) is None
            && claim_outcome(not_held_by(s, conn), uid, next) is Granted,
        assoc_get(s, uid) != Some(conn) ==> assoc_get(not_held_by(s, conn), uid) == assoc_get(
            s,
            uid,
        ),
{
    let t = not_held_by(s, conn);
    lemma_not_held_members(s, conn);
    lemma_not_held_ordered(s, conn);
    lemma_assoc_get(s, uid);
    lemma_assoc_get(t, uid);
    if let Some(v) = assoc_get(t, uid) {
        let i = choose|i: int| 0 <= i < t.len() && #[trigger] t[i] == (uid, v);
        assert(s.contains(t[i]));
        let m = choose|m: int| 0 <= m < s.len() && s[m] == t[i];
        let w = assoc_get(s, uid)->0;
        let n = choose|n: int| 0 <= n < s.len() && #[trigger] s[n] == (uid, w);
        lemma_one_entry(s, m, n);
    } else if let Some(w) = assoc_get(s, uid) {
        let n = choose|n: int| 0 <= n < s.len() && #[trigger] s[n] == (uid, w);
        if w != conn {
            assert(t.contains(s[n]));
            let k = choose|k: int| 0 <= k < t.len() && t[k] == s[n];
            assert(t[k].0 == uid);
        }
    }
}

proof fn lemma_one_entry(s: Claims, m: int, n: int)
    requires
        assoc_ordered(s),
        0 <= m < s.len(),
        0 <= n < s.len(),
        s[m].0 == s[n].0,
    ensures
        m == n,
{
    lemma_less_total(s[m].0, s[n].0);
    if m < n {
        assert(less(s[m].0, s[n].0));
    } else if n < m {
        assert(less(s[n].0, s[m].0));
    }
}

/// The claims of a list of records.
pub open spec fn claim_views(v: Seq<ClaimInfo>) -> Claims {
    Seq::new(v.len(), |i: int| (v[i].uid@, v[i].owner))
}

/// The claim table, and the source of connection ids.
pub struct ClaimRegistry {
    claims: StrMap<u64>,
    next_conn: u64,
}

impl Default for ClaimRegistry {
    fn default() -> (r: ClaimRegistry)
        ensures
            r.wf(),
            r.claims() == Seq::<(Seq<char>, u64)>::empty(),
            r.next() == 1,
    {
        ClaimRegistry::new()
    }
}

impl ClaimRegistry {
    /// The claims, in order of the uids.
    pub closed spec fn claims(self) -> Claims {
        self.claims@
    }

    /// The connection id that is given out next.
    pub closed spec fn next(self) -> u64 {
        self.next_conn
    }

    /// The claims are in order, and 0 is not given out.
    pub open spec fn wf(self) -> bool {
        assoc_ordered(self.claims()) && self.next() >= 1
    }

    /// An empty registry whose first connection id is 1.
    pub fn new() -> (r: ClaimRegistry)
        ensures
            r.wf(),
            r.claims() == Seq::<(Seq<char>, u64)>::empty(),
            r.next() == 1,
    {
        ClaimRegistry { claims: StrMap::new(), next_conn: 1 }
    }

    /// Gives out the next connection id: larger than any before, never 0.
    pub fn next_conn_id(&mut self) -> (r: ConnId)
        requires
            old(self).wf(),
            old(self).next() < u64::MAX,
        ensures
            final(self).wf(),
            final(self).claims() == old(self).claims(),
            r == old(self).next(),
            final(self).next() == r + 1,
            r != 0,
    {
        let id: u64 = self.next_conn;
        self.next_conn = self.next_conn + 1;
        id
    }

    /// Takes ownership of `uid` for `conn` if it is free or already its own;
    /// otherwise reports the incumbent and changes nothing.
    pub fn claim(&mut self, uid: &str, conn: ConnId) -> (r: ClaimOutcome)
        requires
            old(self).wf(),
        ensures
            final(self).wf(),
            final(self).next() == old(self).next(),
            r == claim_outcome(old(self).claims(), uid@, conn),
            final(self).claims() == claimed(old(self).claims(), uid@, conn),
    {
        let held = match self.claims.get(uid) {
            Some(owner) => Some(*owner),
            None => None,
        };
        match held {
            Some(owner) => {
                if owner == conn {
                    ClaimOutcome::Granted
                } else {
                    ClaimOutcome::Denied(owner)
                }
            },
            None => {
                self.claims.insert(uid, conn);
                ClaimOutcome::Granted
            },
        }
    }

    /// Gives up the claim of `conn` on `uid`. A release by a connection that
    /// does not own it is ignored. Returns whether anything changed.
    pub fn release(&mut self, uid: &str, conn: ConnId) -> (r: bool)
        requires
            old(self).wf(),
        ensures
            final(self).wf(),
            final(self).next() == old(self).next(),
            final(self).claims() == released(old(self).claims(), uid@, conn),
            r == (assoc_get(old(self).claims(), uid@) == Some(conn)),
    {
        let own = match self.claims.get(uid) {
            Some(owner) => *owner == conn,
            None => false,
        };
        if own {
            let _ = self.claims.remove(uid);
        }
        own
    }

    /// Drops every claim held by `conn`. Returns whether anything changed.
    pub fn release_conn(&mut self, conn: ConnId) -> (r: bool)
        requires
            old(self).wf(),
        ensures
            final(self).wf(),
            final(self).next() == old(self).next(),
            final(self).claims() == not_held_by(old(self).claims(), conn),
            r == (exists|i: int|
                0 <= i < old(self).claims().len() && (#[trigger] old(self).claims()[i]).1 == conn),
    {
        let ghost s = self.claims@;
        let mut kept: StrMap<u64> = StrMap::new();
        let mut i: usize = 0;
        assert(s.take(0) =~= Seq::<(Seq<char>, u64)>::empty());
        while i < self.claims.entries.len()
            invariant
                i <= self.claims.entries@.len(),
                s == self.claims@,
                kept@ == not_held_by(s.take(i as int), conn),
            decreases self.claims.entries.len() - i,
        {
            assert(s.take(i + 1).drop_last() =~= s.take(i as int));
            assert(s.take(i + 1).last() == s[i as int]);
            if self.claims.entries[i].1 != conn {
                let ghost before = kept@;
                kept.entries.push((self.claims.entries[i].0.clone(), self.claims.entries[i].1));
                assert(kept@ =~= before.push(s[i as int]));
            }
            i = i + 1;
        }
        proof {
            assert(s.take(i as int) =~= s);
            lemma_not_held_members(s, conn);
            lemma_not_held_ordered(s, conn);
        }
        let changed = kept.entries.len() != self.claims.entries.len();
        self.claims = kept;
        changed
    }

    /// Drops any claim on `uid`, whoever holds it. Returns whether anything
    /// changed.
    pub fn forget_uid(&mut self, uid: &str) -> (r: bool)
        requires
            old(self).wf(),
        ensures
            final(self).wf(),
            final(self).next() == old(self).next(),
            final(self).claims() == assoc_remove(old(self).claims(), uid@),
            r == assoc_get(old(self).claims(), uid@) is Some,
    {
        self.claims.remove(uid).is_some()
    }

    /// Drops every claim. Returns whether anything changed.
    pub fn clear(&mut self) -> (r: bool)
        requires
            old(self).wf(),
        ensures
            final(self).wf(),
            final(self).next() == old(self).next(),
            final(self).claims() == Seq::<(Seq<char>, u64)>::empty(),
            r == (old(self).claims().len() > 0),
    {
        let had = !self.claims.is_empty();
        self.claims = StrMap::new();
        had
    }

    /// The whole table, in order of the uids.
    pub fn snapshot(&self) -> (r: Vec<ClaimInfo>)
        ensures
            claim_views(r@) == self.claims(),
    {
        let mut out: Vec<ClaimInfo> = Vec::new();
        let mut i: usize = 0;
        while i < self.claims.entries.len()
            invariant
                i <= self.claims.entries@.len(),
                out@.len() == i,
                forall|j: int|
                    0 <= j < i ==> (#[trigger] out@[j]).uid@ == self.claims@[j].0 && out@[j].owner
                        == self.claims@[j].1,
            decreases self.claims.entries.len() - i,
        {
            let e = &self.claims.entries[i];
            out.push(ClaimInfo { uid: e.0.clone(), owner: e.1 });
            i = i + 1;
        }
        assert(claim_views(out@) =~= self.claims@);
        out
    }

    /// The connection that holds `uid`.
    pub fn owner_of(&self, uid: &str) -> (r: Option<ConnId>)
        ensures
            r == assoc_get(self.claims(), uid@),
    {
        match self.claims.get(uid) {
            Some(owner) => Some(*owner),
            None => None,
        }
    }
}

} // verus!
