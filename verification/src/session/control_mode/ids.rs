//! The mapping between pane uids and tmux ids.
//!
//! Clients cache ids, so an id is derived from the uid rather than counted:
//! the FNV-1a hash of the uid folded to 31 bits, moved on to the next free id
//! where an earlier uid, in sorted order, already has it. The same set of uids
//! always gives the same ids, in any process and after any reconnect.

use crate::session::fnv::{fnv1a, lemma_fnv_concat, Fnv};
use crate::text::{insert_sorted, lemma_position, lemma_position_unique, lemma_sorted_count,
    lemma_sorted_unique, position, same, sorted, views};
use vstd::prelude::*;
use vstd::utf8::*;

verus! {

/// How many ids there are: 31 bits, so that an id fits a signed 32-bit integer.
pub const ID_COUNT: u32 = 0x8000_0000;

/// A 64-bit hash folded to 31 bits.
pub open spec fn fold31(h: u64) -> u32 {
    ((h ^ (h >> 32)) as u32) & 0x7fff_ffff
}

/// The id that `uid` would have alone.
pub open spec fn home_id(domain: Seq<char>, uid: Seq<char>) -> u32 {
    fold31(fnv1a(encode_utf8(domain) + encode_utf8(uid)))
}

/// FNV-1a over `domain` and then `uid`, folded to 31 bits.
pub fn hash31(domain: &str, uid: &str) -> (r: u32)
    ensures
        r == home_id(domain@, uid@),
        r < ID_COUNT,
{
    let mut h = Fnv::new();
    h.write(domain.as_bytes());
    h.write(uid.as_bytes());
    proof {
        lemma_fnv_concat(
            crate::session::fnv::OFFSET_BASIS,
            encode_utf8(domain@),
            encode_utf8(uid@),
        );
    }
    let h: u64 = h.finish();
    let r: u32 = ((h ^ (h >> 32)) as u32) & 0x7fff_ffff;
    assert(((h ^ (h >> 32)) as u32) & 0x7fff_ffff < 0x8000_0000u32) by (bit_vector);
    r
}

/// The id after `id`.
pub open spec fn next_id(id: u32) -> u32 {
    if id >= 0x7fff_ffff {
        0
    } else {
        (id + 1) as u32
    }
}

/// The first id at or after `id` that is not in `taken`, looking at most
/// `steps` ids further.
pub open spec fn probe(id: u32, taken: Seq<u32>, steps: nat) -> u32
    decreases steps,
{
    if steps == 0 || !taken.contains(id) {
        id
    } else {
        probe(next_id(id), taken, (steps - 1) as nat)
    }
}

/// The ids of `uids`: each its own hash, or the first free id after it.
pub open spec fn assign(domain: Seq<char>, uids: Seq<Seq<char>>) -> Seq<u32>
    decreases uids.len(),
{
    if uids.len() == 0 {
        Seq::empty()
    } else {
        let taken = assign(domain, uids.drop_last());
        taken.push(probe(home_id(domain, uids.last()), taken, taken.len()))
    }
}

/// The id `k` places after `id`.
spec fn nth_id(id: u32, k: int) -> u32 {
    ((id + k) % 0x8000_0000) as u32
}

/// As many ids in a row as `taken` is long cannot all be taken and one more.
proof fn lemma_pigeonhole(id: u32, taken: Seq<u32>, m: int)
    requires
        0 <= m <= 0x8000_0000,
        id < 0x8000_0000,
        forall|k: int| 0 <= k < m ==> taken.contains(#[trigger] nth_id(id, k)),
    ensures
        m <= taken.len(),
{
    let w = Seq::new(m as nat, |k: int| nth_id(id, k));
    assert(w.no_duplicates()) by {
        assert forall|i: int, j: int| 0 <= i < w.len() && 0 <= j < w.len() && i != j implies w[i]
            != w[j] by {
            assert((id + i) % 0x8000_0000 != (id + j) % 0x8000_0000) by (nonlinear_arith)
                requires
                    0 <= i < 0x8000_0000,
                    0 <= j < 0x8000_0000,
                    i != j,
                    0 <= id < 0x8000_0000,
            ;
        }
    }
    w.unique_seq_to_set();
    taken.lemma_cardinality_of_set();
    assert(w.to_set().subset_of(taken.to_set())) by {
        assert forall|x: u32| w.to_set().contains(x) implies taken.to_set().contains(x) by {
            let k = choose|k: int| 0 <= k < w.len() && w[k] == x;
            assert(taken.contains(nth_id(id, k)));
        }
    }
    vstd::set_lib::lemma_len_subset(w.to_set(), taken.to_set());
}

/// Probing ends on a free id.
proof fn lemma_probe_free(id: u32, taken: Seq<u32>, start: u32, k: nat)
    requires
        taken.len() < 0x8000_0000,
        start < 0x8000_0000,
        k <= taken.len(),
        id == nth_id(start, k as int),
        forall|j: int| 0 <= j < k ==> taken.contains(#[trigger] nth_id(start, j)),
    ensures
        !taken.contains(probe(id, taken, (taken.len() - k) as nat)),
        probe(id, taken, (taken.len() - k) as nat) < 0x8000_0000,
    decreases taken.len() - k,
{
    if taken.contains(id) {
        assert forall|j: int| 0 <= j < k + 1 implies taken.contains(#[trigger] nth_id(start, j)) by {
            if j == k {
            }
        }
        lemma_pigeonhole(start, taken, (k + 1) as int);
        assert(next_id(id) == nth_id(start, (k + 1) as int)) by {
            lemma_next_is_nth(start, k as int);
        }
        lemma_probe_free(next_id(id), taken, start, (k + 1) as nat);
    }
}

proof fn lemma_next_is_nth(start: u32, k: int)
    requires
        start < 0x8000_0000,
        0 <= k < 0x8000_0000,
    ensures
        nth_id(start, k) < 0x8000_0000,
        next_id(nth_id(start, k)) == nth_id(start, k + 1),
{
    let s = start + k;
    if s < 0x8000_0000 {
        assert(s % 0x8000_0000 == s);
        if s + 1 == 0x8000_0000 {
            assert((s + 1) % 0x8000_0000 == 0);
        }
    } else {
        assert(s % 0x8000_0000 == s - 0x8000_0000);
        assert((s + 1) % 0x8000_0000 == s + 1 - 0x8000_0000);
    }
}

proof fn lemma_home_bound(domain: Seq<char>, uid: Seq<char>)
    ensures
        home_id(domain, uid) < 0x8000_0000,
{
    let h = fnv1a(encode_utf8(domain) + encode_utf8(uid));
    assert(((h ^ (h >> 32)) as u32) & 0x7fff_ffff < 0x8000_0000u32) by (bit_vector);
}

/// No two uids have the same id, and every id fits a signed 32-bit integer.
pub proof fn law_ids_unique_and_bounded(domain: Seq<char>, uids: Seq<Seq<char>>)
    requires
        uids.len() <= 0x8000_0000,
    ensures
        assign(domain, uids).len() == uids.len(),
        assign(domain, uids).no_duplicates(),
        forall|i: int|
            0 <= i < uids.len() ==> (#[trigger] assign(domain, uids)[i]) < 0x8000_0000,
    decreases uids.len(),
{
    if uids.len() > 0 {
        law_ids_unique_and_bounded(domain, uids.drop_last());
        let taken = assign(domain, uids.drop_last());
        let home = home_id(domain, uids.last());
        lemma_home_bound(domain, uids.last());
        lemma_probe_free(home, taken, home, 0);
        let all = assign(domain, uids);
        assert forall|i: int, j: int| 0 <= i < all.len() && 0 <= j < all.len() && i
            != j implies all[i] != all[j] by {
            if i == all.len() - 1 {
                assert(taken.contains(taken[j]));
            } else if j == all.len() - 1 {
                assert(taken.contains(taken[i]));
            } else {
                assert(taken[i] != taken[j]);
            }
        }
    }
}

/// Where no two hashes meet, each uid has its own hash as its id, whatever
/// other uids there are.
pub proof fn law_id_is_the_hash_without_collision(domain: Seq<char>, uids: Seq<Seq<char>>, i: int)
    requires
        0 <= i < uids.len(),
        forall|a: int, b: int|
            0 <= a < b < uids.len() ==> home_id(domain, #[trigger] uids[a]) != home_id(
                domain,
                #[trigger] uids[b],
            ),
    ensures
        assign(domain, uids).len() == uids.len(),
        assign(domain, uids)[i] == home_id(domain, uids[i]),
{
    lemma_no_collision(domain, uids);
}

proof fn lemma_no_collision(domain: Seq<char>, uids: Seq<Seq<char>>)
    requires
        forall|a: int, b: int|
            0 <= a < b < uids.len() ==> home_id(domain, #[trigger] uids[a]) != home_id(
                domain,
                #[trigger] uids[b],
            ),
    ensures
        assign(domain, uids).len() == uids.len(),
        forall|i: int|
            0 <= i < uids.len() ==> (#[trigger] assign(domain, uids)[i]) == home_id(
                domain,
                uids[i],
            ),
    decreases uids.len(),
{
    if uids.len() > 0 {
        let u = uids.drop_last();
        assert forall|a: int, b: int| 0 <= a < b < u.len() implies home_id(domain, #[trigger] u[a])
            != home_id(domain, #[trigger] u[b]) by {
            assert(u[a] == uids[a] && u[b] == uids[b]);
        }
        lemma_no_collision(domain, u);
        let taken = assign(domain, u);
        let home = home_id(domain, uids.last());
        if taken.contains(home) {
            let k = choose|k: int| 0 <= k < taken.len() && taken[k] == home;
            assert(taken[k] == home_id(domain, u[k]));
            assert(u[k] == uids[k]);
            assert(uids[uids.len() - 1] == uids.last());
        }
        assert(assign(domain, uids) == taken.push(home));
        assert forall|i: int| 0 <= i < uids.len() implies (#[trigger] assign(domain, uids)[i])
            == home_id(domain, uids[i]) by {
            if i < u.len() {
                assert(taken[i] == home_id(domain, u[i]));
                assert(u[i] == uids[i]);
            }
        }
    }
}

/// Whether `v` holds `x`.
fn holds(v: &Vec<u32>, x: u32) -> (r: bool)
    ensures
        r == v@.contains(x),
{
    let mut i: usize = 0;
    while i < v.len()
        invariant
            i <= v.len(),
            forall|k: int| 0 <= k < i ==> v@[k] != x,
        decreases v.len() - i,
    {
        if v[i] == x {
            assert(v@[i as int] == x);
            return true;
        }
        i = i + 1;
    }
    false
}

/// The first id at or after `start` that is not in `taken`.
fn free_id(start: u32, taken: &Vec<u32>) -> (r: u32)
    requires
        start < ID_COUNT,
        taken@.len() < ID_COUNT,
    ensures
        r == probe(start, taken@, taken@.len()),
{
    let mut id: u32 = start;
    let ghost mut k: int = 0;
    assert(nth_id(start, 0) == start);
    while holds(taken, id)
        invariant
            start < 0x8000_0000,
            taken@.len() < 0x8000_0000,
            0 <= k <= taken@.len(),
            id == nth_id(start, k),
            id < 0x8000_0000,
            forall|j: int| 0 <= j < k ==> taken@.contains(#[trigger] nth_id(start, j)),
            probe(start, taken@, taken@.len()) == probe(id, taken@, (taken@.len() - k) as nat),
        decreases taken@.len() - k,
    {
        proof {
            assert forall|j: int| 0 <= j < k + 1 implies taken@.contains(
                #[trigger] nth_id(start, j),
            ) by {
                if j == k {
                }
            }
            lemma_pigeonhole(start, taken@, k + 1);
            lemma_next_is_nth(start, k);
            k = k + 1;
        }
        if id == 0x7fff_ffff {
            id = 0;
        } else {
            id = id + 1;
        }
    }
    id
}

/// The ids of `uids` in the namespace `domain`.
fn assign_ids(domain: &str, uids: &Vec<String>) -> (r: Vec<u32>)
    requires
        uids@.len() <= ID_COUNT,
    ensures
        r@ == assign(domain@, views(uids@)),
        r@.len() == uids@.len(),
{
    let mut out: Vec<u32> = Vec::new();
    let mut i: usize = 0;
    assert(views(uids@).take(0) =~= Seq::<Seq<char>>::empty());
    while i < uids.len()
        invariant
            i <= uids.len(),
            uids@.len() <= 0x8000_0000,
            out@ == assign(domain@, views(uids@).take(i as int)),
            out@.len() == i,
        decreases uids.len() - i,
    {
        let home: u32 = hash31(domain, uids[i].as_str());
        let id: u32 = free_id(home, &out);
        out.push(id);
        assert(views(uids@).take(i + 1).drop_last() =~= views(uids@).take(i as int));
        assert(views(uids@).take(i + 1).last() == uids@[i as int]@);
        i = i + 1;
    }
    assert(views(uids@).take(uids@.len() as int) =~= views(uids@));
    out
}

/// The id of `uid`, where it has one.
pub open spec fn id_of(uids: Seq<Seq<char>>, ids: Seq<u32>, uid: Seq<char>) -> Option<u32> {
    if uids.contains(uid) {
        Some(ids[position(uids, uid)])
    } else {
        None
    }
}

/// The uid with the id `id`, where there is one.
pub open spec fn uid_of(uids: Seq<Seq<char>>, ids: Seq<u32>, id: u32) -> Option<Seq<char>> {
    if ids.contains(id) {
        Some(uids[position(ids, id)])
    } else {
        None
    }
}

/// The uid to tmux id mapping.
///
/// Pane ids (`%n`) and window ids (`@n`) are separate namespaces, so the two
/// are derived independently.
#[derive(Debug, Clone, PartialEq, Eq)]
pub struct IdMap {
    uids: Vec<String>,
    panes: Vec<u32>,
    windows: Vec<u32>,
}

impl Default for IdMap {
    fn default() -> (r: IdMap)
        ensures
            r.wf(),
            r.uids() == Seq::<Seq<char>>::empty(),
    {
        IdMap::empty()
    }
}

impl IdMap {
    /// The uids that have ids, in order.
    pub closed spec fn uids(self) -> Seq<Seq<char>> {
        views(self.uids@)
    }

    /// The pane ids of the uids.
    pub open spec fn pane_ids(self) -> Seq<u32> {
        assign("pane"@, self.uids())
    }

    /// The window ids of the uids.
    pub open spec fn window_ids(self) -> Seq<u32> {
        assign("window"@, self.uids())
    }

    /// The map is in order and its ids are those of its uids.
    pub closed spec fn wf(self) -> bool {
        &&& sorted(views(self.uids@))
        &&& self.uids@.len() <= ID_COUNT
        &&& self.panes@ == assign("pane"@, views(self.uids@))
        &&& self.windows@ == assign("window"@, views(self.uids@))
    }

    /// What a well-formed map tells its users.
    pub proof fn lemma_wf(self)
        requires
            self.wf(),
        ensures
            sorted(self.uids()),
            self.uids().len() <= ID_COUNT,
            self.pane_ids().len() == self.uids().len(),
            self.window_ids().len() == self.uids().len(),
    {
        law_ids_unique_and_bounded("pane"@, self.uids());
        law_ids_unique_and_bounded("window"@, self.uids());
    }

    /// The map of no uids.
    pub fn empty() -> (r: IdMap)
        ensures
            r.wf(),
            r.uids() == Seq::<Seq<char>>::empty(),
    {
        let r = IdMap { uids: Vec::new(), panes: Vec::new(), windows: Vec::new() };
        assert(views(r.uids@) =~= Seq::<Seq<char>>::empty());
        r
    }

    /// The mapping of exactly this set of uids. The order of `uids`, and how
    /// often one occurs in it, play no part.
    pub fn rebuild(uids: &[String]) -> (r: IdMap)
        requires
            views(uids@).to_set().len() <= ID_COUNT,
        ensures
            r.wf(),
            sorted(r.uids()),
            forall|x: Seq<char>| (#[trigger] r.uids().contains(x)) <==> views(uids@).contains(x),
    {
        let mut list: Vec<String> = Vec::new();
        let mut i: usize = 0;
        while i < uids.len()
            invariant
                i <= uids.len(),
                sorted(views(list@)),
                forall|x: Seq<char>|
                    (#[trigger] views(list@).contains(x)) <==> views(uids@).take(
                        i as int,
                    ).contains(x),
            decreases uids.len() - i,
        {
            let ghost before = views(list@);
            insert_sorted(&mut list, uids[i].as_str());
            proof {
                let a = views(uids@).take(i as int);
                let b = views(uids@).take(i + 1);
                let u = uids@[i as int]@;
                assert(b =~= a.push(u));
                assert forall|x: Seq<char>| (#[trigger] views(list@).contains(x)) <==> b.contains(
                    x,
                ) by {
                    assert(views(list@).contains(x) <==> (x == u || before.contains(x)));
                    if a.contains(x) {
                        let k = choose|k: int| 0 <= k < a.len() && a[k] == x;
                        assert(b[k] == x);
                    }
                    if b.contains(x) {
                        let k = choose|k: int| 0 <= k < b.len() && b[k] == x;
                        if k < a.len() {
                            assert(a[k] == x);
                        }
                    }
                    assert(b[i as int] == u);
                }
            }
            i = i + 1;
        }
        proof {
            assert(views(uids@).take(uids@.len() as int) =~= views(uids@));
            lemma_sorted_count(views(list@), views(uids@));
        }
        let panes = assign_ids("pane", &list);
        let windows = assign_ids("window", &list);
        IdMap { uids: list, panes, windows }
    }

    /// The place of `uid` among the uids.
    fn place(&self, uid: &str) -> (r: usize)
        ensures
            r == position(self.uids(), uid@),
            r <= self.uids@.len(),
            r < self.uids@.len() <==> self.uids().contains(uid@),
    {
        let mut i: usize = 0;
        while i < self.uids.len() && !same(self.uids[i].as_str(), uid)
            invariant
                i <= self.uids.len(),
                forall|k: int| 0 <= k < i ==> views(self.uids@)[k] != uid@,
            decreases self.uids.len() - i,
        {
            i = i + 1;
        }
        proof {
            lemma_position_unique(views(self.uids@), uid@, i as int);
            lemma_position(views(self.uids@), uid@);
        }
        i
    }

    /// This uid's tmux pane id, the `n` in `%n`.
    pub fn pane_id(&self, uid: &str) -> (r: Option<u32>)
        requires
            self.wf(),
        ensures
            r == id_of(self.uids(), self.pane_ids(), uid@),
    {
        proof {
            self.lemma_wf();
        }
        let i: usize = self.place(uid);
        if i < self.uids.len() {
            Some(self.panes[i])
        } else {
            None
        }
    }

    /// This uid's tmux window id, the `n` in `@n`.
    pub fn window_id(&self, uid: &str) -> (r: Option<u32>)
        requires
            self.wf(),
        ensures
            r == id_of(self.uids(), self.window_ids(), uid@),
    {
        proof {
            self.lemma_wf();
        }
        let i: usize = self.place(uid);
        if i < self.uids.len() {
            Some(self.windows[i])
        } else {
            None
        }
    }

    /// The uid behind a `%n` target.
    pub fn uid_for_pane(&self, id: u32) -> (r: Option<&str>)
        requires
            self.wf(),
        ensures
            match r {
                Some(s) => uid_of(self.uids(), self.pane_ids(), id) == Some(s@),
                None => uid_of(self.uids(), self.pane_ids(), id) is None,
            },
    {
        proof {
            self.lemma_wf();
        }
        self.uid_at(&self.panes, id)
    }

    /// The uid behind an `@n` target.
    pub fn uid_for_window(&self, id: u32) -> (r: Option<&str>)
        requires
            self.wf(),
        ensures
            match r {
                Some(s) => uid_of(self.uids(), self.window_ids(), id) == Some(s@),
                None => uid_of(self.uids(), self.window_ids(), id) is None,
            },
    {
        proof {
            self.lemma_wf();
        }
        self.uid_at(&self.windows, id)
    }

    fn uid_at(&self, ids: &Vec<u32>, id: u32) -> (r: Option<&str>)
        requires
            ids@.len() == self.uids@.len(),
        ensures
            match r {
                Some(s) => uid_of(self.uids(), ids@, id) == Some(s@),
                None => uid_of(self.uids(), ids@, id) is None,
            },
    {
        let mut i: usize = 0;
        while i < ids.len() && ids[i] != id
            invariant
                i <= ids.len(),
                ids@.len() == self.uids@.len(),
                forall|k: int| 0 <= k < i ==> ids@[k] != id,
            decreases ids.len() - i,
        {
            i = i + 1;
        }
        proof {
            lemma_position_unique(ids@, id, i as int);
            lemma_position(ids@, id);
        }
        if i < ids.len() {
            Some(self.uids[i].as_str())
        } else {
            None
        }
    }
}

/// The ids are a function of the set of uids: maps of the same uids agree,
/// however the uids were listed.
pub proof fn law_ids_depend_on_the_set_alone(a: IdMap, b: IdMap)
    requires
        a.wf(),
        b.wf(),
        forall|x: Seq<char>| a.uids().contains(x) <==> b.uids().contains(x),
    ensures
        a.uids() == b.uids(),
        a.pane_ids() == b.pane_ids(),
        a.window_ids() == b.window_ids(),
{
    a.lemma_wf();
    b.lemma_wf();
    lemma_sorted_unique(a.uids(), b.uids());
}

/// Looking up a uid's id and then that id's uid gives the uid back, for panes
/// and for windows.
pub proof fn law_reverse_lookup_round_trips(m: IdMap, uid: Seq<char>)
    requires
        m.wf(),
        m.uids().contains(uid),
    ensures
        id_of(m.uids(), m.pane_ids(), uid) matches Some(p) && uid_of(m.uids(), m.pane_ids(), p)
            == Some(uid),
        id_of(m.uids(), m.window_ids(), uid) matches Some(w) && uid_of(
            m.uids(),
            m.window_ids(),
            w,
        ) == Some(uid),
{
    m.lemma_wf();
    law_ids_unique_and_bounded("pane"@, m.uids());
    law_ids_unique_and_bounded("window"@, m.uids());
    lemma_position(m.uids(), uid);
    let i = position(m.uids(), uid);
    lemma_position(m.pane_ids(), m.pane_ids()[i]);
    lemma_position(m.window_ids(), m.window_ids()[i]);
}

} // verus!
