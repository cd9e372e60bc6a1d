//! Maps from strings, kept in order of their keys.
//!
//! A map is modelled by the sequence of its entries. What is put in replaces
//! the value of an equal key or goes to its place in the order.

use crate::text::{is_less, lemma_less_total, lemma_less_transitive, less, owned, same};
use vstd::prelude::*;

verus! {

/// The value of `k`, where there is one.
pub open spec fn assoc_get<T>(s: Seq<(Seq<char>, T)>, k: Seq<char>) -> Option<T>
    decreases s.len(),
{
    if s.len() == 0 {
        None
    } else if s[0].0 == k {
        Some(s[0].1)
    } else {
        assoc_get(s.skip(1), k)
    }
}

/// The entries with `v` as the value of `k`.
pub open spec fn assoc_put<T>(s: Seq<(Seq<char>, T)>, k: Seq<char>, v: T) -> Seq<(Seq<char>, T)>
    decreases s.len(),
{
    if s.len() == 0 {
        seq![(k, v)]
    } else if s[0].0 == k {
        seq![(k, v)] + s.skip(1)
    } else if less(k, s[0].0) {
        seq![(k, v)] + s
    } else {
        seq![s[0]] + assoc_put(s.skip(1), k, v)
    }
}

/// The entries without the one of `k`.
pub open spec fn assoc_remove<T>(s: Seq<(Seq<char>, T)>, k: Seq<char>) -> Seq<(Seq<char>, T)>
    decreases s.len(),
{
    if s.len() == 0 {
        s
    } else if s[0].0 == k {
        s.skip(1)
    } else {
        seq![s[0]] + assoc_remove(s.skip(1), k)
    }
}

/// Whether the keys are in order, none twice.
pub open spec fn assoc_ordered<T>(s: Seq<(Seq<char>, T)>) -> bool {
    forall|i: int, j: int| 0 <= i < j < s.len() ==> less((#[trigger] s[i]).0, (#[trigger] s[j]).0)
}

/// The keys of the entries.
pub open spec fn assoc_keys<T>(s: Seq<(Seq<char>, T)>) -> Seq<Seq<char>> {
    Seq::new(s.len(), |i: int| s[i].0)
}

/// What was put in is read back, and putting it in changes no other value.
pub proof fn law_assoc_put_get<T>(s: Seq<(Seq<char>, T)>, k: Seq<char>, v: T, other: Seq<char>)
    ensures
        assoc_get(assoc_put(s, k, v), k) == Some(v),
        other != k ==> assoc_get(assoc_put(s, k, v), other) == assoc_get(s, other),
    decreases s.len(),
{
    let t = assoc_put(s, k, v);
    if s.len() == 0 {
        assert(t.skip(1) =~= s);
    } else if s[0].0 == k {
        assert(t.skip(1) =~= s.skip(1));
    } else if less(k, s[0].0) {
        assert(t.skip(1) =~= s);
    } else {
        law_assoc_put_get(s.skip(1), k, v, other);
        assert(t.skip(1) =~= assoc_put(s.skip(1), k, v));
    }
}

/// An entry whose key comes behind all others goes to the end.
pub proof fn lemma_assoc_put_last<T>(s: Seq<(Seq<char>, T)>, k: Seq<char>, v: T)
    requires
        forall|i: int| 0 <= i < s.len() ==> less((#[trigger] s[i]).0, k),
    ensures
        assoc_put(s, k, v) == s.push((k, v)),
    decreases s.len(),
{
    if s.len() > 0 {
        assert(less(s[0].0, k));
        lemma_less_total(s[0].0, k);
        let t = s.skip(1);
        assert forall|i: int| 0 <= i < t.len() implies less((#[trigger] t[i]).0, k) by {
            assert(t[i] == s[i + 1]);
        }
        lemma_assoc_put_last(t, k, v);
        assert(seq![s[0]] + t.push((k, v)) =~= s.push((k, v)));
    } else {
        assert(seq![(k, v)] =~= s.push((k, v)));
    }
}

proof fn lemma_assoc_absent<T>(s: Seq<(Seq<char>, T)>, k: Seq<char>)
    requires
        forall|i: int| 0 <= i < s.len() ==> (#[trigger] s[i]).0 != k,
    ensures
        assoc_get(s, k) is None,
    decreases s.len(),
{
    if s.len() > 0 {
        assert(s[0].0 != k);
        assert forall|i: int| 0 <= i < s.skip(1).len() implies (#[trigger] s.skip(1)[i]).0 != k by {
            assert(s.skip(1)[i] == s[i + 1]);
        }
        lemma_assoc_absent(s.skip(1), k);
    }
}

/// A key has a value exactly where an entry holds it.
pub proof fn lemma_assoc_get<T>(s: Seq<(Seq<char>, T)>, k: Seq<char>)
    ensures
        assoc_get(s, k) is Some <==> exists|i: int| 0 <= i < s.len() && (#[trigger] s[i]).0 == k,
        assoc_get(s, k) matches Some(v) ==> exists|i: int|
            0 <= i < s.len() && #[trigger] s[i] == (k, v),
    decreases s.len(),
{
    if s.len() > 0 {
        let t = s.skip(1);
        if s[0].0 == k {
            assert(s[0] == (k, s[0].1));
        } else {
            lemma_assoc_get(t, k);
            if let Some(v) = assoc_get(t, k) {
                let i = choose|i: int| 0 <= i < t.len() && #[trigger] t[i] == (k, v);
                assert(s[i + 1] == (k, v));
            }
            if exists|i: int| 0 <= i < s.len() && (#[trigger] s[i]).0 == k {
                let i = choose|i: int| 0 <= i < s.len() && (#[trigger] s[i]).0 == k;
                assert(t[i - 1].0 == k);
            }
        }
    }
}

proof fn lemma_assoc_tail<T>(s: Seq<(Seq<char>, T)>)
    requires
        assoc_ordered(s),
        s.len() > 0,
    ensures
        assoc_ordered(s.skip(1)),
        forall|i: int| 0 <= i < s.len() - 1 ==> less(s[0].0, (#[trigger] s.skip(1)[i]).0),
{
    let t = s.skip(1);
    assert forall|i: int, j: int| 0 <= i < j < t.len() implies less(
        (#[trigger] t[i]).0,
        (#[trigger] t[j]).0,
    ) by {
        assert(t[i] == s[i + 1] && t[j] == s[j + 1]);
    }
    assert forall|i: int| 0 <= i < s.len() - 1 implies less(s[0].0, (#[trigger] t[i]).0) by {
        assert(t[i] == s[i + 1]);
    }
}

/// What is removed is gone, and removing it changes no other value.
pub proof fn law_assoc_remove_get<T>(s: Seq<(Seq<char>, T)>, k: Seq<char>, other: Seq<char>)
    requires
        assoc_ordered(s),
    ensures
        assoc_get(assoc_remove(s, k), k) is None,
        other != k ==> assoc_get(assoc_remove(s, k), other) == assoc_get(s, other),
    decreases s.len(),
{
    if s.len() > 0 {
        let t = s.skip(1);
        lemma_assoc_tail(s);
        if s[0].0 == k {
            assert forall|i: int| 0 <= i < t.len() implies (#[trigger] t[i]).0 != k by {
                lemma_less_total(k, t[i].0);
            }
            lemma_assoc_absent(t, k);
        } else {
            law_assoc_remove_get(t, k, other);
            assert(assoc_remove(s, k).skip(1) =~= assoc_remove(t, k));
        }
    }
}

proof fn lemma_assoc_put_keys<T>(s: Seq<(Seq<char>, T)>, k: Seq<char>, v: T, bound: Seq<char>)
    requires
        less(bound, k),
        forall|i: int| 0 <= i < s.len() ==> less(bound, (#[trigger] s[i]).0),
    ensures
        forall|i: int|
            0 <= i < assoc_put(s, k, v).len() ==> less(bound, (#[trigger] assoc_put(s, k, v)[i]).0),
    decreases s.len(),
{
    let t = assoc_put(s, k, v);
    if s.len() > 0 {
        let u = s.skip(1);
        assert forall|i: int| 0 <= i < u.len() implies less(bound, (#[trigger] u[i]).0) by {
            assert(u[i] == s[i + 1]);
        }
        lemma_assoc_put_keys(u, k, v, bound);
        assert forall|i: int| 0 <= i < t.len() implies less(bound, (#[trigger] t[i]).0) by {
            if s[0].0 == k {
                if i > 0 {
                    assert(t[i] == s[i]);
                }
            } else if less(k, s[0].0) {
                if i > 0 {
                    assert(t[i] == s[i - 1]);
                }
            } else if i > 0 {
                assert(t[i] == assoc_put(u, k, v)[i - 1]);
            } else {
                assert(t[0] == s[0]);
            }
        }
    }
}

proof fn lemma_assoc_remove_keys<T>(s: Seq<(Seq<char>, T)>, k: Seq<char>, bound: Seq<char>)
    requires
        forall|i: int| 0 <= i < s.len() ==> less(bound, (#[trigger] s[i]).0),
    ensures
        forall|i: int|
            0 <= i < assoc_remove(s, k).len() ==> less(
                bound,
                (#[trigger] assoc_remove(s, k)[i]).0,
            ),
    decreases s.len(),
{
    let t = assoc_remove(s, k);
    if s.len() > 0 {
        let u = s.skip(1);
        assert forall|i: int| 0 <= i < u.len() implies less(bound, (#[trigger] u[i]).0) by {
            assert(u[i] == s[i + 1]);
        }
        lemma_assoc_remove_keys(u, k, bound);
        assert forall|i: int| 0 <= i < t.len() implies less(bound, (#[trigger] t[i]).0) by {
            if s[0].0 != k {
                if i > 0 {
                    assert(t[i] == assoc_remove(u, k)[i - 1]);
                } else {
                    assert(t[0] == s[0]);
                }
            }
        }
    }
}

/// Putting in and removing keep the keys in order.
pub proof fn law_assoc_stays_ordered<T>(s: Seq<(Seq<char>, T)>, k: Seq<char>, v: T)
    requires
        assoc_ordered(s),
    ensures
        assoc_ordered(assoc_put(s, k, v)),
        assoc_ordered(assoc_remove(s, k)),
    decreases s.len(),
{
    if s.len() > 0 {
        let u = s.skip(1);
        lemma_assoc_tail(s);
        law_assoc_stays_ordered(u, k, v);
        let p = assoc_put(s, k, v);
        lemma_less_total(k, s[0].0);
        if s[0].0 != k && !less(k, s[0].0) {
            lemma_assoc_put_keys(u, k, v, s[0].0);
        }
        assert forall|i: int, j: int| 0 <= i < j < p.len() implies less(
            (#[trigger] p[i]).0,
            (#[trigger] p[j]).0,
        ) by {
            if s[0].0 == k {
                if i == 0 {
                    assert(less(s[0].0, s[j].0));
                } else {
                    assert(less(s[i].0, s[j].0));
                }
            } else if less(k, s[0].0) {
                if i == 0 {
                    if j > 1 {
                        assert(less(s[0].0, s[j - 1].0));
                        lemma_less_transitive(k, s[0].0, s[j - 1].0);
                    }
                } else {
                    assert(less(s[i - 1].0, s[j - 1].0));
                }
            } else {
                let q = assoc_put(u, k, v);
                assert(p =~= seq![s[0]] + q);
                if i > 0 {
                    assert(less(q[i - 1].0, q[j - 1].0));
                } else {
                    assert(less(s[0].0, q[j - 1].0));
                }
            }
        }
        let r = assoc_remove(s, k);
        if s[0].0 != k {
            lemma_assoc_remove_keys(u, k, s[0].0);
            let q = assoc_remove(u, k);
            assert(r =~= seq![s[0]] + q);
            assert forall|i: int, j: int| 0 <= i < j < r.len() implies less(
                (#[trigger] r[i]).0,
                (#[trigger] r[j]).0,
            ) by {
                if i > 0 {
                    assert(less(q[i - 1].0, q[j - 1].0));
                } else {
                    assert(less(s[0].0, q[j - 1].0));
                }
            }
        }
    }
}

/// The entries that are to be kept.
pub open spec fn assoc_kept<T>(
    s: Seq<(Seq<char>, T)>,
    keep: spec_fn(Seq<char>, T) -> bool,
) -> Seq<(Seq<char>, T)>
    decreases s.len(),
{
    if s.len() == 0 {
        s
    } else if keep(s.last().0, s.last().1) {
        assoc_kept(s.drop_last(), keep).push(s.last())
    } else {
        assoc_kept(s.drop_last(), keep)
    }
}

proof fn lemma_kept_members<T>(
    s: Seq<(Seq<char>, T)>,
    keep: spec_fn(Seq<char>, T) -> bool,
)
    ensures
        forall|i: int|
            0 <= i < assoc_kept(s, keep).len() ==> s.contains(#[trigger] assoc_kept(s, keep)[i])
                && keep(assoc_kept(s, keep)[i].0, assoc_kept(s, keep)[i].1),
        forall|i: int|
            0 <= i < s.len() && keep(s[i].0, s[i].1) ==> assoc_kept(s, keep).contains(
                #[trigger] s[i],
            ),
    decreases s.len(),
{
    if s.len() > 0 {
        let d = s.drop_last();
        let t = assoc_kept(s, keep);
        let u = assoc_kept(d, keep);
        lemma_kept_members(d, keep);
        assert(s[s.len() - 1] == s.last());
        assert forall|i: int| 0 <= i < t.len() implies s.contains(#[trigger] t[i]) && keep(
            t[i].0,
            t[i].1,
        ) by {
            if i < u.len() {
                assert(t[i] == u[i]);
                let m = choose|m: int| 0 <= m < d.len() && d[m] == u[i];
                assert(s[m] == u[i]);
            }
        }
        assert forall|i: int| 0 <= i < s.len() && keep(s[i].0, s[i].1) implies t.contains(
            #[trigger] s[i],
        ) by {
            if i < d.len() {
                assert(d[i] == s[i]);
                let m = choose|m: int| 0 <= m < u.len() && u[m] == s[i];
                assert(t[m] == s[i]);
            } else {
                assert(t[t.len() - 1] == s[i]);
            }
        }
    }
}

/// What is kept stays in order.
pub proof fn lemma_assoc_kept_ordered<T>(
    s: Seq<(Seq<char>, T)>,
    keep: spec_fn(Seq<char>, T) -> bool,
)
    requires
        assoc_ordered(s),
    ensures
        assoc_ordered(assoc_kept(s, keep)),
    decreases s.len(),
{
    if s.len() > 0 {
        let d = s.drop_last();
        let t = assoc_kept(s, keep);
        let u = assoc_kept(d, keep);
        assert forall|i: int, j: int| 0 <= i < j < d.len() implies less(
            (#[trigger] d[i]).0,
            (#[trigger] d[j]).0,
        ) by {
            assert(d[i] == s[i] && d[j] == s[j]);
        }
        lemma_assoc_kept_ordered(d, keep);
        lemma_kept_members(d, keep);
        assert forall|i: int, j: int| 0 <= i < j < t.len() implies less(
            (#[trigger] t[i]).0,
            (#[trigger] t[j]).0,
        ) by {
            assert(t[i] == u[i]);
            if j < u.len() {
                assert(t[j] == u[j]);
            } else {
                let m = choose|m: int| 0 <= m < d.len() && d[m] == u[i];
                assert(less(s[m].0, s[s.len() - 1].0));
            }
        }
    }
}

proof fn lemma_same_place<T>(s: Seq<(Seq<char>, T)>, m: int, n: int)
    requires
        assoc_ordered(s),
        0 <= m < s.len(),
        0 <= n < s.len(),
        s[m].0 == s[n].0,
    ensures
        m == n,
{
    lemma_less_total(s[m].0, s[n].0);
    if m < n {
        assert(less(s[m].0, s[n].0));
    } else if n < m {
        assert(less(s[n].0, s[m].0));
    }
}

/// A key keeps its value exactly where its entry is to be kept.
pub proof fn law_assoc_kept_get<T>(
    s: Seq<(Seq<char>, T)>,
    keep: spec_fn(Seq<char>, T) -> bool,
    k: Seq<char>,
)
    requires
        assoc_ordered(s),
    ensures
        assoc_get(assoc_kept(s, keep), k) == (match assoc_get(s, k) {
            Some(v) => if keep(k, v) {
                Some(v)
            } else {
                None
            },
            None => None,
        }),
{
    let t = assoc_kept(s, keep);
    lemma_kept_members(s, keep);
    lemma_assoc_get(s, k);
    lemma_assoc_get(t, k);
    if let Some(v) = assoc_get(t, k) {
        let i = choose|i: int| 0 <= i < t.len() && #[trigger] t[i] == (k, v);
        let m = choose|m: int| 0 <= m < s.len() && s[m] == t[i];
        let w = assoc_get(s, k)->0;
        let n = choose|n: int| 0 <= n < s.len() && #[trigger] s[n] == (k, w);
        lemma_same_place(s, m, n);
    } else if let Some(w) = assoc_get(s, k) {
        let n = choose|n: int| 0 <= n < s.len() && #[trigger] s[n] == (k, w);
        if keep(k, w) {
            assert(t.contains(s[n]));
            let j = choose|j: int| 0 <= j < t.len() && t[j] == s[n];
            assert(t[j].0 == k);
        }
    }
}

/// Maps whose keys are in order are equal where they give every key the same
/// value.
pub proof fn lemma_assoc_equal<T>(a: Seq<(Seq<char>, T)>, b: Seq<(Seq<char>, T)>)
    requires
        assoc_ordered(a),
        assoc_ordered(b),
        forall|k: Seq<char>| #[trigger] assoc_get(a, k) == assoc_get(b, k),
    ensures
        a == b,
    decreases a.len(),
{
    if a.len() == 0 {
        if b.len() > 0 {
            assert(assoc_get(a, b[0].0) == assoc_get(b, b[0].0));
        }
        assert(a =~= b);
    } else if b.len() == 0 {
        assert(assoc_get(a, a[0].0) == assoc_get(b, a[0].0));
    } else {
        let x = a[0].0;
        let y = b[0].0;
        assert(assoc_get(a, x) == assoc_get(b, x));
        assert(assoc_get(a, y) == assoc_get(b, y));
        lemma_less_total(x, y);
        lemma_assoc_tail(a);
        lemma_assoc_tail(b);
        if x != y {
            if less(x, y) {
                lemma_below_all(b, x);
            } else {
                lemma_below_all(a, y);
            }
        }
        lemma_less_total(x, x);
        assert forall|k: Seq<char>| #[trigger] assoc_get(a.skip(1), k) == assoc_get(
            b.skip(1),
            k,
        ) by {
            assert(assoc_get(a, k) == assoc_get(b, k));
            if k == x {
                assert forall|i: int| 0 <= i < a.skip(1).len() implies (
                #[trigger] a.skip(1)[i]).0 != k by {
                    lemma_less_total(x, a.skip(1)[i].0);
                }
                lemma_assoc_absent(a.skip(1), k);
                assert forall|i: int| 0 <= i < b.skip(1).len() implies (
                #[trigger] b.skip(1)[i]).0 != k by {
                    lemma_less_total(x, b.skip(1)[i].0);
                }
                lemma_assoc_absent(b.skip(1), k);
            }
        }
        lemma_assoc_equal(a.skip(1), b.skip(1));
        assert(a =~= seq![a[0]] + a.skip(1));
        assert(b =~= seq![b[0]] + b.skip(1));
    }
}

proof fn lemma_below_all<T>(s: Seq<(Seq<char>, T)>, k: Seq<char>)
    requires
        assoc_ordered(s),
        s.len() > 0,
        less(k, s[0].0),
    ensures
        assoc_get(s, k) is None,
{
    assert forall|i: int| 0 <= i < s.len() implies (#[trigger] s[i]).0 != k by {
        lemma_less_total(k, s[i].0);
        if i > 0 {
            assert(less(s[0].0, s[i].0));
            lemma_less_transitive(k, s[0].0, s[i].0);
        }
    }
    lemma_assoc_absent(s, k);
}

/// A map from strings to values, in order of the keys.
#[derive(Debug, Clone, PartialEq, Eq)]
pub struct StrMap<T> {
    pub entries: Vec<(String, T)>,
}

impl<T: View> View for StrMap<T> {
    type V = Seq<(Seq<char>, T::V)>;

    open spec fn view(&self) -> Seq<(Seq<char>, T::V)> {
        Seq::new(self.entries@.len(), |i: int| (self.entries@[i].0@, self.entries@[i].1@))
    }
}

impl<T: View> StrMap<T> {
    /// A map of nothing.
    pub fn new() -> (r: StrMap<T>)
        ensures
            r@ == Seq::<(Seq<char>, T::V)>::empty(),
            assoc_ordered(r@),
    {
        let r = StrMap { entries: Vec::new() };
        assert(r@ =~= Seq::<(Seq<char>, T::V)>::empty());
        r
    }

    /// How many keys have a value.
    pub fn len(&self) -> (r: usize)
        ensures
            r == self@.len(),
    {
        self.entries.len()
    }

    /// Whether no key has a value.
    pub fn is_empty(&self) -> (r: bool)
        ensures
            r == (self@.len() == 0),
    {
        self.entries.len() == 0
    }

    /// The place of `k` among the keys.
    pub fn find(&self, k: &str) -> (r: Option<usize>)
        ensures
            match r {
                Some(i) => i < self.entries@.len() && self@[i as int].0 == k@ && assoc_get(
                    self@,
                    k@,
                ) == Some(self@[i as int].1) && (forall|j: int|
                    0 <= j < i ==> (#[trigger] self@[j]).0 != k@),
                None => assoc_get(self@, k@) is None,
            },
    {
        let mut i: usize = 0;
        assert(self@.skip(0) =~= self@);
        while i < self.entries.len()
            invariant
                i <= self.entries@.len(),
                assoc_get(self@, k@) == assoc_get(self@.skip(i as int), k@),
                forall|j: int| 0 <= j < i ==> (#[trigger] self@[j]).0 != k@,
            decreases self.entries.len() - i,
        {
            assert(self@.skip(i as int)[0] == self@[i as int]);
            assert(self@.skip(i as int).skip(1) =~= self@.skip(i + 1));
            if same(self.entries[i].0.as_str(), k) {
                return Some(i);
            }
            i = i + 1;
        }
        None
    }

    /// The value of `k`.
    pub fn get(&self, k: &str) -> (r: Option<&T>)
        ensures
            match r {
                Some(v) => assoc_get(self@, k@) == Some(v@),
                None => assoc_get(self@, k@) is None,
            },
    {
        match self.find(k) {
            Some(i) => Some(&self.entries[i].1),
            None => None,
        }
    }

    /// Whether `k` has a value.
    pub fn contains(&self, k: &str) -> (r: bool)
        ensures
            r == assoc_get(self@, k@) is Some,
    {
        self.find(k).is_some()
    }

    /// Makes `v` the value of `k`.
    pub fn insert(&mut self, k: &str, v: T)
        ensures
            final(self)@ == assoc_put(old(self)@, k@, v@),
            assoc_ordered(old(self)@) ==> assoc_ordered(final(self)@),
    {
        let ghost before = self@;
        let ghost g = v@;
        let mut i: usize = 0;
        proof {
            if assoc_ordered(before) {
                law_assoc_stays_ordered(before, k@, g);
            }
            assert(before.skip(0) =~= before);
            assert(before.take(0) + assoc_put(before, k@, g) =~= assoc_put(before, k@, g));
        }
        while i < self.entries.len()
            invariant
                i <= self.entries@.len(),
                self@ == before,
                before == old(self)@,
                g == v@,
                assoc_ordered(before) ==> assoc_ordered(assoc_put(before, k@, g)),
                assoc_put(before, k@, g) == before.take(i as int) + assoc_put(
                    before.skip(i as int),
                    k@,
                    g,
                ),
            decreases self.entries.len() - i,
        {
            let ghost rest = before.skip(i as int);
            assert(rest[0] == self@[i as int]);
            assert(rest.skip(1) =~= before.skip(i + 1));
            if same(self.entries[i].0.as_str(), k) {
                self.entries.set(i, (owned(k), v));
                assert(self@ =~= before.take(i as int) + (seq![(k@, g)] + rest.skip(1)));
                return;
            }
            if is_less(k, self.entries[i].0.as_str()) {
                self.entries.insert(i, (owned(k), v));
                assert(self@ =~= before.take(i as int) + (seq![(k@, g)] + rest));
                return;
            }
            assert(before.take(i as int) + (seq![rest[0]] + assoc_put(rest.skip(1), k@, g))
                =~= before.take(i + 1) + assoc_put(before.skip(i + 1), k@, g));
            i = i + 1;
        }
        self.entries.push((owned(k), v));
        assert(self@ =~= before.take(i as int) + seq![(k@, g)]);
    }

    /// Takes the value of `k` away. Returns it, where there was one.
    pub fn remove(&mut self, k: &str) -> (r: Option<T>)
        ensures
            final(self)@ == assoc_remove(old(self)@, k@),
            assoc_ordered(old(self)@) ==> assoc_ordered(final(self)@),
            match r {
                Some(v) => assoc_get(old(self)@, k@) == Some(v@),
                None => assoc_get(old(self)@, k@) is None,
            },
    {
        let ghost before = self@;
        let mut i: usize = 0;
        proof {
            if assoc_ordered(before) && before.len() > 0 {
                law_assoc_stays_ordered(before, k@, before[0].1);
            }
            assert(before.skip(0) =~= before);
            assert(before.take(0) + assoc_remove(before, k@) =~= assoc_remove(before, k@));
        }
        while i < self.entries.len()
            invariant
                i <= self.entries@.len(),
                self@ == before,
                before == old(self)@,
                assoc_ordered(before) && before.len() > 0 ==> assoc_ordered(
                    assoc_remove(before, k@),
                ),
                assoc_get(before, k@) == assoc_get(before.skip(i as int), k@),
                assoc_remove(before, k@) == before.take(i as int) + assoc_remove(
                    before.skip(i as int),
                    k@,
                ),
            decreases self.entries.len() - i,
        {
            let ghost rest = before.skip(i as int);
            assert(rest[0] == self@[i as int]);
            assert(rest.skip(1) =~= before.skip(i + 1));
            if same(self.entries[i].0.as_str(), k) {
                let (_, v) = self.entries.remove(i);
                assert(self@ =~= before.take(i as int) + rest.skip(1));
                return Some(v);
            }
            assert(before.take(i as int) + (seq![rest[0]] + assoc_remove(rest.skip(1), k@))
                =~= before.take(i + 1) + assoc_remove(before.skip(i + 1), k@));
            i = i + 1;
        }
        assert(before.take(i as int) + before.skip(i as int) =~= before);
        None
    }

    /// The keys, in order.
    pub fn keys(&self) -> (r: Vec<String>)
        ensures
            crate::text::views(r@) == assoc_keys(self@),
    {
        let mut out: Vec<String> = Vec::new();
        let mut i: usize = 0;
        while i < self.entries.len()
            invariant
                i <= self.entries@.len(),
                out@.len() == i,
                forall|j: int| 0 <= j < i ==> (#[trigger] out@[j])@ == self@[j].0,
            decreases self.entries.len() - i,
        {
            out.push(self.entries[i].0.clone());
            i = i + 1;
        }
        assert(crate::text::views(out@) =~= assoc_keys(self@));
        out
    }
}

} // verus!
