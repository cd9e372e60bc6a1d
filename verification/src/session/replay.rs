//! What is retained of a session's output, to seed a terminal that attaches.

use crate::text::{chars_of, owned, string_of, unit_count, units, utf16_len};
use vstd::prelude::*;
use vstd::string::*;

verus! {

/// How much output is retained, in UTF-16 code units.
pub const REPLAY_MAX: u64 = 131_072;

/// The end of a string that takes no more than `n` UTF-16 code units. A
/// character that takes two is kept whole or not at all.
pub open spec fn tail_units(s: Seq<char>, n: nat) -> Seq<char>
    decreases s.len(),
{
    if s.len() == 0 || units(s.last()) > n {
        Seq::empty()
    } else {
        tail_units(s.drop_last(), (n - units(s.last())) as nat).push(s.last())
    }
}

/// The end of `s` that takes no more than `max` UTF-16 code units, cut between
/// characters.
pub fn utf16_tail(s: &str, max: u64) -> (r: String)
    ensures
        r@ == tail_units(s@, max as nat),
{
    let chars = chars_of(s);
    let mut left: u64 = max;
    let mut i: usize = chars.len();
    assert(s@.take(i as int) =~= s@);
    assert(tail_units(s@, max as nat) + s@.skip(i as int) =~= tail_units(s@, max as nat));
    while i > 0 && unit_count(chars[i - 1]) as u64 <= left
        invariant
            i <= chars@.len(),
            chars@ == s@,
            tail_units(s@, max as nat) == tail_units(s@.take(i as int), left as nat) + s@.skip(
                i as int,
            ),
        decreases i,
    {
        let ghost t = s@.take(i as int);
        assert(t.last() == s@[i - 1]);
        assert(t.drop_last() =~= s@.take(i - 1));
        assert(tail_units(t, left as nat) + s@.skip(i as int) =~= tail_units(
            s@.take(i - 1),
            (left - units(t.last())) as nat,
        ) + s@.skip(i - 1));
        left = left - unit_count(chars[i - 1]) as u64;
        i = i - 1;
    }
    proof {
        let t = s@.take(i as int);
        assert(i > 0 ==> t.last() == s@[i - 1]);
        assert(tail_units(t, left as nat) =~= Seq::<char>::empty());
        assert(tail_units(s@, max as nat) =~= s@.skip(i as int));
    }
    let rest = vstd::slice::slice_subrange(chars.as_slice(), i, chars.len());
    assert(rest@ =~= s@.skip(i as int));
    string_of(rest)
}

/// The end of a string is an end of it, takes no more than it may, and is all
/// of it where all of it fits.
pub proof fn law_tail_is_an_end(s: Seq<char>, n: nat)
    ensures
        tail_units(s, n).len() <= s.len(),
        tail_units(s, n) == s.skip(s.len() - tail_units(s, n).len()),
        utf16_len(tail_units(s, n)) <= n,
        utf16_len(s) <= n ==> tail_units(s, n) == s,
    decreases s.len(),
{
    let t = tail_units(s, n);
    if s.len() == 0 {
        assert(t =~= s);
        assert(t =~= s.skip(0));
    } else if units(s.last()) <= n {
        let d = s.drop_last();
        let m = (n - units(s.last())) as nat;
        law_tail_is_an_end(d, m);
        let u = tail_units(d, m);
        assert(t.drop_last() =~= u);
        assert(t =~= s.skip(s.len() - t.len()));
        if utf16_len(s) <= n {
            assert(t =~= s);
        }
    } else {
        assert(t =~= s.skip(s.len() as int));
    }
}

/// No more of a string is cut off than has to be: one character more would be
/// too much.
pub proof fn law_tail_is_the_longest(s: Seq<char>, n: nat)
    ensures
        ({
            let t = tail_units(s, n);
            t.len() < s.len() ==> utf16_len(t) + units(s[s.len() - t.len() - 1]) > n
        }),
    decreases s.len(),
{
    let t = tail_units(s, n);
    if s.len() > 0 && units(s.last()) <= n {
        let d = s.drop_last();
        let m = (n - units(s.last())) as nat;
        let u = tail_units(d, m);
        law_tail_is_an_end(d, m);
        law_tail_is_the_longest(d, m);
        assert(t.drop_last() =~= u);
        assert(utf16_len(t) == utf16_len(u) + units(s.last()));
        if u.len() < d.len() {
            assert(d[d.len() - u.len() - 1] == s[s.len() - t.len() - 1]);
        }
    } else if s.len() > 0 {
        assert(utf16_len(t) == 0);
        assert(s[s.len() - 1] == s.last());
    }
}

/// What is retained of output.
pub open spec fn retained(s: Seq<char>) -> Seq<char> {
    tail_units(s, REPLAY_MAX as nat)
}

/// The retained end of a session's output.
#[derive(Debug, Clone, PartialEq, Eq)]
pub struct Replay {
    data: String,
}

impl View for Replay {
    type V = Seq<char>;

    closed spec fn view(&self) -> Seq<char> {
        self.data@
    }
}

impl Replay {
    /// A buffer of nothing.
    pub fn new() -> (r: Replay)
        ensures
            r@ == Seq::<char>::empty(),
    {
        Replay { data: String::new() }
    }

    /// Adds output; the oldest is dropped where there is too much.
    pub fn append(&mut self, chunk: &str)
        ensures
            final(self)@ == retained(old(self)@ + chunk@),
    {
        let mut all = owned(self.data.as_str());
        all.append(chunk);
        self.data = utf16_tail(all.as_str(), REPLAY_MAX);
    }

    /// What is retained.
    pub fn get(&self) -> (r: &str)
        ensures
            r@ == self@,
    {
        self.data.as_str()
    }

    /// A copy.
    pub fn copy(&self) -> (r: Replay)
        ensures
            r@ == self@,
    {
        Replay { data: self.data.clone() }
    }
}

} // verus!
