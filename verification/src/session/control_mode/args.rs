//! getopt-style flags of one command.

use crate::text::{chars_of, owned, string_of, views};
use vstd::prelude::*;
use vstd::slice::*;
use vstd::string::*;

verus! {

/// The arguments of a command: boolean flags, flags with a value in the order
/// they came, and the rest.
#[verifier::ext_equal]
pub struct ArgsView {
    pub flags: Set<char>,
    pub values: Seq<(char, Seq<char>)>,
    pub positionals: Seq<Seq<char>>,
}

impl ArgsView {
    /// No arguments.
    pub open spec fn none() -> ArgsView {
        ArgsView { flags: Set::empty(), values: Seq::empty(), positionals: Seq::empty() }
    }

    /// The first value of the flag `c`.
    pub open spec fn value(self, c: char) -> Option<Seq<char>> {
        first_value(self.values, c)
    }

    /// These arguments with the flag `c` given too.
    pub open spec fn with_flag(self, c: char) -> ArgsView {
        ArgsView { flags: self.flags.insert(c), ..self }
    }
}

/// The first value that `values` gives for `c`.
pub open spec fn first_value(values: Seq<(char, Seq<char>)>, c: char) -> Option<Seq<char>>
    decreases values.len(),
{
    if values.len() == 0 {
        None
    } else if values[0].0 == c {
        Some(values[0].1)
    } else {
        first_value(values.skip(1), c)
    }
}

/// Whether `opts` says that the flag `c` takes a value: it stands before a colon.
pub open spec fn takes_value(opts: Seq<char>, c: char) -> bool {
    exists|i: int| 0 <= i < opts.len() - 1 && #[trigger] opts[i] == c && opts[i + 1] == ':'
}

/// Whether a word is a cluster of flags: a `-` and something after it that is
/// not a digit. So `-` and a negative number are positional.
pub open spec fn is_flag(w: Seq<char>) -> bool {
    w.len() > 1 && w[0] == '-' && !('0' <= w[1] <= '9')
}

/// The index of the first flag of a cluster that takes a value, or its length.
pub open spec fn value_flag(cluster: Seq<char>, opts: Seq<char>) -> int
    decreases cluster.len(),
{
    if cluster.len() == 0 || takes_value(opts, cluster[0]) {
        0
    } else {
        1 + value_flag(cluster.skip(1), opts)
    }
}

/// The characters of `s`.
pub open spec fn char_set(s: Seq<char>) -> Set<char> {
    Set::new(|c: char| s.contains(c))
}

/// The arguments that `words` add to `acc`, or what is wrong with them.
pub open spec fn args_from(words: Seq<Seq<char>>, opts: Seq<char>, acc: ArgsView) -> Result<
    ArgsView,
    Seq<char>,
>
    decreases words.len(),
{
    if words.len() == 0 {
        Ok(acc)
    } else if !is_flag(words[0]) {
        args_from(
            words.skip(1),
            opts,
            ArgsView { positionals: acc.positionals.push(words[0]), ..acc },
        )
    } else {
        let cluster = words[0].skip(1);
        let k = value_flag(cluster, opts);
        let flags = acc.flags.union(char_set(cluster.take(k)));
        if k >= cluster.len() {
            args_from(words.skip(1), opts, ArgsView { flags, ..acc })
        } else if k + 1 < cluster.len() {
            let values = acc.values.push((cluster[k], cluster.skip(k + 1)));
            args_from(words.skip(1), opts, ArgsView { flags, values, ..acc })
        } else if words.len() == 1 {
            Err("-"@ + seq![cluster[k]] + " needs an argument"@)
        } else {
            let values = acc.values.push((cluster[k], words[1]));
            args_from(words.skip(2), opts, ArgsView { flags, values, ..acc })
        }
    }
}

/// The arguments in `words`, where `opts` names the flags that take a value.
pub open spec fn args_of(words: Seq<Seq<char>>, opts: Seq<char>) -> Result<ArgsView, Seq<char>> {
    args_from(words, opts, ArgsView::none())
}

proof fn lemma_value_flag(cluster: Seq<char>, opts: Seq<char>)
    ensures
        0 <= value_flag(cluster, opts) <= cluster.len(),
    decreases cluster.len(),
{
    if cluster.len() > 0 && !takes_value(opts, cluster[0]) {
        lemma_value_flag(cluster.skip(1), opts);
    }
}

/// The characters and their strings as characters.
pub open spec fn value_views(v: Seq<(char, String)>) -> Seq<(char, Seq<char>)> {
    Seq::new(v.len(), |i: int| (v[i].0, v[i].1@))
}

/// getopt-style flags for one command.
///
/// Flags cluster: in `-lt %0` the boolean `-l` is followed by `-t`, which takes
/// the next word as its value.
#[derive(Debug, PartialEq, Eq)]
pub struct Args {
    /// The boolean flags given, each as often as it was.
    pub flags: Vec<char>,
    /// The flags given with a value.
    pub values: Vec<(char, String)>,
    /// The words that are neither flags nor values of flags.
    pub positionals: Vec<String>,
}

impl View for Args {
    type V = ArgsView;

    open spec fn view(&self) -> ArgsView {
        ArgsView {
            flags: char_set(self.flags@),
            values: value_views(self.values@),
            positionals: views(self.positionals@),
        }
    }
}

/// Whether the flag `c` takes a value.
fn wants_value(opts: &Vec<char>, c: char) -> (r: bool)
    ensures
        r == takes_value(opts@, c),
{
    let mut i: usize = 0;
    while i < opts.len()
        invariant
            i <= opts@.len(),
            forall|k: int|
                0 <= k < i && k < opts@.len() - 1 ==> !(#[trigger] opts@[k] == c && opts@[k + 1]
                    == ':'),
        decreases opts.len() - i,
    {
        if i + 1 < opts.len() && opts[i] == c && opts[i + 1] == ':' {
            return true;
        }
        i = i + 1;
    }
    false
}

impl Args {
    /// Reads the arguments in `words`. `optstring` names the flags that take a
    /// value, each before a colon; every other flag is a boolean.
    pub fn parse(words: &[String], optstring: &str) -> (r: Result<Args, String>)
        ensures
            match r {
                Ok(a) => args_of(views(words@), optstring@) == Ok::<_, Seq<char>>(a@),
                Err(e) => args_of(views(words@), optstring@) == Err::<ArgsView, _>(e@),
            },
    {
        let opts = chars_of(optstring);
        let mut out = Args { flags: Vec::new(), values: Vec::new(), positionals: Vec::new() };
        let mut n: usize = 0;
        proof {
            assert(views(words@).skip(0) =~= views(words@));
            assert(out@ =~= ArgsView::none());
        }
        while n < words.len()
            invariant
                n <= words@.len(),
                opts@ == optstring@,
                args_of(views(words@), optstring@) == args_from(
                    views(words@).skip(n as int),
                    opts@,
                    out@,
                ),
            decreases words.len() - n,
        {
            let ghost before = out@;
            let ghost rest = views(words@).skip(n as int);
            let w = chars_of(words[n].as_str());
            assert(rest[0] == w@);
            assert(rest.skip(1) =~= views(words@).skip(n + 1));
            if w.len() <= 1 || w[0] != '-' || ('0' <= w[1] && w[1] <= '9') {
                out.positionals.push(owned(words[n].as_str()));
                assert(out@ =~= (ArgsView {
                    positionals: before.positionals.push(w@),
                    ..before
                }));
                n = n + 1;
                continue;
            }
            let ghost cluster = w@.skip(1);
            let mut i: usize = 1;
            proof {
                lemma_value_flag(cluster, opts@);
                assert(cluster.skip(0) =~= cluster);
                assert(out@.flags =~= before.flags.union(char_set(cluster.take(0))));
            }
            while i < w.len() && !wants_value(&opts, w[i])
                invariant
                    1 <= i <= w@.len(),
                    cluster == w@.skip(1),
                    out@.values == before.values,
                    out@.positionals == before.positionals,
                    out@.flags == before.flags.union(char_set(cluster.take(i - 1))),
                    value_flag(cluster, opts@) == (i - 1) + value_flag(cluster.skip(i - 1), opts@),
                decreases w.len() - i,
            {
                let ghost fs = out.flags@;
                out.flags.push(w[i]);
                proof {
                    let t = cluster.skip(i - 1);
                    assert(t[0] == w@[i as int]);
                    assert(t.skip(1) =~= cluster.skip(i as int));
                    assert forall|c: char| out@.flags.contains(c) == before.flags.union(
                        char_set(cluster.take(i as int)),
                    ).contains(c) by {
                        let a = cluster.take(i - 1);
                        let b = cluster.take(i as int);
                        assert(b =~= a.push(w@[i as int]));
                        assert(out.flags@ == fs.push(w@[i as int]));
                        assert(before.flags.union(char_set(a)).contains(c) == fs.contains(c));
                        lemma_push_contains(fs, w@[i as int], c);
                        lemma_push_contains(a, w@[i as int], c);
                    }
                    assert(out@.flags =~= before.flags.union(char_set(cluster.take(i as int))));
                }
                i = i + 1;
            }
            let ghost k = i - 1;
            assert(value_flag(cluster, opts@) == k);
            if i == w.len() {
                assert(out@ =~= (ArgsView {
                    flags: before.flags.union(char_set(cluster.take(k))),
                    ..before
                }));
                n = n + 1;
                continue;
            }
            assert(cluster[k] == w@[i as int]);
            if i + 1 < w.len() {
                let tail = slice_subrange(w.as_slice(), i + 1, w.len());
                assert(tail@ =~= cluster.skip(k + 1));
                out.values.push((w[i], string_of(tail)));
                assert(out@.values =~= before.values.push((cluster[k], cluster.skip(k + 1))));
                n = n + 1;
            } else {
                if n + 1 == words.len() {
                    let mut e = owned("-");
                    e.push(w[i]);
                    e.append(" needs an argument");
                    assert("-"@.push(w@[i as int]) =~= "-"@ + seq![w@[i as int]]);
                    return Err(e);
                }
                assert(rest[1] == words@[n + 1]@);
                assert(rest.skip(2) =~= views(words@).skip(n + 2));
                out.values.push((w[i], owned(words[n + 1].as_str())));
                assert(out@.values =~= before.values.push((cluster[k], rest[1])));
                n = n + 2;
            }
        }
        Ok(out)
    }

    /// Whether the boolean flag `c` was given.
    pub fn flag(&self, c: char) -> (r: bool)
        ensures
            r == self@.flags.contains(c),
    {
        let mut i: usize = 0;
        while i < self.flags.len()
            invariant
                i <= self.flags@.len(),
                forall|k: int| 0 <= k < i ==> self.flags@[k] != c,
            decreases self.flags.len() - i,
        {
            if self.flags[i] == c {
                assert(self.flags@.contains(c));
                return true;
            }
            i = i + 1;
        }
        false
    }

    /// The first value given for the flag `c`.
    pub fn value(&self, c: char) -> (r: Option<&str>)
        ensures
            match r {
                Some(v) => self@.value(c) == Some(v@),
                None => self@.value(c) is None,
            },
    {
        let mut i: usize = 0;
        assert(self@.values.skip(0) =~= self@.values);
        while i < self.values.len()
            invariant
                i <= self.values@.len(),
                self@.value(c) == first_value(self@.values.skip(i as int), c),
            decreases self.values.len() - i,
        {
            assert(self@.values.skip(i as int).skip(1) =~= self@.values.skip(i + 1));
            if self.values[i].0 == c {
                return Some(self.values[i].1.as_str());
            }
            i = i + 1;
        }
        None
    }

    /// Takes the boolean flag `c` as given.
    pub fn set_flag(&mut self, c: char)
        ensures
            final(self)@ == old(self)@.with_flag(c),
    {
        let ghost fs = self.flags@;
        self.flags.push(c);
        proof {
            assert forall|x: char| self@.flags.contains(x) == old(self)@.flags.insert(c).contains(
                x,
            ) by {
                lemma_push_contains(fs, c, x);
            }
            assert(self@ =~= old(self)@.with_flag(c));
        }
    }
}

proof fn lemma_push_contains(s: Seq<char>, x: char, c: char)
    ensures
        s.push(x).contains(c) == (s.contains(c) || c == x),
{
    if s.contains(c) {
        let k = choose|k: int| 0 <= k < s.len() && s[k] == c;
        assert(s.push(x)[k] == c);
    }
    assert(s.push(x)[s.len() as int] == x);
    if s.push(x).contains(c) {
        let k = choose|k: int| 0 <= k < s.push(x).len() && s.push(x)[k] == c;
        if k < s.len() {
            assert(s[k] == c);
        }
    }
}

} // verus!
