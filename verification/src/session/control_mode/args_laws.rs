//! What holds of the reading of flags and words.

use crate::session::control_mode::args::{args_from, args_of, char_set, first_value, is_flag,
    takes_value, value_flag, ArgsView};
use vstd::prelude::*;

verus! {

/// Two lists of arguments, one behind the other.
pub open spec fn together(x: ArgsView, y: ArgsView) -> ArgsView {
    ArgsView {
        flags: x.flags.union(y.flags),
        values: x.values + y.values,
        positionals: x.positionals + y.positionals,
    }
}

/// The word that gives the flag `c` alone.
pub open spec fn dash(c: char) -> Seq<char> {
    seq!['-', c]
}

/// Whether a word is one for itself: it does not begin with a dash, or it is
/// the dash alone, or a digit follows the dash.
pub open spec fn stands_alone(w: Seq<char>) -> bool {
    w.len() < 2 || w[0] != '-' || '0' <= w[1] <= '9'
}

spec fn with_acc(acc: ArgsView, r: Result<ArgsView, Seq<char>>) -> Result<ArgsView, Seq<char>> {
    match r {
        Ok(y) => Ok(together(acc, y)),
        Err(e) => Err(e),
    }
}

proof fn lemma_acc(words: Seq<Seq<char>>, opts: Seq<char>, acc: ArgsView, more: ArgsView)
    ensures
        args_from(words, opts, together(acc, more)) == with_acc(acc, args_from(words, opts, more)),
    decreases words.len(),
{
    let both = together(acc, more);
    if words.len() > 0 {
        if !is_flag(words[0]) {
            let next = ArgsView { positionals: more.positionals.push(words[0]), ..more };
            lemma_acc(words.skip(1), opts, acc, next);
            assert(together(acc, next) =~= (ArgsView {
                positionals: both.positionals.push(words[0]),
                ..both
            }));
        } else {
            let cluster = words[0].skip(1);
            let k = value_flag(cluster, opts);
            let set = char_set(cluster.take(k));
            let flags = more.flags.union(set);
            assert(acc.flags.union(flags) =~= both.flags.union(set));
            if k >= cluster.len() {
                let next = ArgsView { flags, ..more };
                lemma_acc(words.skip(1), opts, acc, next);
                assert(together(acc, next) =~= (ArgsView { flags: both.flags.union(set), ..both }));
            } else if k + 1 < cluster.len() {
                let value = (cluster[k], cluster.skip(k + 1));
                let next = ArgsView { flags, values: more.values.push(value), ..more };
                lemma_acc(words.skip(1), opts, acc, next);
                assert(together(acc, next) =~= (ArgsView {
                    flags: both.flags.union(set),
                    values: both.values.push(value),
                    ..both
                }));
            } else if words.len() > 1 {
                let value = (cluster[k], words[1]);
                let next = ArgsView { flags, values: more.values.push(value), ..more };
                lemma_acc(words.skip(2), opts, acc, next);
                assert(together(acc, next) =~= (ArgsView {
                    flags: both.flags.union(set),
                    values: both.values.push(value),
                    ..both
                }));
            }
        }
    }
}

proof fn lemma_behind(a: Seq<Seq<char>>, b: Seq<Seq<char>>, opts: Seq<char>, acc: ArgsView)
    requires
        args_from(a, opts, acc) is Ok,
    ensures
        args_from(a + b, opts, acc) == args_from(b, opts, args_from(a, opts, acc)->Ok_0),
    decreases a.len(),
{
    let all = a + b;
    if a.len() == 0 {
        assert(all =~= b);
    } else {
        assert(all[0] == a[0]);
        assert(all.skip(1) =~= a.skip(1) + b);
        if !is_flag(a[0]) {
            let next = ArgsView { positionals: acc.positionals.push(a[0]), ..acc };
            lemma_behind(a.skip(1), b, opts, next);
        } else {
            let cluster = a[0].skip(1);
            let k = value_flag(cluster, opts);
            let flags = acc.flags.union(char_set(cluster.take(k)));
            if k >= cluster.len() {
                lemma_behind(a.skip(1), b, opts, ArgsView { flags, ..acc });
            } else if k + 1 < cluster.len() {
                let values = acc.values.push((cluster[k], cluster.skip(k + 1)));
                lemma_behind(a.skip(1), b, opts, ArgsView { flags, values, ..acc });
            } else {
                assert(all[1] == a[1]);
                assert(all.skip(2) =~= a.skip(2) + b);
                let values = acc.values.push((cluster[k], a[1]));
                lemma_behind(a.skip(2), b, opts, ArgsView { flags, values, ..acc });
            }
        }
    }
}

/// Words behind words add what they say by themselves: their flags to the
/// flags, and their values and their own words behind those that are there.
pub proof fn law_words_add_up(a: Seq<Seq<char>>, b: Seq<Seq<char>>, opts: Seq<char>)
    requires
        args_of(a, opts) is Ok,
    ensures
        match args_of(b, opts) {
            Ok(y) => args_of(a + b, opts) == Ok::<_, Seq<char>>(
                together(args_of(a, opts)->Ok_0, y),
            ),
            Err(e) => args_of(a + b, opts) == Err::<ArgsView, _>(e),
        },
{
    let x = args_of(a, opts)->Ok_0;
    lemma_behind(a, b, opts, ArgsView::none());
    lemma_acc(b, opts, x, ArgsView::none());
    assert(together(x, ArgsView::none()) =~= x);
}

/// A word for itself is a word for itself.
pub proof fn law_word_is_kept(w: Seq<char>, opts: Seq<char>)
    requires
        stands_alone(w),
    ensures
        args_of(seq![w], opts) == Ok::<_, Seq<char>>(
            ArgsView { flags: Set::empty(), values: Seq::empty(), positionals: seq![w] },
        ),
{
    let none = ArgsView::none();
    assert(seq![w].skip(1).len() == 0);
    let next = ArgsView { positionals: none.positionals.push(w), ..none };
    assert(args_from(seq![w].skip(1), opts, next) == Ok::<_, Seq<char>>(next));
    assert(next.positionals =~= seq![w]);
    assert(next =~= (ArgsView { flags: Set::empty(), values: Seq::empty(), positionals: seq![w] }));
}

/// Words for themselves come in the order in which they stand.
pub proof fn law_words_keep_their_order(words: Seq<Seq<char>>, opts: Seq<char>)
    requires
        forall|i: int| 0 <= i < words.len() ==> stands_alone(#[trigger] words[i]),
    ensures
        args_of(words, opts) == Ok::<_, Seq<char>>(
            ArgsView { flags: Set::empty(), values: Seq::empty(), positionals: words },
        ),
    decreases words.len(),
{
    if words.len() > 0 {
        let a = words.drop_last();
        let b = seq![words.last()];
        assert forall|i: int| 0 <= i < a.len() implies stands_alone(#[trigger] a[i]) by {
            assert(a[i] == words[i]);
        }
        law_words_keep_their_order(a, opts);
        assert(stands_alone(words[words.len() - 1]));
        law_word_is_kept(words.last(), opts);
        law_words_add_up(a, b, opts);
        assert(a + b =~= words);
        let x = args_of(a, opts)->Ok_0;
        let y = args_of(b, opts)->Ok_0;
        assert(together(x, y) =~= (ArgsView {
            flags: Set::empty(),
            values: Seq::empty(),
            positionals: words,
        }));
    } else {
        assert(words =~= Seq::<Seq<char>>::empty());
        assert(ArgsView::none() =~= (ArgsView {
            flags: Set::empty(),
            values: Seq::empty(),
            positionals: words,
        }));
    }
}

proof fn lemma_cluster(w: Seq<char>, opts: Seq<char>)
    requires
        w.len() > 1,
        w[0] == '-',
        !('0' <= w[1] <= '9'),
        takes_value(opts, w[1]),
    ensures
        is_flag(w),
        value_flag(w.skip(1), opts) == 0,
        char_set(w.skip(1).take(0)) == Set::<char>::empty(),
{
    assert(w.skip(1)[0] == w[1]);
    assert(char_set(w.skip(1).take(0)) =~= Set::<char>::empty());
}

/// A flag that takes a value has the next word, or what stands behind it in its
/// own word.
pub proof fn law_flag_has_its_value(c: char, w: Seq<char>, opts: Seq<char>)
    requires
        takes_value(opts, c),
        !('0' <= c <= '9'),
    ensures
        args_of(seq![dash(c), w], opts) == Ok::<_, Seq<char>>(
            ArgsView { flags: Set::empty(), values: seq![(c, w)], positionals: Seq::empty() },
        ),
        w.len() > 0 ==> args_of(seq![dash(c) + w], opts) == Ok::<_, Seq<char>>(
            ArgsView { flags: Set::empty(), values: seq![(c, w)], positionals: Seq::empty() },
        ),
        args_of(seq![dash(c)], opts) is Err,
{
    let none = ArgsView::none();
    let all = seq![dash(c), w];
    let next = ArgsView { flags: Set::empty(), values: seq![(c, w)], positionals: Seq::empty() };
    lemma_cluster(dash(c), opts);
    assert(dash(c).skip(1)[0] == c);
    assert(none.values.push((c, w)) =~= next.values);
    assert(none.flags.union(Set::<char>::empty()) =~= Set::<char>::empty());
    assert(all.skip(2).len() == 0);
    assert(args_from(all.skip(2), opts, next) == Ok::<_, Seq<char>>(next));
    if w.len() > 0 {
        let one = dash(c) + w;
        let cluster = one.skip(1);
        assert(one[1] == c);
        lemma_cluster(one, opts);
        assert(cluster[0] == c);
        assert(cluster.skip(1) =~= w);
        assert(seq![one].skip(1).len() == 0);
        assert(args_from(seq![one].skip(1), opts, next) == Ok::<_, Seq<char>>(next));
    }
}

/// A flag that takes no value is a flag alone.
pub proof fn law_flag_is_set(c: char, opts: Seq<char>)
    requires
        !takes_value(opts, c),
        !('0' <= c <= '9'),
    ensures
        args_of(seq![dash(c)], opts) == Ok::<_, Seq<char>>(
            ArgsView { flags: set![c], values: Seq::empty(), positionals: Seq::empty() },
        ),
{
    let none = ArgsView::none();
    let w = dash(c);
    let cluster = w.skip(1);
    let next = ArgsView { flags: set![c], values: Seq::empty(), positionals: Seq::empty() };
    assert(is_flag(w));
    assert(cluster =~= seq![c]);
    assert(cluster.skip(1).len() == 0);
    assert(value_flag(cluster.skip(1), opts) == 0);
    assert(value_flag(cluster, opts) == 1);
    assert(cluster.take(1) =~= cluster);
    assert forall|x: char| none.flags.union(char_set(cluster)).contains(x) == set![c].contains(
        x,
    ) by {
        assert(cluster[0] == c);
        if cluster.contains(x) {
            let i = choose|i: int| 0 <= i < cluster.len() && cluster[i] == x;
        }
        if x == c {
            assert(cluster.contains(cluster[0]));
        }
    }
    assert(none.flags.union(char_set(cluster)) =~= set![c]);
    assert(seq![w].skip(1).len() == 0);
    assert(args_from(seq![w].skip(1), opts, next) == Ok::<_, Seq<char>>(next));
}

/// Of two values of one flag the first counts, and a value counts for its own
/// flag alone.
pub proof fn law_first_value_counts(x: Seq<(char, Seq<char>)>, y: Seq<(char, Seq<char>)>, c: char)
    ensures
        first_value(x + y, c) == (match first_value(x, c) {
            Some(w) => Some(w),
            None => first_value(y, c),
        }),
    decreases x.len(),
{
    if x.len() == 0 {
        assert(x + y =~= y);
    } else {
        assert((x + y)[0] == x[0]);
        assert((x + y).skip(1) =~= x.skip(1) + y);
        law_first_value_counts(x.skip(1), y, c);
    }
}

/// Flags that take no value may stand behind one dash: each is given.
pub proof fn law_flags_stand_together(cluster: Seq<char>, opts: Seq<char>, c: char)
    requires
        cluster.len() > 0,
        !('0' <= cluster[0] <= '9'),
        forall|i: int| 0 <= i < cluster.len() ==> !takes_value(opts, #[trigger] cluster[i]),
    ensures
        args_of(seq![seq!['-'] + cluster], opts) matches Ok(a) && a.values.len() == 0
            && a.positionals.len() == 0 && (a.flags.contains(c) <==> cluster.contains(c)),
{
    let w = seq!['-'] + cluster;
    assert(w[1] == cluster[0]);
    assert(is_flag(w));
    assert(w.skip(1) =~= cluster);
    lemma_no_value_flag(cluster, opts);
    assert(cluster.take(cluster.len() as int) =~= cluster);
    let flags = ArgsView::none().flags.union(char_set(cluster));
    let next = ArgsView { flags, ..ArgsView::none() };
    assert(seq![w].skip(1).len() == 0);
    assert(args_from(seq![w].skip(1), opts, next) == Ok::<_, Seq<char>>(next));
    assert(args_of(seq![w], opts) == Ok::<_, Seq<char>>(next));
}

proof fn lemma_no_value_flag(cluster: Seq<char>, opts: Seq<char>)
    requires
        forall|i: int| 0 <= i < cluster.len() ==> !takes_value(opts, #[trigger] cluster[i]),
    ensures
        value_flag(cluster, opts) == cluster.len(),
    decreases cluster.len(),
{
    if cluster.len() > 0 {
        let t = cluster.skip(1);
        assert(!takes_value(opts, cluster[0]));
        assert forall|i: int| 0 <= i < t.len() implies !takes_value(opts, #[trigger] t[i]) by {
            assert(t[i] == cluster[i + 1]);
        }
        lemma_no_value_flag(t, opts);
    }
}

} // verus!
