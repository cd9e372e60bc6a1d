//! What holds of the expansion of format templates.

use crate::session::control_mode::format::{brace_from, comma_parts, expand, expand_var,
    lemma_comma_parts, top_comma, variable};
use crate::session::control_mode::state::ServerView;
use crate::text::{find, is_white_space, lemma_find, trim};
use crate::text_laws::{blank, law_trim_keeps_what_is_between};
use vstd::prelude::*;
use vstd::utf8::*;

verus! {

/// How many braces are open behind `s`, where `depth` are open before it; none,
/// where `s` closes one too many or holds a comma that is in no brace.
pub open spec fn depth_after(s: Seq<char>, depth: nat) -> Option<nat>
    decreases s.len(),
{
    if s.len() == 0 {
        Some(depth)
    } else if s[0] == '{' {
        depth_after(s.skip(1), depth + 1)
    } else if s[0] == '}' {
        if depth == 0 {
            None
        } else {
            depth_after(s.skip(1), (depth - 1) as nat)
        }
    } else if s[0] == ',' && depth == 0 {
        None
    } else {
        depth_after(s.skip(1), depth)
    }
}

/// How many braces are open behind `s`, where `depth` are open before it; none,
/// where `s` closes one too many.
pub open spec fn braces_after(s: Seq<char>, depth: nat) -> Option<nat>
    decreases s.len(),
{
    if s.len() == 0 {
        Some(depth)
    } else if s[0] == '{' {
        braces_after(s.skip(1), depth + 1)
    } else if s[0] == '}' {
        if depth == 0 {
            None
        } else {
            braces_after(s.skip(1), (depth - 1) as nat)
        }
    } else {
        braces_after(s.skip(1), depth)
    }
}

/// Whether the braces of a text match.
pub open spec fn is_balanced(s: Seq<char>) -> bool {
    braces_after(s, 0) == Some(0nat)
}

/// Whether a text can be a branch of a conditional: its braces match, and every
/// comma is in one.
pub open spec fn is_branch(s: Seq<char>) -> bool {
    depth_after(s, 0) == Some(0nat)
}

/// Whether a text can be the name of a variable: it holds none of the signs that
/// mean more inside braces.
pub open spec fn is_name(x: Seq<char>) -> bool {
    forall|i: int|
        0 <= i < x.len() ==> (#[trigger] x[i]) != '{' && x[i] != '}' && x[i] != ',' && x[i] != ':'
            && x[i] != '?'
}

/// `#{...}` around a text.
pub open spec fn hole(x: Seq<char>) -> Seq<char> {
    seq!['#', '{'] + x + seq!['}']
}

/// `#{?...}` with a condition and two branches.
pub open spec fn conditional(x: Seq<char>, a: Seq<char>, b: Seq<char>) -> Seq<char> {
    seq!['#', '{', '?'] + x + seq![','] + a + seq![','] + b + seq!['}']
}

proof fn lemma_name_is_branch(x: Seq<char>)
    requires
        is_name(x),
    ensures
        is_branch(x),
    decreases x.len(),
{
    if x.len() > 0 {
        let t = x.skip(1);
        assert(x[0] != '{' && x[0] != '}' && x[0] != ',');
        assert forall|i: int| 0 <= i < t.len() implies (#[trigger] t[i]) != '{' && t[i] != '}'
            && t[i] != ',' && t[i] != ':' && t[i] != '?' by {
            assert(t[i] == x[i + 1]);
        }
        lemma_name_is_branch(t);
    }
}

proof fn lemma_braces_concat(s: Seq<char>, t: Seq<char>, depth: nat)
    requires
        braces_after(s, depth) is Some,
    ensures
        braces_after(s + t, depth) == braces_after(t, braces_after(s, depth)->0),
    decreases s.len(),
{
    if s.len() == 0 {
        assert(s + t =~= t);
    } else {
        assert((s + t)[0] == s[0]);
        assert((s + t).skip(1) =~= s.skip(1) + t);
        if s[0] == '{' {
            lemma_braces_concat(s.skip(1), t, depth + 1);
        } else if s[0] == '}' {
            lemma_braces_concat(s.skip(1), t, (depth - 1) as nat);
        } else {
            lemma_braces_concat(s.skip(1), t, depth);
        }
    }
}

proof fn lemma_branch_is_balanced(s: Seq<char>, depth: nat)
    requires
        depth_after(s, depth) is Some,
    ensures
        braces_after(s, depth) == depth_after(s, depth),
    decreases s.len(),
{
    if s.len() > 0 {
        if s[0] == '{' {
            lemma_branch_is_balanced(s.skip(1), depth + 1);
        } else if s[0] == '}' {
            lemma_branch_is_balanced(s.skip(1), (depth - 1) as nat);
        } else {
            lemma_branch_is_balanced(s.skip(1), depth);
        }
    }
}

proof fn lemma_comma_behind(s: Seq<char>, t: Seq<char>, depth: nat)
    requires
        depth_after(s, depth) is Some,
    ensures
        top_comma(s + t, depth) == s.len() + top_comma(t, depth_after(s, depth)->0),
    decreases s.len(),
{
    if s.len() == 0 {
        assert(s + t =~= t);
    } else {
        assert((s + t)[0] == s[0]);
        assert((s + t).skip(1) =~= s.skip(1) + t);
        if s[0] == '{' {
            lemma_comma_behind(s.skip(1), t, depth + 1);
        } else if s[0] == '}' {
            lemma_comma_behind(s.skip(1), t, (depth - 1) as nat);
        } else {
            lemma_comma_behind(s.skip(1), t, depth);
        }
    }
}

/// The parts of branches with commas between them are the branches.
proof fn lemma_branch_parts(a: Seq<char>, rest: Seq<char>)
    requires
        is_branch(a),
    ensures
        comma_parts(a) == seq![a],
        comma_parts(a + seq![','] + rest) == seq![a] + comma_parts(rest),
{
    let e = Seq::<char>::empty();
    lemma_comma_behind(a, e, 0);
    assert(a + e =~= a);
    assert(top_comma(e, 0) == 0);
    assert(comma_parts(a) =~= seq![a]);
    let t = seq![','] + rest;
    let s = a + seq![','] + rest;
    assert(s =~= a + t);
    lemma_comma_behind(a, t, 0);
    assert(t[0] == ',');
    assert(top_comma(t, 0) == 0);
    assert(s.take(a.len() as int) =~= a);
    assert(s.skip(a.len() as int + 1) =~= rest);
}

proof fn lemma_brace_behind(all: Seq<char>, i: int, s: Seq<char>, depth: nat)
    requires
        0 <= i,
        i + s.len() <= all.len(),
        all.subrange(i, i + s.len()) == s,
        braces_after(s, depth) is Some,
    ensures
        brace_from(all, i, depth + 1) == brace_from(
            all,
            i + s.len(),
            braces_after(s, depth)->0 + 1,
        ),
    decreases s.len(),
{
    if s.len() > 0 {
        let t = s.skip(1);
        assert(all[i] == all.subrange(i, i + s.len())[0]);
        assert(all.subrange(i + 1, i + 1 + t.len()) =~= t) by {
            assert(all.subrange(i, i + s.len()).skip(1) =~= all.subrange(i + 1, i + 1 + t.len()));
        }
        if s[0] == '{' {
            lemma_brace_behind(all, i + 1, t, depth + 1);
        } else if s[0] == '}' {
            lemma_brace_behind(all, i + 1, t, (depth - 1) as nat);
        } else {
            lemma_brace_behind(all, i + 1, t, depth);
        }
    }
}

/// Braces around a text whose braces match are closed where it ends.
proof fn lemma_hole(v: ServerView, x: Seq<char>, t: Seq<char>, uid: Option<Seq<char>>)
    requires
        is_balanced(x),
    ensures
        expand(v, hole(x) + t, uid) == expand_var(v, x, uid) + expand(v, t, uid),
        expand(v, hole(x), uid) == expand_var(v, x, uid),
{
    let e = Seq::<char>::empty();
    lemma_hole_then(v, x, t, uid);
    lemma_hole_then(v, x, e, uid);
    assert(hole(x) + e =~= hole(x));
    assert(expand_var(v, x, uid) + e =~= expand_var(v, x, uid));
}

proof fn lemma_hole_then(v: ServerView, x: Seq<char>, t: Seq<char>, uid: Option<Seq<char>>)
    requires
        is_balanced(x),
    ensures
        expand(v, hole(x) + t, uid) == expand_var(v, x, uid) + expand(v, t, uid),
{
    let s = hole(x) + t;
    let end = x.len() as int + 2;
    assert(s[0] == '#' && s[1] == '{');
    assert(brace_from(s, 1, 0) == brace_from(s, 2, 1));
    assert(s.subrange(2, 2 + x.len() as int) =~= x);
    lemma_brace_behind(s, 2, x, 0);
    assert(s[end] == '}');
    assert(brace_from(s, end, 1) == Some(end));
    assert(s.subrange(2, end) =~= x);
    assert(s.skip(end + 1) =~= t);
}

/// Text without a `#` stands for itself, whatever follows it.
pub proof fn law_plain_text_stands_for_itself(
    v: ServerView,
    a: Seq<char>,
    t: Seq<char>,
    uid: Option<Seq<char>>,
)
    requires
        !a.contains('#'),
    ensures
        expand(v, a, uid) == a,
        expand(v, a + t, uid) == a + expand(v, t, uid),
{
    let e = Seq::<char>::empty();
    lemma_plain_then(v, a, t, uid);
    lemma_plain_then(v, a, e, uid);
    assert(a + e =~= a);
}

proof fn lemma_plain_then(v: ServerView, a: Seq<char>, t: Seq<char>, uid: Option<Seq<char>>)
    requires
        !a.contains('#'),
    ensures
        expand(v, a + t, uid) == a + expand(v, t, uid),
    decreases a.len(),
{
    if a.len() == 0 {
        assert(a + t =~= t);
        assert(a + expand(v, t, uid) =~= expand(v, t, uid));
    } else {
        let s = a + t;
        assert(s[0] == a[0]);
        assert(a.contains(a[0]));
        assert(s.skip(1) =~= a.skip(1) + t);
        assert forall|i: int| 0 <= i < a.skip(1).len() implies a.skip(1)[i] != '#' by {
            assert(a.contains(a[i + 1]));
        }
        lemma_plain_then(v, a.skip(1), t, uid);
        assert(seq![a[0]] + (a.skip(1) + expand(v, t, uid)) =~= a + expand(v, t, uid));
    }
}

/// `##` stands for one `#`.
pub proof fn law_doubled_sign_is_one(v: ServerView, t: Seq<char>, uid: Option<Seq<char>>)
    ensures
        expand(v, seq!['#', '#'] + t, uid) == seq!['#'] + expand(v, t, uid),
{
    let s = seq!['#', '#'] + t;
    assert(s[0] == '#' && s[1] == '#');
    assert(s.skip(2) =~= t);
}

/// `#{...}` is expanded by itself: what it stands for comes first, and then what
/// the text behind it stands for.
pub proof fn law_hole_is_expanded_by_itself(
    v: ServerView,
    x: Seq<char>,
    t: Seq<char>,
    uid: Option<Seq<char>>,
)
    requires
        is_balanced(x),
    ensures
        expand(v, hole(x) + t, uid) == expand(v, hole(x), uid) + expand(v, t, uid),
{
    lemma_hole(v, x, t, uid);
}

/// A name in `#{...}` stands for its variable, with white space around it left
/// out.
pub proof fn law_name_stands_for_its_variable(
    v: ServerView,
    a: Seq<char>,
    x: Seq<char>,
    b: Seq<char>,
    uid: Option<Seq<char>>,
)
    requires
        is_name(x),
        x.len() > 0,
        !is_white_space(x[0]),
        !is_white_space(x.last()),
        blank(a),
        blank(b),
    ensures
        expand(v, hole(a + x + b), uid) == variable(v, x, uid),
{
    let s = a + x + b;
    assert forall|i: int| 0 <= i < s.len() implies (#[trigger] s[i]) != '{' && s[i] != '}' && s[i]
        != ',' && s[i] != ':' && s[i] != '?' by {
        if i < a.len() {
            assert(s[i] == a[i]);
            assert(is_white_space(a[i]));
        } else if i < a.len() + x.len() {
            assert(s[i] == x[i - a.len()]);
        } else {
            assert(s[i] == b[i - a.len() - x.len()]);
            assert(is_white_space(b[i - a.len() - x.len()]));
        }
    }
    assert(is_name(s));
    lemma_name_is_branch(s);
    lemma_branch_is_balanced(s, 0);
    lemma_hole(v, s, Seq::empty(), uid);
    lemma_name_var(v, s, uid);
    law_trim_keeps_what_is_between(a, x, b);
}

proof fn lemma_name_var(v: ServerView, x: Seq<char>, uid: Option<Seq<char>>)
    requires
        is_name(x),
    ensures
        expand_var(v, x, uid) == variable(v, trim(x), uid),
{
    lemma_find(x, ':');
    if x.len() > 0 {
        assert(x[0] != '?');
    }
    if find(x, ':') < x.len() {
        assert(x[find(x, ':')] != ':');
    }
}

/// A conditional stands for its first branch where its condition stands for
/// anything but nothing and `0`, and for its second branch where it stands for
/// one of these.
pub proof fn law_conditional_takes_one_branch(
    v: ServerView,
    x: Seq<char>,
    a: Seq<char>,
    b: Seq<char>,
    t: Seq<char>,
    uid: Option<Seq<char>>,
)
    requires
        is_name(x),
        is_branch(a),
        is_branch(b),
    ensures
        ({
            let value = expand(v, hole(x), uid);
            let r = expand(v, conditional(x, a, b), uid);
            &&& value.len() > 0 && value != seq!['0'] ==> r == expand(v, a, uid)
            &&& value.len() == 0 || value == seq!['0'] ==> r == expand(v, b, uid)
            &&& expand(v, conditional(x, a, b) + t, uid) == r + expand(v, t, uid)
        }),
{
    let e = Seq::<char>::empty();
    let parts = x + seq![','] + a + seq![','] + b;
    let inner = seq!['?'] + parts;
    lemma_name_is_branch(x);
    lemma_branch_is_balanced(x, 0);
    lemma_branch_is_balanced(a, 0);
    lemma_branch_is_balanced(b, 0);
    let ab = a + seq![','] + b;
    assert(parts =~= x + seq![','] + ab);
    lemma_branch_parts(x, ab);
    lemma_branch_parts(a, b);
    lemma_branch_parts(b, e);
    assert(comma_parts(parts) =~= seq![x, a, b]);
    assert(inner.skip(1) =~= parts);
    assert(is_balanced(inner)) by {
        assert(inner[0] == '?');
        lemma_braces_concat(b, e, 0);
        lemma_comma_is_neutral(a, b);
        lemma_comma_is_neutral(x, ab);
        assert(braces_after(inner, 0) == braces_after(inner.skip(1), 0));
    }
    assert(conditional(x, a, b) =~= hole(inner));
    lemma_hole(v, inner, t, uid);
    lemma_hole(v, x, e, uid);
    reveal_strlit("0");
    assert("0"@ =~= seq!['0']);
    assert(inner[0] == '?');
    lemma_comma_parts(parts);
}

proof fn lemma_comma_is_neutral(a: Seq<char>, b: Seq<char>)
    requires
        is_balanced(a),
        is_balanced(b),
    ensures
        is_balanced(a + seq![','] + b),
{
    let t = seq![','] + b;
    lemma_braces_concat(a, t, 0);
    assert(a + seq![','] + b =~= a + t);
    assert(t[0] == ',');
    assert(t.skip(1) =~= b);
}

/// A modifier of one or two letters before a colon is left out: what follows it
/// is a template.
pub proof fn law_modifier_is_left_out(
    v: ServerView,
    m: Seq<char>,
    x: Seq<char>,
    uid: Option<Seq<char>>,
)
    requires
        1 <= m.len() <= 2,
        forall|i: int| 0 <= i < m.len() ==> 'A' <= (#[trigger] m[i]) <= 'z',
        is_balanced(x),
    ensures
        expand(v, hole(m + seq![':'] + x), uid) == expand(v, x, uid),
{
    let s = m + seq![':'] + x;
    let t = seq![':'] + x;
    assert(s =~= m + t);
    assert(s[0] == m[0]);
    assert(m.len() == 2 ==> s[1] == m[1]);
    assert(t.skip(1) =~= x);
    assert(t[0] == ':');
    assert(braces_after(t, 0) == Some(0nat));
    assert(s.skip(1) =~= m.skip(1) + t);
    if m.len() == 2 {
        assert(s.skip(1)[0] == m[1]);
        assert(s.skip(1).skip(1) =~= t);
        assert(braces_after(s.skip(1), 0) == Some(0nat));
    } else {
        assert(s.skip(1) =~= t);
    }
    assert(is_balanced(s));
    lemma_hole(v, s, Seq::empty(), uid);
    lemma_find(s, ':');
    let k = find(s, ':');
    assert(s[m.len() as int] == ':');
    assert(k == m.len());
    assert(s.take(k) =~= m);
    assert(s.skip(k + 1) =~= x);
    lemma_short_ascii(m);
    assert(!m.contains(' '));
}

proof fn lemma_short_ascii(m: Seq<char>)
    requires
        1 <= m.len() <= 2,
        forall|i: int| 0 <= i < m.len() ==> 'A' <= (#[trigger] m[i]) <= 'z',
    ensures
        encode_utf8(m).len() == m.len(),
{
    assert forall|i: int| 0 <= i < m.len() implies '\0' <= #[trigger] m[i] <= '\u{7f}' by {}
    is_ascii_chars_encode_utf8(m);
}

/// A longer name before a colon is no modifier: the whole is the name of a
/// variable.
pub proof fn law_longer_name_is_no_modifier(
    v: ServerView,
    m: Seq<char>,
    x: Seq<char>,
    uid: Option<Seq<char>>,
)
    requires
        m.len() > 2,
        forall|i: int| 0 <= i < m.len() ==> 'a' <= (#[trigger] m[i]) <= 'z',
    ensures
        expand_var(v, m + seq![':'] + x, uid) == variable(v, trim(m + seq![':'] + x), uid),
{
    let s = m + seq![':'] + x;
    assert(s[0] == m[0]);
    lemma_find(s, ':');
    let k = find(s, ':');
    assert(s[m.len() as int] == ':');
    if k < m.len() {
        assert(s[k] == m[k]);
    }
    assert(s.take(k) =~= m);
    assert forall|i: int| 0 <= i < m.len() implies '\0' <= #[trigger] m[i] <= '\u{7f}' by {}
    is_ascii_chars_encode_utf8(m);
    assert(encode_utf8(m).len() == m.len());
}

/// A brace that is never closed stands for itself, and so does what follows it.
pub proof fn law_open_brace_stands_for_itself(
    v: ServerView,
    x: Seq<char>,
    uid: Option<Seq<char>>,
)
    requires
        !x.contains('}'),
    ensures
        expand(v, seq!['#', '{'] + x, uid) == seq!['#', '{'] + x,
{
    let t = seq!['#', '{'] + x;
    assert forall|k: int| 1 <= k < t.len() implies #[trigger] t[k] != '}' by {
        if k >= 2 {
            assert(x.contains(x[k - 2]));
        }
    }
    lemma_never_closed(t, 1, 0);
}

proof fn lemma_never_closed(t: Seq<char>, i: int, depth: nat)
    requires
        0 <= i,
        forall|k: int| i <= k < t.len() ==> #[trigger] t[k] != '}',
    ensures
        brace_from(t, i, depth) is None,
    decreases t.len() - i,
{
    if i < t.len() {
        if t[i] == '{' {
            lemma_never_closed(t, i + 1, depth + 1);
        } else {
            lemma_never_closed(t, i + 1, depth);
        }
    }
}

/// A conditional without a second branch stands for nothing where its condition
/// fails, one without any branch always does, and more than two branches are as
/// two.
pub proof fn law_missing_branches_stand_for_nothing(
    v: ServerView,
    x: Seq<char>,
    a: Seq<char>,
    b: Seq<char>,
    more: Seq<char>,
    uid: Option<Seq<char>>,
)
    requires
        is_name(x),
        is_branch(a),
        is_branch(b),
    ensures
        ({
            let value = expand_var(v, x, uid);
            let holds = value.len() > 0 && value != seq!['0'];
            let one = expand_var(v, seq!['?'] + (x + seq![','] + a), uid);
            &&& holds ==> one == expand(v, a, uid)
            &&& !holds ==> one.len() == 0
            &&& expand_var(v, seq!['?'] + x, uid).len() == 0
            &&& expand_var(
                v,
                seq!['?'] + (x + seq![','] + (a + seq![','] + (b + seq![','] + more))),
                uid,
            ) == (if holds {
                expand(v, a, uid)
            } else {
                expand(v, b, uid)
            })
        }),
{
    let e = Seq::<char>::empty();
    lemma_name_is_branch(x);
    reveal_strlit("0");
    assert("0"@ =~= seq!['0']);
    let p = x + seq![','] + a;
    lemma_branch_parts(x, a);
    lemma_branch_parts(a, e);
    assert(comma_parts(p) =~= seq![x, a]);
    assert((seq!['?'] + p).skip(1) =~= p);
    lemma_comma_parts(p);
    assert((seq!['?'] + x).skip(1) =~= x);
    let bm = b + seq![','] + more;
    let abm = a + seq![','] + bm;
    let q = x + seq![','] + abm;
    lemma_branch_parts(x, abm);
    lemma_branch_parts(a, bm);
    lemma_branch_parts(b, more);
    assert((seq!['?'] + q).skip(1) =~= q);
    lemma_comma_parts(q);
    let ps = comma_parts(q);
    assert(ps == seq![x] + (seq![a] + (seq![b] + comma_parts(more))));
    assert(ps[0] == x && ps[1] == a && ps[2] == b);
}

/// A `#` before anything but a brace and another `#` stands for itself.
pub proof fn law_lone_sign_stands_for_itself(
    v: ServerView,
    c: char,
    t: Seq<char>,
    uid: Option<Seq<char>>,
)
    requires
        c != '#',
        c != '{',
    ensures
        expand(v, seq!['#', c] + t, uid) == seq!['#'] + expand(v, seq![c] + t, uid),
        expand(v, seq!['#'], uid) == seq!['#'],
{
    let s = seq!['#', c] + t;
    assert(s.skip(1) =~= seq![c] + t);
    let o = seq!['#'];
    assert(o.skip(1) =~= Seq::<char>::empty());
    assert(expand(v, Seq::empty(), uid) =~= Seq::<char>::empty());
    assert(expand(v, o, uid) =~= o);
}

} // verus!
