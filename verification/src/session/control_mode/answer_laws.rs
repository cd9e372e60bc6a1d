//! What holds of what commands answer: which options are shown, which panes are
//! listed, which session is there, and how words are read.

use crate::session::control_mode::args::{args_of, ArgsView};
use crate::session::control_mode::commands::{capture_pane, has_session, key_data, list_clients,
    list_panes, list_sessions, list_windows, option_args, option_scope, parse_size, refresh_client,
    resize, select, selected_notes, send_keys, set_option, show_options, shown, shown_in, silent,
    target_or_active};
use crate::session::control_mode::format::expand;
use crate::session::control_mode::lex::{is_plain, law_shown_value_reads_back, law_space_parts_words,
    needs_quotes, quote_inside, quote_value, quoted, special, words_from, words_of};
use crate::session::control_mode::options::{option_get, OptionView};
use crate::session::control_mode::state::{ServerView, SESSION_ID};
use crate::text::{dec, find, hex, is_white_space, lemma_find, parse_number, trim, trim_char,
    unsigned_digits};
use crate::text_laws::{law_hexadecimal_reads_back, law_number_reads_back,
    law_trim_char_keeps_what_is_between, lemma_trim_nothing, pow16, repeated};
use vstd::prelude::*;
use vstd::string::*;
use vstd::utf8::*;

verus! {

// ---------------------------------------------------------------------------
// Options
// ---------------------------------------------------------------------------

/// Where a target names a pane, an option of a pane or a window belongs to that
/// pane alone: other panes have others, and a pane's are not its window's.
pub proof fn law_pane_options_are_its_own(
    v: ServerView,
    a: ArgsView,
    b: ArgsView,
    x: Seq<char>,
    y: Seq<char>,
)
    requires
        !a.flags.contains('s') && !a.flags.contains('g'),
        !b.flags.contains('s') && !b.flags.contains('g'),
        a.flags.contains('p') || a.flags.contains('w'),
        b.flags.contains('p') || b.flags.contains('w'),
        a.value('t') matches Some(t) && v.resolve(t) == Some(x),
        b.value('t') matches Some(t) && v.resolve(t) == Some(y),
    ensures
        option_scope(v, a) == option_scope(v, b) ==> x == y && a.flags.contains('p')
            == b.flags.contains('p'),
        x == y && a.flags.contains('p') == b.flags.contains('p') ==> option_scope(v, a)
            == option_scope(v, b),
{
    reveal_strlit("pane");
    reveal_strlit("window");
    reveal_strlit(":");
    let s = option_scope(v, a);
    let t = option_scope(v, b);
    if a.flags.contains('p') {
        assert(s[0] == 'p');
        assert(s.skip(5) =~= x);
    } else {
        assert(s[0] == 'w');
        assert(s.skip(7) =~= x);
    }
    if b.flags.contains('p') {
        assert(t[0] == 'p');
        assert(t.skip(5) =~= y);
    } else {
        assert(t[0] == 'w');
        assert(t.skip(7) =~= y);
    }
}

/// The server's options and the global ones do not depend on a target, and the
/// server's, the global ones of each tier and the session's are all different.
pub proof fn law_stores_are_apart(v: ServerView, a: ArgsView)
    ensures
        ({
            let s = option_scope(v, a);
            let (p, w) = (a.flags.contains('p'), a.flags.contains('w'));
            &&& a.flags.contains('s') <==> s == "server"@
            &&& !a.flags.contains('s') && a.flags.contains('g') && !p && !w ==> s == "global"@
            &&& !a.flags.contains('s') && a.flags.contains('g') && p ==> s == "global-pane"@
            &&& !a.flags.contains('s') && a.flags.contains('g') && !p && w ==> s
                == "global-window"@
            &&& !a.flags.contains('s') && !a.flags.contains('g') && !p && !w ==> s == "$"@ + dec(
                SESSION_ID as nat,
            )
            &&& !a.flags.contains('s') && !a.flags.contains('g') && p && a.value('t') is None
                ==> s == "global-pane"@
            &&& !a.flags.contains('s') && !a.flags.contains('g') && !p && w && a.value('t') is None
                ==> s == "global-window"@
        }),
{
    reveal_strlit("server");
    reveal_strlit("global");
    reveal_strlit("global-pane");
    reveal_strlit("global-window");
    reveal_strlit("global-");
    reveal_strlit("pane");
    reveal_strlit("window");
    reveal_strlit(":");
    reveal_strlit("$");
    assert("server"@[0] == 's');
    assert("global"@[0] == 'g');
    assert("global-pane"@[0] == 'g');
    assert("global-window"@[0] == 'g');
    assert("global-"@ + "pane"@ =~= "global-pane"@);
    assert("global-"@ + "window"@ =~= "global-window"@);
    let s = option_scope(v, a);
    if !a.flags.contains('s') {
        assert(s[0] == 'g' || s[0] == 'p' || s[0] == 'w' || s[0] == '$');
    }
}

/// All options of a scope are shown, in the order they are kept, and those of
/// other scopes are not.
pub proof fn law_options_of_a_scope_are_shown(
    a: Seq<OptionView>,
    b: Seq<OptionView>,
    o: OptionView,
    scope: Seq<char>,
    value_only: bool,
)
    ensures
        shown_in(a + b, scope, value_only) == shown_in(a, scope, value_only) + shown_in(
            b,
            scope,
            value_only,
        ),
        o.scope == scope ==> shown_in(seq![o], scope, true) == seq![o.value],
        o.scope == scope ==> shown_in(seq![o], scope, false) == seq![shown(o.name, o.value, false)],
        o.scope != scope ==> shown_in(seq![o], scope, value_only).len() == 0,
    decreases a.len(),
{
    assert(seq![o].skip(1) =~= Seq::<OptionView>::empty());
    reveal_with_fuel(shown_in, 2);
    if o.scope == scope {
        assert(shown_in(seq![o], scope, true) =~= seq![o.value]);
        assert(shown_in(seq![o], scope, false) =~= seq![shown(o.name, o.value, false)]);
    }
    if a.len() > 0 {
        law_options_of_a_scope_are_shown(a.skip(1), b, o, scope, value_only);
        assert((a + b).skip(1) =~= a.skip(1) + b);
        assert((a + b)[0] == a[0]);
        assert(shown_in(a + b, scope, value_only) =~= shown_in(a, scope, value_only) + shown_in(
            b,
            scope,
            value_only,
        ));
    } else {
        assert(a + b =~= b);
        assert(shown_in(a, scope, value_only) + shown_in(b, scope, value_only) =~= shown_in(
            b,
            scope,
            value_only,
        ));
    }
}

/// Only options of a client's own are set: any other name is refused, and so is
/// none at all, and neither changes anything.
pub proof fn law_only_own_options_are_set(
    v: ServerView,
    args: Seq<Seq<char>>,
    window: bool,
    a: ArgsView,
)
    requires
        option_args(args, window) == Ok::<ArgsView, Seq<char>>(a),
        a.positionals.len() == 0 || a.positionals[0].len() == 0 || a.positionals[0][0] != '@',
    ensures
        set_option(v, args, window).body is Err,
        set_option(v, args, window).state == v,
        set_option(v, args, window).actions.len() == 0,
{
}

/// An option that is not set is an error to ask for, unless the question was to
/// be quiet or for the value alone.
pub proof fn law_unset_option_is_an_error(
    v: ServerView,
    args: Seq<Seq<char>>,
    window: bool,
    a: ArgsView,
)
    requires
        option_args(args, window) == Ok::<ArgsView, Seq<char>>(a),
        a.positionals.len() > 0,
        option_get(v.options, option_scope(v, a), a.positionals[0]) is None,
    ensures
        a.flags.contains('q') || a.flags.contains('v') ==> show_options(v, args, window)
            == silent(),
        !a.flags.contains('q') && !a.flags.contains('v') ==> show_options(v, args, window) is Err,
{
}

// ---------------------------------------------------------------------------
// Lists
// ---------------------------------------------------------------------------

/// A target that names a pane means it; without one, or where it names none,
/// the active pane is meant.
pub proof fn law_target_means_its_pane(v: ServerView, a: ArgsView)
    ensures
        a.value('t') is None ==> target_or_active(v, a) == v.active,
        a.value('t') matches Some(t) ==> (v.resolve(t) is Some ==> target_or_active(v, a)
            == v.resolve(t)) && (v.resolve(t) is None ==> target_or_active(v, a) == v.active),
{
}

/// A list is narrowed to the pane that its target names: of windows only by a
/// window's id, and of panes unless all are asked for.
pub proof fn law_lists_are_narrowed_by_a_target(
    v: ServerView,
    args: Seq<Seq<char>>,
    a: ArgsView,
    f: Seq<char>,
    t: Seq<char>,
    uid: Seq<char>,
)
    requires
        args_of(args, "F:t:f:"@) == Ok::<_, Seq<char>>(a),
        a.value('F') == Some(f),
        a.value('t') == Some(t),
        v.resolve(t) == Some(uid),
        v.uids().len() == v.panes.len(),
    ensures
        ({
            let one = Ok::<Seq<Seq<char>>, Seq<char>>(seq![expand(v, f, Some(uid))]);
            let all = a.flags.contains('s') || a.flags.contains('a');
            &&& t.len() > 0 && t[0] == '@' ==> list_windows(v, args) == one
            &&& t.len() == 0 || t[0] != '@' ==> (list_windows(v, args) matches Ok(ls) && ls.len()
                == v.panes.len())
            &&& !all ==> list_panes(v, args) == one
            &&& all ==> (list_panes(v, args) matches Ok(ls) && ls.len() == v.panes.len())
        }),
{
    let one = seq![expand(v, f, Some(uid))];
    if t.len() > 0 && t[0] == '@' {
        assert(list_windows(v, args)->Ok_0 =~= one);
    }
    if !(a.flags.contains('s') || a.flags.contains('a')) {
        assert(list_panes(v, args)->Ok_0 =~= one);
    }
}

/// The one session is listed with its name and the number of its windows, and
/// the one client with its name and its size, columns before rows.
pub proof fn law_session_and_client_are_listed(v: ServerView)
    ensures
        ({
            let s = v.session_name + ": "@ + dec(v.panes.len());
            let c = v.client_name + ": "@ + v.session_name + " ["@ + dec(v.client_size.0 as nat)
                + "x"@ + dec(v.client_size.1 as nat);
            &&& list_sessions(v, Seq::empty()) matches Ok(ls) && ls.len() == 1 && ls[0].take(
                s.len() as int,
            ) == s
            &&& list_clients(v, Seq::empty()) matches Ok(ls) && ls.len() == 1 && ls[0].take(
                c.len() as int,
            ) == c
        }),
{
    let s = v.session_name + ": "@ + dec(v.panes.len());
    let c = v.client_name + ": "@ + v.session_name + " ["@ + dec(v.client_size.0 as nat) + "x"@
        + dec(v.client_size.1 as nat);
    let none = Seq::<Seq<char>>::empty();
    assert((s + " windows (attached)"@).take(s.len() as int) =~= s);
    assert((c + " control] (control mode)"@).take(c.len() as int) =~= c);
    assert(list_sessions(v, none) matches Ok(ls) && ls[0] == s + " windows (attached)"@);
    assert(list_clients(v, none) matches Ok(ls) && ls[0] =~= c + " control] (control mode)"@);
}

/// The session is there by its number and by whatever names a pane; asking
/// without a target finds it, and what is neither is an error that tells it.
pub proof fn law_session_is_found(v: ServerView, args: Seq<Seq<char>>, a: ArgsView)
    requires
        args_of(args, "t:"@) == Ok::<_, Seq<char>>(a),
    ensures
        a.value('t') is None ==> has_session(v, args) == silent(),
        a.value('t') matches Some(t) ==> (v.resolve(t) is Some ==> has_session(v, args)
            == silent()),
        has_session(v, args) matches Err(e) ==> (a.value('t') matches Some(t) && v.resolve(t)
            is None && e.skip(e.len() - t.len()) == t),
{
    if let Some(t) = a.value('t') {
        let e = "can't find session: "@ + t;
        assert(e.skip(e.len() - t.len()) =~= t);
    }
}

/// Selecting a pane tells which window is current in the session and which pane
/// in the window, in this order.
pub proof fn law_selection_is_told(v: ServerView, uid: Seq<char>, w: u32, p: u32)
    requires
        v.window_id(uid) == Some(w),
        v.pane_id(uid) == Some(p),
    ensures
        ({
            let ns = selected_notes(v, uid);
            &&& ns.len() == 2
            &&& ns[0] == encode_utf8(
                "%session-window-changed $"@ + dec(SESSION_ID as nat) + " @"@ + dec(w as nat),
            )
            &&& ns[1] == encode_utf8(
                "%window-pane-changed @"@ + dec(w as nat) + " %"@ + dec(p as nat),
            )
        }),
{
}

// ---------------------------------------------------------------------------
// Words
// ---------------------------------------------------------------------------

/// A key behind `0x` is the character of that number, and sends its bytes; a
/// number that no character has is an error.
pub proof fn law_numbered_key_is_its_character(n: u32, w: nat)
    requires
        0 < w,
        (n as nat) < pow16(w),
    ensures
        ({
            let k = "0x"@ + hex(n as nat, w);
            &&& is_scalar(n) ==> key_data(k) == Ok::<Seq<u8>, Seq<char>>(encode_scalar(n))
            &&& !is_scalar(n) ==> key_data(k) is Err
        }),
{
    reveal_strlit("0x");
    let h = hex(n as nat, w);
    let k = "0x"@ + h;
    assert(k.take(2) =~= "0x"@);
    assert(k.skip(2) =~= h);
    law_hexadecimal_reads_back(n as nat, w);
    assert(h[0] != '+') by {
        assert(crate::text::digit_value(h[0], 16) is Some);
    }
    assert(unsigned_digits(h) == h);
    assert(parse_number(h, 16, u32::MAX as nat) == Some(n as nat));
}

/// Inside double quotes a backslash before `n`, `r`, `t` and `e` stands for a
/// newline, a carriage return, a tab and an escape, and before anything else for
/// that.
pub proof fn law_backslash_in_double_quotes(c: char)
    ensures
        words_of(seq!['"', '\\', c, '"']) == Ok::<Seq<Seq<char>>, Seq<char>>(
            seq![
                seq![
                    if c == 'n' {
                        '\n'
                    } else if c == 'r' {
                        '\r'
                    } else if c == 't' {
                        '\t'
                    } else if c == 'e' {
                        '\u{1b}'
                    } else {
                        c
                    },
                ],
            ],
        ),
{
    let s = seq!['"', '\\', c, '"'];
    let t = s.skip(1);
    assert(t.skip(2) =~= seq!['"']);
    reveal_with_fuel(quoted, 3);
    reveal_with_fuel(words_from, 3);
    assert(!is_white_space('"'));
    let q = quoted(t)->Ok_0;
    assert(q.1 == 3);
    assert(s.skip(4) =~= Seq::<char>::empty());
    assert(Seq::<char>::empty() + q.0 =~= q.0);
    let u = if c == 'n' {
        '\n'
    } else if c == 'r' {
        '\r'
    } else if c == 't' {
        '\t'
    } else if c == 'e' {
        '\u{1b}'
    } else {
        c
    };
    assert(q.0 =~= seq![u]);
}

/// Outside quotes a backslash makes any character stand for itself.
pub proof fn law_backslash_outside_quotes(line: Seq<char>, c: char, cur: Seq<char>, begun: bool)
    ensures
        words_from(seq!['\\', c] + line, cur, begun) == words_from(line, cur.push(c), true),
        words_of(seq!['\\', c]) == Ok::<Seq<Seq<char>>, Seq<char>>(seq![seq![c]]),
        words_of(seq!['\\']) is Err,
{
    let s = seq!['\\', c] + line;
    assert(s.skip(2) =~= line);
    assert(!is_white_space('\\'));
    let t = seq!['\\', c];
    assert(t.skip(2) =~= Seq::<char>::empty());
    assert(Seq::<char>::empty().push(c) =~= seq![c]);
    reveal_with_fuel(words_from, 2);
}

/// A value is shown as it is exactly where it is not empty and holds no white
/// space, no quote, no backslash, and none of `$`, `;` and `#`; any other stands
/// in double quotes.
pub proof fn law_values_are_quoted_where_needed(v: Seq<char>, i: int)
    ensures
        (v.len() > 0 && forall|k: int|
            0 <= k < v.len() ==> !is_white_space(#[trigger] v[k]) && v[k] != '"' && v[k] != '\''
                && v[k] != '\\' && v[k] != '$' && v[k] != ';' && v[k] != '#') ==> quote_value(v)
            == v,
        v.len() == 0 || (0 <= i < v.len() && (is_white_space(v[i]) || v[i] == '"' || v[i] == '\''
            || v[i] == '\\' || v[i] == '$' || v[i] == ';' || v[i] == '#')) ==> {
            let q = quote_value(v);
            q.len() >= 2 && q[0] == '"' && q.last() == '"'
        },
{
    if v.len() == 0 || (0 <= i < v.len() && special(v[i])) {
        assert(needs_quotes(v));
    }
}

/// Without a pane there is nothing to type into, to resize or to show.
pub proof fn law_nothing_is_done_without_a_pane(
    v: ServerView,
    args: Seq<Seq<char>>,
    a: ArgsView,
)
    requires
        target_or_active(v, a) is None,
    ensures
        args_of(args, "t:N:X:"@) == Ok::<_, Seq<char>>(a) ==> send_keys(v, args).body is Err,
        args_of(args, "t:x:y:"@) == Ok::<_, Seq<char>>(a) ==> resize(v, args).body is Err,
        args_of(args, "t:S:E:b:"@) == Ok::<_, Seq<char>>(a) ==> capture_pane(v, args) is Err,
{
}

/// A size that is no number, or too large for one, is refused.
pub proof fn law_bad_sizes_are_refused(
    v: ServerView,
    args: Seq<Seq<char>>,
    a: ArgsView,
    s: Seq<char>,
)
    requires
        target_or_active(v, a) is Some,
        parse_number(s, 10, 0xffff) is None,
    ensures
        args_of(args, "t:x:y:"@) == Ok::<_, Seq<char>>(a) && (a.value('x') == Some(s) || a.value(
            'y',
        ) == Some(s)) ==> resize(v, args).body is Err,
        args_of(args, "C:f:A:B:t:"@) == Ok::<_, Seq<char>>(a) && a.value('C') == Some(s)
            && parse_size(s) is None && !s.contains(':') ==> refresh_client(v, args).body is Err,
{
    lemma_find(s, ':');
    if find(s, ':') < s.len() {
        assert(s.contains(s[find(s, ':')]));
    }
}

/// Selecting needs a target that names a pane.
pub proof fn law_selection_needs_a_pane(v: ServerView, args: Seq<Seq<char>>, a: ArgsView)
    requires
        args_of(args, "t:"@) == Ok::<_, Seq<char>>(a),
        a.value('t') matches Some(t) ==> v.resolve(t) is None,
    ensures
        select(v, args).body is Err,
{
}

/// An option is shown as words that name it and give its value back, whatever
/// the value holds.
pub proof fn law_shown_option_reads_back(name: Seq<char>, value: Seq<char>)
    requires
        is_plain(name),
    ensures
        words_of(shown(name, value, false)) == Ok::<Seq<Seq<char>>, Seq<char>>(seq![name, value]),
        shown(name, value, true) == value,
{
    reveal_strlit(" ");
    let s = name + seq![' '] + quote_value(value);
    assert(shown(name, value, false) =~= s);
    law_plain_word_is_itself(name);
    law_space_parts_words(name, quote_value(value));
    law_shown_value_reads_back(value);
    assert(seq![name] + seq![value] =~= seq![name, value]);
}

/// A plain word is one word, itself.
pub proof fn law_plain_word_is_itself(w: Seq<char>)
    requires
        is_plain(w),
    ensures
        words_of(w) == Ok::<Seq<Seq<char>>, Seq<char>>(seq![w]),
{
    lemma_plain_from(w, Seq::empty(), false);
    assert(Seq::<char>::empty() + w =~= w);
}

proof fn lemma_plain_from(w: Seq<char>, cur: Seq<char>, begun: bool)
    requires
        w.len() > 0 || begun,
        forall|k: int|
            0 <= k < w.len() ==> !is_white_space(#[trigger] w[k]) && w[k] != '\'' && w[k] != '"'
                && w[k] != '\\',
    ensures
        words_from(w, cur, begun) == Ok::<Seq<Seq<char>>, Seq<char>>(seq![cur + w]),
    decreases w.len(),
{
    if w.len() > 0 {
        let t = w.skip(1);
        assert forall|k: int| 0 <= k < t.len() implies !is_white_space(#[trigger] t[k]) && t[k]
            != '\'' && t[k] != '"' && t[k] != '\\' by {
            assert(t[k] == w[k + 1]);
        }
        assert(!is_white_space(w[0]));
        lemma_plain_from(t, cur.push(w[0]), true);
        assert(cur.push(w[0]) + t =~= cur + w);
    } else {
        assert(cur + w =~= cur);
    }
}

/// Quoted parts and plain ones that touch are one word.
pub proof fn law_touching_parts_are_one_word(a: Seq<char>, b: Seq<char>)
    requires
        is_plain(a),
        !b.contains('\''),
    ensures
        words_from(seq!['\''] + b + seq!['\''], a, true) == Ok::<Seq<Seq<char>>, Seq<char>>(
            seq![a + b],
        ),
        words_of(seq!['\''] + b + seq!['\''] + a) == Ok::<Seq<Seq<char>>, Seq<char>>(seq![b + a]),
{
    assert(!is_white_space('\''));
    let s = seq!['\''] + b + seq!['\''];
    lemma_quote_end(b, Seq::empty());
    assert(s.skip(1) =~= b + seq!['\''] + Seq::<char>::empty());
    assert(s.subrange(1, b.len() as int + 1) =~= b);
    assert(s.skip(b.len() as int + 2) =~= Seq::<char>::empty());
    lemma_plain_from(Seq::empty(), a + b, true);
    assert(a + b + Seq::<char>::empty() =~= a + b);
    let t = s + a;
    lemma_quote_end(b, a);
    assert(t.skip(1) =~= b + seq!['\''] + a);
    assert(t.subrange(1, b.len() as int + 1) =~= b);
    assert(t.skip(b.len() as int + 2) =~= a);
    assert(Seq::<char>::empty() + b =~= b);
    lemma_plain_from(a, b, true);
}

proof fn lemma_quote_end(b: Seq<char>, rest: Seq<char>)
    requires
        !b.contains('\''),
    ensures
        find(b + seq!['\''] + rest, '\'') == b.len(),
{
    let s = b + seq!['\''] + rest;
    lemma_find(s, '\'');
    assert(s[b.len() as int] == '\'');
    if find(s, '\'') < b.len() {
        assert(b[find(s, '\'')] == '\'');
    }
}

/// A target that is neither a uid nor the place of a window names nothing, and
/// neither does the id of no pane.
pub proof fn law_other_targets_name_nothing(v: ServerView, n: nat)
    requires
        n >= v.panes.len(),
        !v.has(dec(n)),
    ensures
        v.resolve(dec(n)) is None,
        n > u32::MAX ==> v.resolve(seq!['%'] + dec(n)) is None,
        n > u32::MAX ==> v.resolve(seq!['@'] + dec(n)) is None,
{
    law_number_reads_back(n, n);
    law_number_reads_back(n, usize::MAX as nat);
    law_number_reads_back(n, u32::MAX as nat);
    let d = dec(n);
    assert('0' <= d[0] <= '9' && '0' <= d[d.len() - 1] <= '9');
    lemma_bare(d);
    let p = seq!['%'] + d;
    let w = seq!['@'] + d;
    assert(p.last() == d.last() && w.last() == d.last());
    lemma_bare(p);
    lemma_bare(w);
    assert(p.skip(1) =~= d && w.skip(1) =~= d);
}

proof fn lemma_bare(t: Seq<char>)
    requires
        t.len() > 0,
        !is_white_space(t[0]) && !is_white_space(t.last()),
        t[0] != '"' && t[0] != '\'' && t.last() != '"' && t.last() != '\'',
    ensures
        trim_char(trim_char(trim(t), '"'), '\'') == t,
{
    lemma_trim_nothing(t);
    law_trim_char_keeps_what_is_between(0, t, 0, '"');
    law_trim_char_keeps_what_is_between(0, t, 0, '\'');
    assert(repeated('"', 0) + t + repeated('"', 0) =~= t);
    assert(repeated('\'', 0) + t + repeated('\'', 0) =~= t);
}

/// Inside the quotes of a shown value a backslash stands before each quote,
/// backslash and dollar sign, and before nothing else.
pub proof fn law_quotes_escape_what_means_more(a: Seq<char>, b: Seq<char>, c: char)
    ensures
        quote_inside(a + b) == quote_inside(a) + quote_inside(b),
        c == '"' || c == '\\' || c == '$' ==> quote_inside(seq![c]) == seq!['\\', c],
        c != '"' && c != '\\' && c != '$' ==> quote_inside(seq![c]) == seq![c],
    decreases b.len(),
{
    let one = seq![c];
    assert(one.drop_last() =~= Seq::<char>::empty());
    assert(quote_inside(Seq::<char>::empty()) =~= Seq::<char>::empty());
    if c == '"' || c == '\\' || c == '$' {
        assert(quote_inside(one) =~= seq!['\\', c]);
    } else {
        assert(quote_inside(one) =~= one);
    }
    if b.len() > 0 {
        assert((a + b).drop_last() =~= a + b.drop_last());
        law_quotes_escape_what_means_more(a, b.drop_last(), c);
        assert((a + b).last() == b.last());
        assert(quote_inside(a + b) =~= quote_inside(a) + quote_inside(b));
    } else {
        assert(a + b =~= a);
        assert(quote_inside(a) + quote_inside(b) =~= quote_inside(a));
    }
}

} // verus!
