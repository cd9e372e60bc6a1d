//! What holds of single commands: what reaches a pane and in which order, which
//! sizes are asked for, what is captured, and which pane is meant.

use crate::session::attach::ResizePolicy;
use crate::session::control_mode::args::{args_of, first_value, takes_value, ArgsView};
use crate::session::control_mode::args_laws::{dash, law_first_value_counts, law_flag_has_its_value,
    law_flag_is_set, law_word_is_kept, law_words_add_up, law_words_keep_their_order, stands_alone,
    together};
use crate::session::control_mode::commands::{capture_pane, display_message, expand_each, hex_data,
    key_data, keys_data, list_panes, list_windows, literal_data, parse_size, refresh_client, resize,
    select, send_keys, silent, target_or_active};
use crate::session::control_mode::format::expand;
use crate::session::control_mode::ids::{assign, law_ids_unique_and_bounded};
use crate::session::control_mode::pane::ActionView;
use crate::session::control_mode::state::{lemma_published, ServerView};
use crate::text::{dec, find, find_either, is_white_space, lemma_find, lemma_position,
    lemma_utf8_concat, lines, parse_number, position, trim, trim_char};
use crate::text_laws::{blank, law_number_reads_back, law_trim_char_keeps_what_is_between,
    law_trim_end_cuts_the_end, law_trim_keeps_what_is_between, lemma_trim_nothing, repeated};
use vstd::prelude::*;
use vstd::utf8::*;

verus! {

// ---------------------------------------------------------------------------
// Keys
// ---------------------------------------------------------------------------

/// Literal words are sent in the order in which they stand, each as its UTF-8
/// bytes: what is sent for words behind words comes behind what is sent for
/// those.
pub proof fn law_literal_words_arrive_in_order(a: Seq<Seq<char>>, b: Seq<Seq<char>>, w: Seq<char>)
    ensures
        literal_data(a + b) == literal_data(a) + literal_data(b),
        literal_data(seq![w]) == encode_utf8(w),
    decreases a.len(),
{
    assert(seq![w].skip(1).len() == 0);
    assert(literal_data(seq![w].skip(1)) =~= Seq::<u8>::empty());
    assert(encode_utf8(w) + Seq::<u8>::empty() =~= encode_utf8(w));
    if a.len() == 0 {
        assert(a + b =~= b);
        assert(literal_data(a) + literal_data(b) =~= literal_data(b));
    } else {
        assert((a + b)[0] == a[0]);
        assert((a + b).skip(1) =~= a.skip(1) + b);
        law_literal_words_arrive_in_order(a.skip(1), b, w);
        assert(encode_utf8(a[0]) + (literal_data(a.skip(1)) + literal_data(b)) =~= literal_data(a)
            + literal_data(b));
    }
}

/// Literal words are sent as the text that they are, one behind the other.
pub proof fn law_literal_text_is_sent_as_typed(words: Seq<Seq<char>>)
    ensures
        literal_data(words) == encode_utf8(words.flatten()),
    decreases words.len(),
{
    if words.len() == 0 {
        assert(words.flatten() =~= Seq::<char>::empty());
        assert(encode_utf8(Seq::<char>::empty()) =~= Seq::<u8>::empty());
    } else {
        let rest = words.skip(1);
        law_literal_text_is_sent_as_typed(rest);
        assert(words.drop_first() =~= rest);
        assert(words.flatten() == words[0] + rest.flatten());
        lemma_utf8_concat(words[0], rest.flatten());
    }
}

/// Two results, one behind the other; the first that fails is the whole.
pub open spec fn both(
    x: Result<Seq<u8>, Seq<char>>,
    y: Result<Seq<u8>, Seq<char>>,
) -> Result<Seq<u8>, Seq<char>> {
    match x {
        Err(e) => Err(e),
        Ok(a) => match y {
            Err(e) => Err(e),
            Ok(b) => Ok(a + b),
        },
    }
}

/// Keys are sent in the order in which they stand, each as the bytes it has by
/// itself, and the first that is none is the error.
pub proof fn law_keys_arrive_in_order(a: Seq<Seq<char>>, b: Seq<Seq<char>>, w: Seq<char>)
    ensures
        keys_data(a + b) == both(keys_data(a), keys_data(b)),
        keys_data(seq![w]) == key_data(w),
    decreases a.len(),
{
    let e = Seq::<u8>::empty();
    assert(seq![w].skip(1).len() == 0);
    assert(keys_data(seq![w].skip(1)) == Ok::<Seq<u8>, Seq<char>>(e));
    if let Ok(x) = key_data(w) {
        assert(x + e =~= x);
    }
    if a.len() == 0 {
        assert(a + b =~= b);
        if let Ok(y) = keys_data(b) {
            assert(e + y =~= y);
        }
    } else {
        assert((a + b)[0] == a[0]);
        assert((a + b).skip(1) =~= a.skip(1) + b);
        law_keys_arrive_in_order(a.skip(1), b, w);
        if let Ok(x) = key_data(a[0]) {
            if let Ok(y) = keys_data(a.skip(1)) {
                if let Ok(z) = keys_data(b) {
                    assert(x + (y + z) =~= (x + y) + z);
                }
            }
        }
    }
}

/// Hexadecimal bytes are sent in the order in which they stand, each as the
/// number it writes, and the first that writes none up to 255 is the error.
pub proof fn law_hex_bytes_arrive_in_order(a: Seq<Seq<char>>, b: Seq<Seq<char>>, w: Seq<char>)
    ensures
        hex_data(a + b) == both(hex_data(a), hex_data(b)),
        match parse_number(w, 16, 255) {
            Some(n) => hex_data(seq![w]) == Ok::<Seq<u8>, Seq<char>>(seq![n as u8]),
            None => hex_data(seq![w]) is Err,
        },
    decreases a.len(),
{
    let e = Seq::<u8>::empty();
    assert(seq![w].skip(1).len() == 0);
    assert(hex_data(seq![w].skip(1)) == Ok::<Seq<u8>, Seq<char>>(e));
    if let Some(n) = parse_number(w, 16, 255) {
        assert(seq![n as u8] + e =~= seq![n as u8]);
    }
    if a.len() == 0 {
        assert(a + b =~= b);
        if let Ok(y) = hex_data(b) {
            assert(e + y =~= y);
        }
    } else {
        assert((a + b)[0] == a[0]);
        assert((a + b).skip(1) =~= a.skip(1) + b);
        law_hex_bytes_arrive_in_order(a.skip(1), b, w);
        if let Some(n) = parse_number(a[0], 16, 255) {
            let x = seq![n as u8];
            if let Ok(y) = hex_data(a.skip(1)) {
                if let Ok(z) = hex_data(b) {
                    assert(x + (y + z) =~= (x + y) + z);
                }
            }
        }
    }
}

/// The flag `-t` with a target.
pub open spec fn aimed(target: Seq<char>) -> Seq<Seq<char>> {
    seq![dash('t'), target]
}

proof fn lemma_send_opts()
    ensures
        takes_value("t:N:X:"@, 't'),
        !takes_value("t:N:X:"@, 'l'),
        !takes_value("t:N:X:"@, 'H'),
{
    reveal_strlit("t:N:X:");
    let o = "t:N:X:"@;
    assert(o =~= seq!['t', ':', 'N', ':', 'X', ':']);
    assert(o[0] == 't' && o[1] == ':');
}

/// The arguments of a flag, a target and words.
proof fn lemma_flag_target_words(
    c: char,
    target: Seq<char>,
    words: Seq<Seq<char>>,
    opts: Seq<char>,
)
    requires
        takes_value(opts, 't'),
        !takes_value(opts, c),
        !('0' <= c <= '9'),
        forall|i: int| 0 <= i < words.len() ==> stands_alone(#[trigger] words[i]),
    ensures
        args_of(aimed(target) + words, opts) == Ok::<_, Seq<char>>(
            ArgsView { flags: Set::empty(), values: seq![('t', target)], positionals: words },
        ),
        args_of(seq![dash(c)] + aimed(target) + words, opts) == Ok::<_, Seq<char>>(
            ArgsView { flags: set![c], values: seq![('t', target)], positionals: words },
        ),
{
    law_flag_is_set(c, opts);
    law_flag_has_its_value('t', target, opts);
    law_words_keep_their_order(words, opts);
    let f = args_of(seq![dash(c)], opts)->Ok_0;
    let t = args_of(aimed(target), opts)->Ok_0;
    let w = args_of(words, opts)->Ok_0;
    law_words_add_up(aimed(target), words, opts);
    let tw = ArgsView { flags: Set::empty(), values: seq![('t', target)], positionals: words };
    assert(together(t, w) =~= tw);
    law_words_add_up(seq![dash(c)], aimed(target) + words, opts);
    assert(seq![dash(c)] + aimed(target) + words =~= seq![dash(c)] + (aimed(target) + words));
    assert(together(f, tw) =~= (ArgsView {
        flags: set![c],
        values: seq![('t', target)],
        positionals: words,
    }));
}

/// `send-keys` writes to the pane that its target names: under `-l` the text of
/// its words as it was typed, under `-H` the bytes, else the keys. Nothing else
/// is asked for, nothing is answered, and where there is nothing to send,
/// nothing is written.
pub proof fn law_keys_reach_their_pane(
    v: ServerView,
    target: Seq<char>,
    uid: Seq<char>,
    words: Seq<Seq<char>>,
)
    requires
        v.resolve(target) == Some(uid),
        forall|i: int| 0 <= i < words.len() ==> stands_alone(#[trigger] words[i]),
    ensures
        ({
            let text = encode_utf8(words.flatten());
            let o = send_keys(v, seq![dash('l')] + aimed(target) + words);
            &&& o.state == v
            &&& o.body == silent()
            &&& text.len() > 0 ==> o.actions == seq![ActionView::Write { uid, data: text }]
            &&& text.len() == 0 ==> o.actions.len() == 0
        }),
        writes(v, send_keys(v, seq![dash('H')] + aimed(target) + words).actions, uid, hex_data(words)),
        writes(v, send_keys(v, aimed(target) + words).actions, uid, keys_data(words)),
        hex_data(words) is Err <==> send_keys(
            v,
            seq![dash('H')] + aimed(target) + words,
        ).body is Err,
        keys_data(words) is Err <==> send_keys(v, aimed(target) + words).body is Err,
{
    let opts = "t:N:X:"@;
    lemma_send_opts();
    lemma_flag_target_words('l', target, words, opts);
    lemma_flag_target_words('H', target, words, opts);
    law_literal_text_is_sent_as_typed(words);
    assert(set!['l'].contains('l') && !set!['l'].contains('H'));
    assert(set!['H'].contains('H'));
}

/// Whether the bytes that came out are the one thing that is written, and to
/// `uid`.
pub open spec fn writes(
    v: ServerView,
    actions: Seq<ActionView>,
    uid: Seq<char>,
    data: Result<Seq<u8>, Seq<char>>,
) -> bool {
    match data {
        Ok(d) => if d.len() > 0 {
            actions == seq![ActionView::Write { uid, data: d }]
        } else {
            actions.len() == 0
        },
        Err(_) => actions.len() == 0,
    }
}

// ---------------------------------------------------------------------------
// Screens
// ---------------------------------------------------------------------------

/// A captured screen has the lines of the screen in their order, each whole but
/// for the white space it ends with: what is left is where it was, and does not
/// end with white space. Nothing is captured of a pane without a screen, or
/// under `-P`.
pub proof fn law_captured_lines_lose_only_their_ends(
    v: ServerView,
    args: Seq<Seq<char>>,
    a: ArgsView,
    uid: Seq<char>,
)
    requires
        args_of(args, "t:S:E:b:"@) == Ok::<_, Seq<char>>(a),
        target_or_active(v, a) == Some(uid),
    ensures
        capture_pane(v, args) is Ok,
        a.flags.contains('P') || v.pane(uid)->0.screen is None ==> capture_pane(v, args)->Ok_0.len()
            == 0,
        !a.flags.contains('P') ==> (v.pane(uid)->0.screen matches Some(s) ==> {
            let ls = capture_pane(v, args)->Ok_0;
            &&& ls.len() == lines(s).len()
            &&& forall|i: int|
                0 <= i < ls.len() ==> {
                    &&& (#[trigger] ls[i]).len() <= lines(s)[i].len()
                    &&& lines(s)[i].take(ls[i].len() as int) == ls[i]
                    &&& blank(lines(s)[i].skip(ls[i].len() as int))
                    &&& ls[i].len() > 0 ==> !is_white_space(ls[i].last())
                }
        }),
{
    if let Some(s) = v.pane(uid)->0.screen {
        if !a.flags.contains('P') {
            let ls = capture_pane(v, args)->Ok_0;
            assert forall|i: int| 0 <= i < ls.len() implies {
                &&& (#[trigger] ls[i]).len() <= lines(s)[i].len()
                &&& lines(s)[i].take(ls[i].len() as int) == ls[i]
                &&& blank(lines(s)[i].skip(ls[i].len() as int))
                &&& ls[i].len() > 0 ==> !is_white_space(ls[i].last())
            } by {
                law_trim_end_cuts_the_end(lines(s)[i]);
            }
        }
    }
}

// ---------------------------------------------------------------------------
// Sizes
// ---------------------------------------------------------------------------

proof fn lemma_digits_hold_no_sign(n: nat, c: char)
    requires
        c < '0' || c > '9',
    ensures
        !dec(n).contains(c),
        dec(n).len() > 0,
        !is_white_space(dec(n)[0]),
        !is_white_space(dec(n).last()),
{
    law_number_reads_back(n, n);
    if dec(n).contains(c) {
        let i = choose|i: int| 0 <= i < dec(n).len() && dec(n)[i] == c;
        assert('0' <= dec(n)[i] <= '9');
    }
    assert('0' <= dec(n)[0] <= '9');
    assert('0' <= dec(n)[dec(n).len() - 1] <= '9');
}

proof fn lemma_find_either_behind(a: Seq<char>, b: Seq<char>, x: char, y: char, c: char)
    requires
        !a.contains(x),
        !a.contains(y),
        c == x || c == y,
    ensures
        find_either(a + seq![c] + b, x, y) == a.len(),
    decreases a.len(),
{
    let s = a + seq![c] + b;
    if a.len() > 0 {
        assert(s[0] == a[0]);
        assert(a.contains(a[0]));
        assert(s.skip(1) =~= a.skip(1) + seq![c] + b);
        assert forall|i: int| 0 <= i < a.skip(1).len() implies a.skip(1)[i] != x && a.skip(1)[i]
            != y by {
            assert(a.contains(a[i + 1]));
        }
        lemma_find_either_behind(a.skip(1), b, x, y, c);
    } else {
        assert(s[0] == c);
    }
}

/// A size is its columns and then its rows, with a comma or an `x` between
/// them.
pub proof fn law_size_is_columns_then_rows(w: u16, h: u16, c: char)
    requires
        c == ',' || c == 'x',
    ensures
        parse_size(dec(w as nat) + seq![c] + dec(h as nat)) == Some((w, h)),
{
    let a = dec(w as nat);
    let b = dec(h as nat);
    let s = a + seq![c] + b;
    lemma_digits_hold_no_sign(w as nat, ',');
    lemma_digits_hold_no_sign(w as nat, 'x');
    lemma_digits_hold_no_sign(h as nat, 'x');
    lemma_find_either_behind(a, b, ',', 'x', c);
    assert(s.take(a.len() as int) =~= a);
    assert(s.skip(a.len() as int + 1) =~= b);
    lemma_trim_nothing(a);
    lemma_trim_nothing(b);
    law_number_reads_back(w as nat, 0xffff);
    law_number_reads_back(h as nat, 0xffff);
}

/// White space around the numbers of a size does not count.
pub proof fn law_spaces_in_a_size_do_not_matter(
    w: u16,
    h: u16,
    c: char,
    a: Seq<char>,
    b: Seq<char>,
    d: Seq<char>,
    e: Seq<char>,
)
    requires
        c == ',' || c == 'x',
        blank(a) && blank(b) && blank(d) && blank(e),
    ensures
        parse_size((a + dec(w as nat) + b) + seq![c] + (d + dec(h as nat) + e)) == Some((w, h)),
{
    let x = a + dec(w as nat) + b;
    let y = d + dec(h as nat) + e;
    let s = x + seq![c] + y;
    lemma_digits_hold_no_sign(w as nat, ',');
    lemma_digits_hold_no_sign(w as nat, 'x');
    lemma_digits_hold_no_sign(h as nat, 'x');
    assert(!is_white_space(',') && !is_white_space('x'));
    assert forall|i: int| 0 <= i < x.len() implies x[i] != ',' && x[i] != 'x' by {
        if a.len() <= i < a.len() + dec(w as nat).len() {
            assert(dec(w as nat).contains(dec(w as nat)[i - a.len()]));
        } else if i < a.len() {
            assert(is_white_space(a[i]));
        } else {
            assert(is_white_space(b[i - a.len() - dec(w as nat).len()]));
        }
    }
    lemma_find_either_behind(x, y, ',', 'x', c);
    assert(s.take(x.len() as int) =~= x);
    assert(s.skip(x.len() as int + 1) =~= y);
    law_trim_keeps_what_is_between(a, dec(w as nat), b);
    law_trim_keeps_what_is_between(d, dec(h as nat), e);
    law_number_reads_back(w as nat, 0xffff);
    law_number_reads_back(h as nat, 0xffff);
}

proof fn lemma_refresh_opts()
    ensures
        takes_value("C:f:A:B:t:"@, 'C'),
        takes_value("t:x:y:"@, 't'),
        takes_value("t:x:y:"@, 'x'),
        takes_value("t:x:y:"@, 'y'),
        takes_value("t:"@, 't'),
        takes_value("F:t:f:"@, 'F'),
{
    reveal_strlit("C:f:A:B:t:");
    reveal_strlit("t:x:y:");
    reveal_strlit("t:");
    reveal_strlit("F:t:f:");
    assert("C:f:A:B:t:"@[0] == 'C' && "C:f:A:B:t:"@[1] == ':');
    assert("t:x:y:"@[0] == 't' && "t:x:y:"@[1] == ':');
    assert("t:x:y:"@[2] == 'x' && "t:x:y:"@[3] == ':');
    assert("t:x:y:"@[4] == 'y' && "t:x:y:"@[5] == ':');
    assert("t:"@[0] == 't' && "t:"@[1] == ':');
    assert("F:t:f:"@[0] == 'F' && "F:t:f:"@[1] == ':');
}

/// `refresh-client -C` with a size makes it the client's, and changes nothing
/// else. Only where the policy is to request sizes, every pane, in order, is
/// asked to take it.
pub proof fn law_client_size_is_what_was_given(v: ServerView, w: u16, h: u16, c: char)
    requires
        c == ',' || c == 'x',
    ensures
        ({
            let o = refresh_client(v, seq![dash('C'), dec(w as nat) + seq![c] + dec(h as nat)]);
            &&& o.body == silent()
            &&& o.state.client_size.0 == w
            &&& o.state.client_size.1 == h
            &&& o.state == (ServerView { client_size: o.state.client_size, ..v })
            &&& v.policy == ResizePolicy::Observe ==> o.actions.len() == 0
            &&& v.policy == ResizePolicy::Request ==> o.actions.len() == v.panes.len() && forall|
                i: int,
            |
                0 <= i < v.panes.len() ==> (#[trigger] o.actions[i]) == (ActionView::Resize {
                    uid: v.panes[i].uid,
                    cols: w,
                    rows: h,
                })
        }),
{
    let dims = dec(w as nat) + seq![c] + dec(h as nat);
    let args = seq![dash('C'), dims];
    lemma_refresh_opts();
    law_flag_has_its_value('C', dims, "C:f:A:B:t:"@);
    law_size_is_columns_then_rows(w, h, c);
    lemma_digits_hold_no_sign(w as nat, ':');
    lemma_digits_hold_no_sign(w as nat, '@');
    assert(dims[0] == dec(w as nat)[0]);
    assert(dec(w as nat).contains(dec(w as nat)[0]));
    let o = refresh_client(v, args);
    assert(v.policy == ResizePolicy::Request ==> v.uids().len() == v.panes.len());
}

/// `refresh-client -C @window:size` asks, where the policy is to request sizes,
/// only the pane of that window to take the size.
pub proof fn law_window_size_reaches_its_pane(
    v: ServerView,
    target: Seq<char>,
    uid: Seq<char>,
    w: u16,
    h: u16,
    c: char,
)
    requires
        c == ',' || c == 'x',
        target.len() > 0,
        target[0] == '@',
        !target.contains(':'),
        v.resolve(target) == Some(uid),
        v.policy == ResizePolicy::Request,
    ensures
        ({
            let dims = dec(w as nat) + seq![c] + dec(h as nat);
            let o = refresh_client(v, seq![dash('C'), target + seq![':'] + dims]);
            &&& o.body == silent()
            &&& o.state.client_size == (w, h)
            &&& o.actions == seq![ActionView::Resize { uid, cols: w, rows: h }]
        }),
{
    let dims = dec(w as nat) + seq![c] + dec(h as nat);
    let spec = target + seq![':'] + dims;
    lemma_refresh_opts();
    law_flag_has_its_value('C', spec, "C:f:A:B:t:"@);
    law_size_is_columns_then_rows(w, h, c);
    lemma_find(spec, ':');
    let k = find(spec, ':');
    assert(spec[target.len() as int] == ':');
    if k < target.len() {
        assert(target.contains(target[k]));
    }
    assert(spec[0] == target[0]);
    assert(spec.skip(k + 1) =~= dims);
    assert(spec.take(k) =~= target);
    let o = refresh_client(v, seq![dash('C'), spec]);
    assert(o.actions =~= seq![ActionView::Resize { uid, cols: w, rows: h }]);
}

/// `resize-pane` asks for the columns of `-x` and the rows of `-y`, of the pane
/// that its target names, and only where the policy is to request sizes; what is
/// not given stays as the pane has it.
pub proof fn law_resize_asks_for_what_was_given(
    v: ServerView,
    target: Seq<char>,
    uid: Seq<char>,
    w: u16,
    h: u16,
)
    requires
        v.resolve(target) == Some(uid),
        v.policy == ResizePolicy::Request,
    ensures
        ({
            let x = seq![dash('x'), dec(w as nat)];
            let y = seq![dash('y'), dec(h as nat)];
            let p = v.pane(uid)->0;
            &&& resize(v, aimed(target) + x + y).actions == seq![
                ActionView::Resize { uid, cols: w, rows: h },
            ]
            &&& resize(v, aimed(target) + y + x).actions == seq![
                ActionView::Resize { uid, cols: w, rows: h },
            ]
            &&& resize(v, aimed(target) + x).actions == seq![
                ActionView::Resize { uid, cols: w, rows: p.height() },
            ]
            &&& resize(v, aimed(target) + y).actions == seq![
                ActionView::Resize { uid, cols: p.width(), rows: h },
            ]
        }),
{
    let opts = "t:x:y:"@;
    let x = seq![dash('x'), dec(w as nat)];
    let y = seq![dash('y'), dec(h as nat)];
    let t = aimed(target);
    lemma_refresh_opts();
    law_flag_has_its_value('t', target, opts);
    law_flag_has_its_value('x', dec(w as nat), opts);
    law_flag_has_its_value('y', dec(h as nat), opts);
    law_number_reads_back(w as nat, 0xffff);
    law_number_reads_back(h as nat, 0xffff);
    law_words_add_up(t, x, opts);
    law_words_add_up(t, y, opts);
    law_words_add_up(t + x, y, opts);
    law_words_add_up(t + y, x, opts);
    let vt = seq![('t', target)];
    let vx = seq![('x', dec(w as nat))];
    let vy = seq![('y', dec(h as nat))];
    lemma_three_values(vt, vx, vy);
    lemma_three_values(vt, vy, vx);
}

proof fn lemma_three_values(
    a: Seq<(char, Seq<char>)>,
    b: Seq<(char, Seq<char>)>,
    c: Seq<(char, Seq<char>)>,
)
    requires
        a.len() == 1,
        b.len() == 1,
        c.len() == 1,
        a[0].0 != b[0].0,
        a[0].0 != c[0].0,
        b[0].0 != c[0].0,
    ensures
        first_value(a + b, a[0].0) == Some(a[0].1),
        first_value(a + b, b[0].0) == Some(b[0].1),
        first_value(a + b, c[0].0) is None,
        first_value(a + b + c, a[0].0) == Some(a[0].1),
        first_value(a + b + c, b[0].0) == Some(b[0].1),
        first_value(a + b + c, c[0].0) == Some(c[0].1),
{
    lemma_one_value(a, b[0].0);
    lemma_one_value(a, c[0].0);
    lemma_one_value(b, a[0].0);
    lemma_one_value(b, c[0].0);
    lemma_one_value(c, a[0].0);
    lemma_one_value(c, b[0].0);
    law_first_value_counts(a, b, a[0].0);
    law_first_value_counts(a, b, b[0].0);
    law_first_value_counts(a, b, c[0].0);
    law_first_value_counts(a + b, c, a[0].0);
    law_first_value_counts(a + b, c, b[0].0);
    law_first_value_counts(a + b, c, c[0].0);
}

proof fn lemma_one_value(a: Seq<(char, Seq<char>)>, c: char)
    requires
        a.len() == 1,
    ensures
        first_value(a, a[0].0) == Some(a[0].1),
        c != a[0].0 ==> first_value(a, c) is None,
{
    assert(a.skip(1).len() == 0);
    assert(first_value(a.skip(1), c) is None);
}

// ---------------------------------------------------------------------------
// Targets, selection and lists
// ---------------------------------------------------------------------------

/// Whether a target is a word as it stands: white space and quotes around it
/// would be left out.
pub open spec fn is_bare(t: Seq<char>) -> bool {
    &&& t.len() > 0
    &&& !is_white_space(t[0]) && t[0] != '"' && t[0] != '\''
    &&& !is_white_space(t.last()) && t.last() != '"' && t.last() != '\''
}

proof fn lemma_bare(t: Seq<char>)
    requires
        is_bare(t),
    ensures
        trim_char(trim_char(trim(t), '"'), '\'') == t,
{
    lemma_trim_nothing(t);
    law_trim_char_keeps_what_is_between(0, t, 0, '"');
    law_trim_char_keeps_what_is_between(0, t, 0, '\'');
    assert(repeated('"', 0) + t + repeated('"', 0) =~= t);
    assert(repeated('\'', 0) + t + repeated('\'', 0) =~= t);
}

proof fn lemma_signed(c: char, n: nat)
    requires
        c == '%' || c == '@',
    ensures
        is_bare(seq![c] + dec(n)),
        (seq![c] + dec(n)).skip(1) == dec(n),
{
    let t = seq![c] + dec(n);
    law_number_reads_back(n, n);
    assert(t.skip(1) =~= dec(n));
    assert(t.last() == dec(n).last());
    assert('0' <= dec(n)[dec(n).len() - 1] <= '9');
}

/// A pane is what its pane id behind `%`, its window id behind `@`, its uid and
/// its window's number name, and `$` names the active pane.
pub proof fn law_targets_name_their_pane(v: ServerView, uid: Seq<char>, t: Seq<char>)
    requires
        v.ok(),
        v.has(uid),
    ensures
        v.resolve(seq!['%'] + dec(v.pane_id(uid)->0 as nat)) == Some(uid),
        v.resolve(seq!['@'] + dec(v.window_id(uid)->0 as nat)) == Some(uid),
        is_bare(uid) && uid[0] != '%' && uid[0] != '@' && uid[0] != '$' ==> v.resolve(uid) == Some(
            uid,
        ),
        !v.has(dec(v.window_index(uid))) ==> v.resolve(dec(v.window_index(uid))) == Some(uid),
        is_bare(t) && t[0] == '$' ==> v.resolve(t) == v.active,
{
    lemma_published(v, uid);
    lemma_position(v.uids(), uid);
    let i = position(v.uids(), uid);
    let panes = assign("pane"@, v.uids());
    let windows = assign("window"@, v.uids());
    law_ids_unique_and_bounded("pane"@, v.uids());
    law_ids_unique_and_bounded("window"@, v.uids());
    lemma_position(panes, panes[i]);
    lemma_position(windows, windows[i]);
    let p = panes[i] as nat;
    let w = windows[i] as nat;
    lemma_signed('%', p);
    lemma_signed('@', w);
    lemma_bare(seq!['%'] + dec(p));
    lemma_bare(seq!['@'] + dec(w));
    law_number_reads_back(p, u32::MAX as nat);
    law_number_reads_back(w, u32::MAX as nat);
    if is_bare(uid) {
        lemma_bare(uid);
    }
    let n = i as nat;
    law_number_reads_back(n, usize::MAX as nat);
    let d = dec(n);
    assert('0' <= d[0] <= '9');
    assert('0' <= d[d.len() - 1] <= '9');
    lemma_bare(d);
    if is_bare(t) {
        lemma_bare(t);
    }
}

/// White space and quotes around a target do not matter.
pub proof fn law_quotes_around_a_target_do_not_matter(v: ServerView, t: Seq<char>)
    requires
        is_bare(t),
    ensures
        v.resolve(seq!['\''] + t + seq!['\'']) == v.resolve(t),
        v.resolve(seq!['"'] + t + seq!['"']) == v.resolve(t),
        v.resolve(seq![' '] + t + seq![' ']) == v.resolve(t),
{
    lemma_bare(t);
    let q = seq!['\''] + t + seq!['\''];
    let d = seq!['"'] + t + seq!['"'];
    let s = seq![' '] + t + seq![' '];
    lemma_trim_nothing(q);
    lemma_trim_nothing(d);
    law_trim_char_keeps_what_is_between(0, q, 0, '"');
    assert(repeated('"', 0) + q + repeated('"', 0) =~= q);
    law_trim_char_keeps_what_is_between(1, t, 1, '\'');
    assert(repeated('\'', 1) + t + repeated('\'', 1) =~= q);
    law_trim_char_keeps_what_is_between(1, t, 1, '"');
    assert(repeated('"', 1) + t + repeated('"', 1) =~= d);
    crate::text_laws::law_trim_keeps_what_is_between(seq![' '], t, seq![' ']);
    lemma_trim_nothing(t);
}

/// `select-pane` makes the pane that its target names the active one and leaves
/// the rest of the state alone; where it was active already, nothing waits to be
/// told, else two notifications do.
pub proof fn law_selected_pane_is_active(v: ServerView, target: Seq<char>, uid: Seq<char>)
    requires
        v.resolve(target) == Some(uid),
        v.has(uid),
        v.ok(),
    ensures
        ({
            let o = select(v, aimed(target));
            &&& o.body == silent()
            &&& o.actions.len() == 0
            &&& o.state.active == Some(uid)
            &&& o.state == (ServerView { active: Some(uid), deferred: o.state.deferred, ..v })
            &&& v.active == Some(uid) ==> o.state.deferred == v.deferred
            &&& v.active != Some(uid) ==> o.state.deferred.len() == v.deferred.len() + 2
            &&& v.active != Some(uid) ==> o.state.deferred.take(v.deferred.len() as int)
                == v.deferred
        }),
{
    lemma_refresh_opts();
    lemma_published(v, uid);
    law_flag_has_its_value('t', target, "t:"@);
    lemma_one_value(seq![('t', target)], 't');
    let o = select(v, aimed(target));
    if v.active != Some(uid) {
        assert(o.state.deferred.take(v.deferred.len() as int) =~= v.deferred);
    }
}

/// A list with a template has a line for each pane, in the order of the panes,
/// and each line is the template expanded for its pane.
pub proof fn law_lists_have_a_line_for_each_pane(v: ServerView, f: Seq<char>)
    ensures
        ({
            let args = seq![dash('F'), f];
            let windows = list_windows(v, args);
            &&& windows matches Ok(ls) && ls.len() == v.panes.len() && forall|i: int|
                0 <= i < ls.len() ==> (#[trigger] ls[i]) == expand(v, f, Some(v.panes[i].uid))
            &&& list_panes(v, args) == windows
        }),
{
    lemma_refresh_opts();
    law_flag_has_its_value('F', f, "F:t:f:"@);
    lemma_one_value(seq![('F', f)], 't');
    let args = seq![dash('F'), f];
    let a = args_of(args, "F:t:f:"@)->Ok_0;
    assert(a.value('F') == Some(f));
    assert(a.value('t') is None);
    assert(!a.flags.contains('s') && !a.flags.contains('a'));
    let ls = list_windows(v, args)->Ok_0;
    assert(ls == expand_each(v, f, v.uids()));
}

/// `display-message` answers its template, expanded for the active pane, or for
/// the pane that its target names.
pub proof fn law_message_is_the_template_expanded(
    v: ServerView,
    target: Seq<char>,
    uid: Seq<char>,
    f: Seq<char>,
)
    requires
        stands_alone(f),
        v.resolve(target) == Some(uid),
    ensures
        display_message(v, seq![dash('p'), f]) == Ok::<Seq<Seq<char>>, Seq<char>>(
            seq![expand(v, f, v.active)],
        ),
        display_message(v, seq![dash('p')] + aimed(target) + seq![f]) == Ok::<
            Seq<Seq<char>>,
            Seq<char>,
        >(seq![expand(v, f, Some(uid))]),
{
    let opts = "t:c:F:"@;
    reveal_strlit("t:c:F:");
    assert(opts =~= seq!['t', ':', 'c', ':', 'F', ':']);
    assert(opts[0] == 't' && opts[1] == ':');
    law_flag_is_set('p', opts);
    law_word_is_kept(f, opts);
    law_words_add_up(seq![dash('p')], seq![f], opts);
    assert(seq![dash('p')] + seq![f] =~= seq![dash('p'), f]);
    let a = args_of(seq![dash('p'), f], opts)->Ok_0;
    assert(a.values =~= Seq::<(char, Seq<char>)>::empty());
    assert(a.positionals =~= seq![f]);
    assert forall|i: int| 0 <= i < seq![f].len() implies stands_alone(#[trigger] seq![f][i]) by {}
    lemma_flag_target_words('p', target, seq![f], opts);
    lemma_one_value(seq![('t', target)], 'F');
}

} // verus!
