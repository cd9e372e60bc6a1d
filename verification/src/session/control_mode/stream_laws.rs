//! What a client reads before, between and behind its commands.

use crate::session::control_mode::commands::{Body, Outcome};
use crate::session::control_mode::ids::assign;
use crate::session::control_mode::pane::{ActionView, ControlMode};
use crate::session::control_mode::server::{answer, answer_of, block, first_word, goodbye_lines,
    greeting_lines, guard_line, layout_change, stripped};
use crate::session::control_mode::state::{ServerView, SESSION_ID};
use crate::session::control_mode::wire::{DCS_CLOSE, DCS_OPEN};
use crate::text::{dec, is_white_space};
use crate::text_laws::{blank, law_trim_keeps_what_is_between};
use vstd::prelude::*;
use vstd::string::*;
use vstd::utf8::*;

verus! {

/// The greeting: a block of the server's own, then a line for each window in the
/// order of the panes, then the session, which comes last and is called by its
/// name.
pub proof fn law_greeting_announces_every_window(v: ServerView, now: u64, i: int)
    requires
        v.mode != ControlMode::Wrapped,
        0 <= i < assign("window"@, v.uids()).len(),
    ensures
        ({
            let g = greeting_lines(v, now);
            let ids = assign("window"@, v.uids());
            &&& g.len() == ids.len() + 4
            &&& g[0] == guard_line("%begin"@, now, 0, "0"@)
            &&& g[1] == guard_line("%end"@, now, 0, "0"@)
            &&& g[2 + i] == encode_utf8("%window-add @"@ + dec(ids[i] as nat))
            &&& g.last() == encode_utf8(
                "%session-changed $"@ + dec(SESSION_ID as nat) + " "@ + v.session_name,
            )
        }),
{
}

/// A stream that is wrapped opens with the envelope and closes with it, and is
/// otherwise the same.
pub proof fn law_envelope_is_all_that_wrapping_adds(
    v: ServerView,
    w: ServerView,
    now: u64,
    reason: Option<Seq<char>>,
)
    requires
        v.mode != ControlMode::Wrapped,
        w == (ServerView { mode: ControlMode::Wrapped, ..v }),
    ensures
        greeting_lines(w, now) == seq![DCS_OPEN@] + greeting_lines(v, now),
        goodbye_lines(w, reason) == goodbye_lines(v, reason).push(DCS_CLOSE@),
        goodbye_lines(v, reason).len() == 1,
{
    assert(w.uids() =~= v.uids());
    assert(greeting_lines(w, now) =~= seq![DCS_OPEN@] + greeting_lines(v, now));
    assert(goodbye_lines(w, reason) =~= goodbye_lines(v, reason).push(DCS_CLOSE@));
}

/// The last line tells why the stream ends, where there is a reason.
pub proof fn law_goodbye_tells_why(v: ServerView, r: Seq<char>)
    ensures
        goodbye_lines(v, Some(r))[0] == encode_utf8("%exit "@ + r),
        goodbye_lines(v, None)[0] == encode_utf8("%exit"@),
{
}

/// A change of a layout tells the window, its layout twice and its flags.
pub proof fn law_layout_is_told_of_its_window(v: ServerView, uid: Seq<char>, w: u32)
    requires
        v.window_id(uid) == Some(w),
    ensures
        layout_change(v, uid) == encode_utf8(
            "%layout-change @"@ + dec(w as nat) + " "@ + v.layout_for(uid) + " "@ + v.layout_for(
                uid,
            ) + " "@ + v.window_flags(uid),
        ),
{
}

/// A line of nothing but white space detaches the client, and nothing else.
pub proof fn law_blank_line_detaches(v: ServerView, line: Seq<char>, now: u64)
    requires
        blank(line),
    ensures
        answer(v, line, now).state == v,
        answer(v, line, now).lines.len() == 0,
        answer(v, line, now).actions == seq![ActionView::Detach],
{
    let l = stripped(line);
    assert(blank(l)) by {
        assert forall|i: int| 0 <= i < l.len() implies is_white_space(#[trigger] l[i]) by {
            assert(l[i] == line[i]);
        }
    }
    law_trim_keeps_what_is_between(l, Seq::empty(), Seq::empty());
    assert(l + Seq::<char>::empty() + Seq::<char>::empty() =~= l);
}

/// What a command gave rise to is told behind its block, in order, and once: it
/// is not kept for the next command.
pub proof fn law_notifications_follow_the_block(o: Outcome, now: u64)
    ensures
        ({
            let b = block(now, o.state.next_command, o.body);
            let r = answer_of(o, now);
            &&& r.lines.take(b.len() as int) == b
            &&& r.lines.skip(b.len() as int) == o.state.deferred
            &&& r.state.deferred.len() == 0
            &&& r.actions == o.actions
            &&& r.state.panes == o.state.panes
            &&& r.state.active == o.state.active
            &&& r.state.options == o.state.options
            &&& r.state.client_size == o.state.client_size
        }),
{
    let b = block(now, o.state.next_command, o.body);
    let r = answer_of(o, now);
    assert(r.lines.take(b.len() as int) =~= b);
    assert(r.lines.skip(b.len() as int) =~= o.state.deferred);
}

/// The first word of a line ends before its first white space.
pub proof fn law_first_word_ends_at_white_space(w: Seq<char>, rest: Seq<char>, c: char)
    requires
        forall|i: int| 0 <= i < w.len() ==> !is_white_space(#[trigger] w[i]),
        is_white_space(c),
    ensures
        first_word(w + seq![c] + rest) == w,
        first_word(w) == w,
    decreases w.len(),
{
    let s = w + seq![c] + rest;
    if w.len() > 0 {
        let t = w.skip(1);
        assert forall|i: int| 0 <= i < t.len() implies !is_white_space(#[trigger] t[i]) by {
            assert(t[i] == w[i + 1]);
        }
        law_first_word_ends_at_white_space(t, rest, c);
        assert(s.skip(1) =~= t + seq![c] + rest);
        assert(s[0] == w[0]);
        assert(seq![w[0]] + t =~= w);
    } else {
        assert(s[0] == c);
    }
}

/// The lines around a block tell when it was, and then which it is.
pub proof fn law_guard_tells_when_and_which(t: u64, n: u32, body: Body)
    ensures
        ({
            let b = block(t, n, body);
            let tail = " "@ + dec(t as nat) + " "@ + dec(n as nat) + " 1"@;
            &&& b[0] == encode_utf8("%begin"@ + tail)
            &&& body is Ok ==> b.last() == encode_utf8("%end"@ + tail)
            &&& body is Err ==> b.last() == encode_utf8("%error"@ + tail)
        }),
{
    reveal_strlit(" ");
    reveal_strlit("1");
    reveal_strlit(" 1");
    let tail = " "@ + dec(t as nat) + " "@ + dec(n as nat) + " 1"@;
    let x = " "@ + dec(t as nat) + " "@ + dec(n as nat) + " "@ + "1"@;
    assert(x =~= tail);
    assert("%begin"@ + " "@ + dec(t as nat) + " "@ + dec(n as nat) + " "@ + "1"@ =~= "%begin"@
        + tail);
    assert("%end"@ + " "@ + dec(t as nat) + " "@ + dec(n as nat) + " "@ + "1"@ =~= "%end"@ + tail);
    assert("%error"@ + " "@ + dec(t as nat) + " "@ + dec(n as nat) + " "@ + "1"@ =~= "%error"@
        + tail);
}

} // verus!
