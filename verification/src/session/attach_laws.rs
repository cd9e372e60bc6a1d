//! What holds of an attached terminal: which session is meant, what is painted
//! and in which order, and which keys leave.

use crate::session::attach::{after_frame, climb, detach_key, event_output, events_in, frame_output,
    greeted, hits, key_label, nothing_typed, opening_seed, pump_event, pump_frame, pump_frames,
    pump_pending, rung_holds, typed, typed_byte, uid_match, unpumped, AttachmentView, MatchView,
    PumpEnd, Pumped, Typed};
use crate::session::proto::{DaemonView, EventView};
use crate::text::{digits_number, find_text, has_prefix, hex, trim};
use crate::text_laws::{law_hexadecimal_reads_back, lemma_trim_nothing, pow16};
use vstd::prelude::*;
use vstd::string::*;
use vstd::utf8::*;

verus! {

/// Whether `q` stands somewhere in `s`.
pub open spec fn stands_in(s: Seq<char>, q: Seq<char>) -> bool {
    exists|k: int| 0 <= k && k + q.len() <= s.len() && #[trigger] s.subrange(k, k + q.len()) == q
}

proof fn lemma_find_text(s: Seq<char>, q: Seq<char>)
    ensures
        find_text(s, q) is Some <==> stands_in(s, q),
    decreases s.len(),
{
    if has_prefix(s, q) {
        assert(s.subrange(0, q.len() as int) =~= s.take(q.len() as int));
        assert(s.subrange(0, 0int + q.len()) == q);
    } else if s.len() == 0 {
        if stands_in(s, q) {
            let k = choose|k: int|
                0 <= k && k + q.len() <= s.len() && #[trigger] s.subrange(k, k + q.len()) == q;
            assert(s.take(q.len() as int) =~= s.subrange(0, q.len() as int));
        }
    } else {
        let t = s.skip(1);
        lemma_find_text(t, q);
        if stands_in(s, q) {
            let k = choose|k: int|
                0 <= k && k + q.len() <= s.len() && #[trigger] s.subrange(k, k + q.len()) == q;
            if k == 0 {
                assert(s.take(q.len() as int) =~= s.subrange(0, q.len() as int));
            } else {
                assert(t.subrange(k - 1, k - 1 + q.len()) =~= s.subrange(k, k + q.len()));
                assert(t.subrange(k - 1, (k - 1) + q.len()) == q);
            }
        }
        if stands_in(t, q) {
            let k = choose|k: int|
                0 <= k && k + q.len() <= t.len() && #[trigger] t.subrange(k, k + q.len()) == q;
            assert(s.subrange(k + 1, k + 1 + q.len()) =~= t.subrange(k, k + q.len()));
            assert(s.subrange(k + 1, (k + 1) + q.len()) == q);
        }
    }
}

proof fn lemma_hits(rung: int, uids: Seq<Seq<char>>, q: Seq<char>)
    ensures
        hits(rung, uids, q) == uids.filter(|u: Seq<char>| rung_holds(rung, u, q)),
    decreases uids.len(),
{
    reveal(Seq::filter);
    if uids.len() > 0 {
        lemma_hits(rung, uids.drop_last(), q);
    } else {
        assert(uids =~= uids.filter(|u: Seq<char>| rung_holds(rung, u, q)));
    }
}

/// What candidates come to: one is meant, several are ambiguous.
pub open spec fn verdict(h: Seq<Seq<char>>) -> MatchView {
    if h.len() == 1 {
        MatchView::One(h[0])
    } else {
        MatchView::Ambiguous(h)
    }
}

/// A query means the uids that it is; where there are none, those that begin
/// with it; and where there are none of these, those that hold it anywhere. One
/// of them is the match, several are ambiguous, all of them and in their order.
/// White space around a query does not count, and a blank one means nothing.
pub proof fn law_query_means_the_closest(uids: Seq<Seq<char>>, query: Seq<char>)
    ensures
        ({
            let q = trim(query);
            let same = uids.filter(|u: Seq<char>| u == q);
            let begin = uids.filter(
                |u: Seq<char>| u.len() >= q.len() && u.take(q.len() as int) == q,
            );
            let hold = uids.filter(|u: Seq<char>| stands_in(u, q));
            let r = uid_match(uids, query);
            &&& q.len() == 0 ==> r == MatchView::Nothing
            &&& q.len() > 0 && same.len() > 0 ==> r == verdict(same)
            &&& q.len() > 0 && same.len() == 0 && begin.len() > 0 ==> r == verdict(begin)
            &&& q.len() > 0 && same.len() == 0 && begin.len() == 0 && hold.len() > 0 ==> r
                == verdict(hold)
            &&& q.len() > 0 && same.len() == 0 && begin.len() == 0 && hold.len() == 0 ==> r
                == MatchView::Nothing
        }),
{
    let q = trim(query);
    lemma_hits(0, uids, q);
    lemma_hits(1, uids, q);
    lemma_hits(2, uids, q);
    assert forall|u: Seq<char>| #[trigger] rung_holds(2, u, q) == stands_in(u, q) by {
        lemma_find_text(u, q);
    }
    lemma_same_filter(
        uids,
        |u: Seq<char>| rung_holds(0, u, q),
        |u: Seq<char>| u == q,
    );
    lemma_same_filter(
        uids,
        |u: Seq<char>| rung_holds(1, u, q),
        |u: Seq<char>| u.len() >= q.len() && u.take(q.len() as int) == q,
    );
    lemma_same_filter(
        uids,
        |u: Seq<char>| rung_holds(2, u, q),
        |u: Seq<char>| stands_in(u, q),
    );
    reveal_with_fuel(climb, 4);
}

proof fn lemma_same_filter(
    s: Seq<Seq<char>>,
    f: spec_fn(Seq<char>) -> bool,
    g: spec_fn(Seq<char>) -> bool,
)
    requires
        forall|u: Seq<char>| #[trigger] f(u) == g(u),
    ensures
        s.filter(f) == s.filter(g),
    decreases s.len(),
{
    reveal(Seq::filter);
    if s.len() > 0 {
        lemma_same_filter(s.drop_last(), f, g);
        assert(f(s.last()) == g(s.last()));
    }
}

/// The end of a session is reported with its code, and of no other session; a
/// replay of the session is a repaint, behind what is written before one.
pub proof fn law_frames_paint_what_they_carry(
    a: AttachmentView,
    data: Seq<char>,
    cursor: u64,
    code: i32,
    other: Seq<char>,
    ev: EventView,
)
    ensures
        event_output(a, EventView::Exit { uid: a.uid, code }).1 == Some(PumpEnd::Exited(code)),
        event_output(a, EventView::Exit { uid: a.uid, code }).0.len() == 0,
        frame_output(a, DaemonView::Replay { uid: a.uid, data, cursor }).0 == a.repaint_prefix
            + encode_utf8(data),
        frame_output(a, DaemonView::Replay { uid: a.uid, data, cursor }).1 is None,
        other != a.uid ==> frame_output(a, DaemonView::Replay { uid: other, data, cursor }).0.len()
            == 0,
        frame_output(a, DaemonView::Event(ev)) == event_output(a, ev),
        after_frame(a, DaemonView::Replay { uid: a.uid, data, cursor }).seed_cursor == (if cursor
            > a.seed_cursor {
            cursor
        } else {
            a.seed_cursor
        }),
        other != a.uid ==> after_frame(a, DaemonView::Replay { uid: other, data, cursor }) == a,
        after_frame(a, DaemonView::Event(ev)) == a,
{
}

/// Frames are painted in the order in which they come, one behind the other, and
/// after the end nothing is.
pub proof fn law_frames_are_painted_in_order(
    p: Pumped,
    a: Seq<DaemonView>,
    b: Seq<DaemonView>,
    f: DaemonView,
)
    ensures
        pump_frames(p, a + b) == pump_frames(pump_frames(p, a), b),
        p.end is Some ==> pump_frame(p, f) == p,
        p.end is None ==> {
            let r = pump_frame(p, f);
            let (bytes, end) = frame_output(p.attachment, f);
            &&& r.bytes == p.bytes + bytes
            &&& r.end == end
            &&& r.attachment == after_frame(p.attachment, f)
        },
    decreases b.len(),
{
    if b.len() == 0 {
        assert(a + b =~= a);
    } else {
        assert((a + b).drop_last() =~= a + b.drop_last());
        assert((a + b).last() == b.last());
        law_frames_are_painted_in_order(p, a, b.drop_last(), f);
    }
}

/// Events that came before the seed are painted first, in their order, and each
/// once.
pub proof fn law_early_events_are_painted_first(a: AttachmentView, ev: EventView, rest: Seq<EventView>)
    requires
        a.pending == seq![ev] + rest,
    ensures
        ({
            let next = AttachmentView { pending: rest, ..a };
            let (bytes, end) = event_output(a, ev);
            let r = pump_pending(unpumped(a));
            &&& end is Some ==> r.bytes == bytes && r.end == end && r.attachment == next
            &&& end is None ==> r == pump_pending(Pumped { attachment: next, bytes, end: None })
        }),
{
    let e = Seq::<u8>::empty();
    let (bytes, end) = event_output(a, ev);
    assert(a.pending.skip(1) =~= rest);
    assert(a.pending[0] == ev);
    assert(e + bytes =~= bytes);
    let next = AttachmentView { pending: rest, ..a };
    assert(event_output(next, ev) == event_output(a, ev));
    let one = pump_event(Pumped { attachment: next, bytes: e, end: None }, ev);
    assert(one == (Pumped { attachment: next, bytes, end }));
    assert(pump_pending(unpumped(a)) == pump_pending(one));
}

/// The seed of an attachment is the first replay of its session, with its
/// cursor; other frames are none.
pub proof fn law_seed_is_the_sessions_replay(
    uid: Seq<char>,
    other: Seq<char>,
    data: Seq<char>,
    cursor: u64,
    f: DaemonView,
)
    ensures
        opening_seed(uid, DaemonView::Replay { uid, data, cursor }) == Some((data, cursor)),
        other != uid ==> opening_seed(uid, DaemonView::Replay { uid: other, data, cursor }) is None,
        !(f is Replay) ==> opening_seed(uid, f) is None,
{
}

/// The first answer to a greeting counts, whatever comes before it.
pub proof fn law_first_greeting_counts(
    before: Seq<DaemonView>,
    after: Seq<DaemonView>,
    ver: u32,
    pid: u32,
    conn: u64,
    build: Seq<char>,
)
    requires
        forall|i: int| 0 <= i < before.len() ==> !((#[trigger] before[i]) is Hello),
    ensures
        greeted(before) is None,
        greeted(
            before + seq![
                DaemonView::Hello { proto_ver: ver, daemon_pid: pid, conn_id: conn, build_id: build },
            ] + after,
        ) == Some(ver),
    decreases before.len(),
{
    let h = DaemonView::Hello { proto_ver: ver, daemon_pid: pid, conn_id: conn, build_id: build };
    let all = before + seq![h] + after;
    if before.len() == 0 {
        assert(all[0] == h);
    } else {
        let t = before.skip(1);
        assert(!(before[0] is Hello));
        assert(all[0] == before[0]);
        assert(all.skip(1) =~= t + seq![h] + after);
        assert forall|i: int| 0 <= i < t.len() implies !((#[trigger] t[i]) is Hello) by {
            assert(t[i] == before[i + 1]);
        }
        law_first_greeting_counts(t, after, ver, pid, conn, build);
    }
}

/// The events among frames are all of them, in their order.
pub proof fn law_events_keep_their_order(a: Seq<DaemonView>, b: Seq<DaemonView>, ev: EventView)
    ensures
        events_in(a + b) == events_in(a) + events_in(b),
        events_in(seq![DaemonView::Event(ev)]) == seq![ev],
    decreases b.len(),
{
    let one = seq![DaemonView::Event(ev)];
    assert(one.drop_last().len() == 0);
    assert(events_in(one.drop_last()) =~= Seq::<EventView>::empty());
    assert(one.last() == DaemonView::Event(ev));
    assert(events_in(one) =~= seq![ev]);
    if b.len() == 0 {
        assert(a + b =~= a);
        assert(events_in(a) + events_in(b) =~= events_in(a));
    } else {
        assert((a + b).drop_last() =~= a + b.drop_last());
        assert((a + b).last() == b.last());
        law_events_keep_their_order(a, b.drop_last(), ev);
        assert(events_in(a + b) =~= events_in(a) + events_in(b));
    }
}

/// The prefix is never forwarded by itself: behind it `d` or `D` leaves, the
/// prefix again is forwarded once, and any other key is forwarded alone. Any
/// other key without the prefix is forwarded as it is.
pub proof fn law_key_after_the_prefix(prefix: u8, b: u8)
    ensures
        ({
            let start = nothing_typed(false);
            let one = typed(start, prefix, seq![prefix]);
            let two = typed(start, prefix, seq![prefix, b]);
            &&& one.forward.len() == 0 && !one.detach && one.armed
            &&& (b == 'd' as u8 || b == 'D' as u8) && b != prefix ==> two.detach
                && two.forward.len() == 0
            &&& b != 'd' as u8 && b != 'D' as u8 || b == prefix ==> !two.detach && two.forward
                == seq![b] && !two.armed
            &&& b != prefix ==> typed(start, prefix, seq![b]) == (Typed {
                forward: seq![b],
                detach: false,
                armed: false,
            })
        }),
{
    let start = nothing_typed(false);
    let e = Seq::<u8>::empty();
    assert(seq![prefix].drop_last() =~= e);
    assert(seq![b].drop_last() =~= e);
    assert(seq![prefix, b].drop_last() =~= seq![prefix]);
    assert(seq![prefix].last() == prefix && seq![b].last() == b && seq![prefix, b].last() == b);
    assert(typed(start, prefix, e) == start);
    let one = typed(start, prefix, seq![prefix]);
    assert(one == typed_byte(start, prefix, prefix));
    let two = typed(start, prefix, seq![prefix, b]);
    assert(two == typed_byte(one, prefix, b));
    assert(e.push(b) =~= seq![b]);
    assert(typed(start, prefix, seq![b]) == typed_byte(start, prefix, b));
}

/// A detach key is written with `C-`, `ctrl-` or `^`, in either case, and is the
/// place of its letter in the alphabet.
pub proof fn law_detach_keys_are_control_letters(c: char)
    requires
        'a' <= c <= 'z',
    ensures
        detach_key(seq!['C', '-', c]) == Ok::<u8, Seq<char>>((c as int - 0x60) as u8),
        detach_key(seq!['c', '-', c]) == detach_key(seq!['C', '-', c]),
        detach_key(seq!['^', c]) == detach_key(seq!['C', '-', c]),
        detach_key(seq!['c', 't', 'r', 'l', '-', c]) == detach_key(seq!['C', '-', c]),
        detach_key(seq![c]) is Err,
{
    reveal_strlit("ctrl-");
    reveal_strlit("c-");
    reveal_strlit("^");
    lemma_spec(seq!['C', '-', c], 2, c);
    lemma_spec(seq!['c', '-', c], 2, c);
    lemma_spec(seq!['^', c], 1, c);
    lemma_spec(seq!['c', 't', 'r', 'l', '-', c], 5, c);
    lemma_trim_nothing(seq![c]);
    let l = crate::session::attach::lowered(seq![c]);
    assert(l.len() == 1);
    assert("ctrl-"@.len() == 5 && "c-"@.len() == 2 && "^"@.len() == 1);
    assert(l.take(1)[0] == c);
    assert("^"@[0] == '^');
}

proof fn lemma_spec(s: Seq<char>, n: int, c: char)
    requires
        'a' <= c <= 'z',
        s.len() == n + 1,
        s[n] == c,
        n == 2 && (s[0] == 'C' || s[0] == 'c') && s[1] == '-' || n == 1 && s[0] == '^' || n == 5
            && s == seq!['c', 't', 'r', 'l', '-', c],
    ensures
        detach_key(s) == Ok::<u8, Seq<char>>((c as int - 0x60) as u8),
{
    reveal_strlit("ctrl-");
    reveal_strlit("c-");
    reveal_strlit("^");
    let l = crate::session::attach::lowered(s);
    lemma_trim_nothing(s);
    assert("ctrl-"@ =~= seq!['c', 't', 'r', 'l', '-']);
    assert("c-"@ =~= seq!['c', '-']);
    assert("^"@ =~= seq!['^']);
    assert(l.len() == s.len());
    assert(l[n] == c);
    if n == 5 {
        assert(l.take(5) =~= "ctrl-"@);
    } else if n == 2 {
        assert(!has_prefix(l, "ctrl-"@));
        assert(l.take(2) =~= "c-"@);
    } else {
        assert(!has_prefix(l, "ctrl-"@));
        assert(l[0] == '^');
        assert(l.take(2)[0] == '^');
        assert("c-"@[0] == 'c');
        assert(!has_prefix(l, "c-"@));
        assert(l.take(1) =~= "^"@);
    }
    assert(l.skip(n).len() == 1);
    assert(l.skip(n)[0] == c);
}

/// A byte that is no control byte is shown as `0x` and its two hexadecimal
/// digits.
pub proof fn law_other_bytes_are_shown_as_numbers(key: u8)
    requires
        key >= 0x20,
    ensures
        key_label(key).len() == 4,
        key_label(key).take(2) == "0x"@,
        digits_number(key_label(key).skip(2), 16) == key,
{
    reveal_strlit("0x");
    reveal_with_fuel(pow16, 3);
    assert(pow16(2) == 256);
    law_hexadecimal_reads_back(key as nat, 2);
    let s = key_label(key);
    assert(s.take(2) =~= "0x"@);
    assert(s.skip(2) =~= hex(key as nat, 2));
}

} // verus!
