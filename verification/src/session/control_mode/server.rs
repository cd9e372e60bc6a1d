//! The control-mode state machine: panes in, tmux control protocol out.

use crate::session::attach::ResizePolicy;
use crate::session::control_mode::clock::Clock;
use crate::session::control_mode::commands::{body_view, run, Body, Outcome};
use crate::session::control_mode::format::{expand, is_published, shows_layout, tagged, FmtCtx};
use crate::session::control_mode::ids::{assign, law_ids_unique_and_bounded, IdMap, ID_COUNT};
use crate::session::control_mode::lex::{split_words, words_of};
use crate::session::control_mode::options::OptionStore;
use crate::session::control_mode::pane::{action_views, line_views, pane_copy, pane_views, uids_of,
    Action, ActionView, ControlMode, PaneInfo, PaneView, Reaction};
use crate::session::control_mode::state::{lemma_published, ServerState, ServerView, SESSION_ID};
use crate::session::control_mode::wire::{escape, escape_output, Line, DCS_CLOSE, DCS_OPEN};
use crate::text::{bytes_of, chars_of, dec, decimal, is_less, is_white_space, lemma_less_total,
    lemma_less_transitive, lemma_position, lemma_sorted_count, less, opt_is, opt_view, owned,
    position, same, sorted, string_of, trim, trim_start, trimmed, trimmed_start, views,
    white_space};
use vstd::prelude::*;
use vstd::slice::*;
use vstd::string::*;
use vstd::utf8::*;

verus! {

// ---------------------------------------------------------------------------
// Panes in order
// ---------------------------------------------------------------------------

/// A list of panes with `p` put in at its place, instead of a pane of the same
/// uid.
pub open spec fn put_pane(s: Seq<PaneView>, p: PaneView) -> Seq<PaneView>
    decreases s.len(),
{
    if s.len() == 0 {
        seq![p]
    } else if s[0].uid == p.uid {
        seq![p] + s.skip(1)
    } else if less(p.uid, s[0].uid) {
        seq![p] + s
    } else {
        seq![s[0]] + put_pane(s.skip(1), p)
    }
}

/// The panes of `list` in order; of two with the same uid the later one.
pub open spec fn panes_from(list: Seq<PaneView>) -> Seq<PaneView>
    decreases list.len(),
{
    if list.len() == 0 {
        Seq::empty()
    } else {
        put_pane(panes_from(list.drop_last()), list.last())
    }
}

proof fn lemma_put_members(s: Seq<PaneView>, p: PaneView)
    ensures
        s.len() <= put_pane(s, p).len() <= s.len() + 1,
        !uids_of(s).contains(p.uid) ==> put_pane(s, p).len() == s.len() + 1,
        forall|x: Seq<char>|
            (#[trigger] uids_of(put_pane(s, p)).contains(x)) <==> (x == p.uid || uids_of(
                s,
            ).contains(x)),
    decreases s.len(),
{
    let t = put_pane(s, p);
    if s.len() > 0 && s[0].uid != p.uid && !less(p.uid, s[0].uid) {
        lemma_put_members(s.skip(1), p);
    }
    if s.len() > 0 {
        assert(uids_of(s)[0] == s[0].uid);
        if uids_of(s.skip(1)).contains(p.uid) {
            let k = choose|k: int|
                0 <= k < uids_of(s.skip(1)).len() && uids_of(s.skip(1))[k] == p.uid;
            assert(uids_of(s)[k + 1] == p.uid);
        }
    }
    assert forall|x: Seq<char>| (#[trigger] uids_of(t).contains(x)) <==> (x == p.uid || uids_of(
        s,
    ).contains(x)) by {
        if s.len() == 0 {
            assert(uids_of(t)[0] == p.uid);
        } else if s[0].uid == p.uid {
            assert(uids_of(t)[0] == p.uid);
            assert(uids_of(t) =~= uids_of(s));
        } else if less(p.uid, s[0].uid) {
            assert(uids_of(t) =~= seq![p.uid] + uids_of(s));
            lemma_cons_contains(p.uid, uids_of(s), x);
        } else {
            let u = put_pane(s.skip(1), p);
            assert(uids_of(t) =~= seq![s[0].uid] + uids_of(u));
            assert(uids_of(s) =~= seq![s[0].uid] + uids_of(s.skip(1)));
            lemma_cons_contains(s[0].uid, uids_of(u), x);
            lemma_cons_contains(s[0].uid, uids_of(s.skip(1)), x);
            assert(uids_of(u).contains(x) <==> (x == p.uid || uids_of(s.skip(1)).contains(x)));
        }
    }
}

/// The panes of a list are in order and have the list's uids.
proof fn lemma_panes_from(list: Seq<PaneView>)
    ensures
        sorted(uids_of(panes_from(list))),
        forall|x: Seq<char>|
            (#[trigger] uids_of(panes_from(list)).contains(x)) <==> uids_of(list).contains(x),
    decreases list.len(),
{
    let s = panes_from(list);
    if list.len() > 0 {
        let d = list.drop_last();
        lemma_panes_from(d);
        lemma_put_sorted(panes_from(d), list.last());
        lemma_put_members(panes_from(d), list.last());
        assert(uids_of(list) =~= uids_of(d).push(list.last().uid));
        assert forall|x: Seq<char>| (#[trigger] uids_of(s).contains(x)) <==> uids_of(
            list,
        ).contains(x) by {
            assert(uids_of(panes_from(d)).contains(x) <==> uids_of(d).contains(x));
            if uids_of(d).contains(x) {
                let k = choose|k: int| 0 <= k < uids_of(d).len() && uids_of(d)[k] == x;
                assert(uids_of(list)[k] == x);
            }
            if uids_of(list).contains(x) {
                let k = choose|k: int| 0 <= k < uids_of(list).len() && uids_of(list)[k] == x;
                if k < d.len() {
                    assert(uids_of(d)[k] == x);
                }
            }
            assert(uids_of(list)[list.len() - 1] == list.last().uid);
        }
    } else {
        assert(uids_of(s) =~= uids_of(list));
    }
}

proof fn lemma_cons_contains(a: Seq<char>, s: Seq<Seq<char>>, x: Seq<char>)
    ensures
        (seq![a] + s).contains(x) <==> (x == a || s.contains(x)),
{
    let t = seq![a] + s;
    if t.contains(x) {
        let k = choose|k: int| 0 <= k < t.len() && t[k] == x;
        if k > 0 {
            assert(s[k - 1] == x);
        }
    }
    assert(t[0] == a);
    if s.contains(x) {
        let k = choose|k: int| 0 <= k < s.len() && s[k] == x;
        assert(t[k + 1] == x);
    }
}

/// Putting a pane in keeps the panes in order.
proof fn lemma_put_sorted(s: Seq<PaneView>, p: PaneView)
    requires
        sorted(uids_of(s)),
    ensures
        sorted(uids_of(put_pane(s, p))),
    decreases s.len(),
{
    let t = put_pane(s, p);
    if s.len() > 0 {
        let u = s.skip(1);
        assert forall|i: int, j: int| 0 <= i < j < uids_of(u).len() implies less(
            #[trigger] uids_of(u)[i],
            #[trigger] uids_of(u)[j],
        ) by {
            assert(less(uids_of(s)[i + 1], uids_of(s)[j + 1]));
        }
        lemma_put_sorted(u, p);
        assert forall|i: int, j: int| 0 <= i < j < uids_of(t).len() implies less(
            #[trigger] uids_of(t)[i],
            #[trigger] uids_of(t)[j],
        ) by {
            if s[0].uid == p.uid {
                assert(uids_of(t) =~= uids_of(s));
            } else if less(p.uid, s[0].uid) {
                assert(uids_of(t) =~= seq![p.uid] + uids_of(s));
                if i == 0 {
                    if j > 1 {
                        assert(less(uids_of(s)[0], uids_of(s)[j - 1]));
                        lemma_less_transitive(p.uid, s[0].uid, uids_of(s)[j - 1]);
                    }
                } else {
                    assert(less(uids_of(s)[i - 1], uids_of(s)[j - 1]));
                }
            } else {
                let w = put_pane(u, p);
                assert(uids_of(t) =~= seq![s[0].uid] + uids_of(w));
                if i == 0 {
                    let x = uids_of(w)[j - 1];
                    lemma_put_members(u, p);
                    assert(uids_of(w).contains(x));
                    if x == p.uid {
                        lemma_less_total(s[0].uid, p.uid);
                    } else {
                        let k = choose|k: int| 0 <= k < uids_of(u).len() && uids_of(u)[k] == x;
                        assert(less(uids_of(s)[0], uids_of(s)[k + 1]));
                    }
                } else {
                    assert(less(uids_of(w)[i - 1], uids_of(w)[j - 1]));
                }
            }
        }
    }
}

/// Puts `p` into the list at its place.
fn insert_pane(panes: &mut Vec<PaneInfo>, p: PaneInfo)
    requires
        sorted(uids_of(pane_views(old(panes)@))),
    ensures
        pane_views(final(panes)@) == put_pane(pane_views(old(panes)@), p@),
        sorted(uids_of(pane_views(final(panes)@))),
        final(panes)@.len() <= old(panes)@.len() + 1,
{
    let ghost before = pane_views(panes@);
    let ghost g = p@;
    let mut i: usize = 0;
    proof {
        lemma_put_sorted(before, g);
        lemma_put_members(before, g);
        assert(before.skip(0) =~= before);
        assert(before.take(0) + put_pane(before, g) =~= put_pane(before, g));
    }
    while i < panes.len()
        invariant
            i <= panes@.len(),
            pane_views(panes@) == before,
            before == pane_views(old(panes)@),
            panes@ == old(panes)@,
            g == p@,
            sorted(uids_of(put_pane(before, g))),
            put_pane(before, g) == before.take(i as int) + put_pane(before.skip(i as int), g),
        decreases panes.len() - i,
    {
        let ghost rest = before.skip(i as int);
        assert(rest[0] == panes@[i as int]@);
        assert(rest[0].uid == panes@[i as int].uid@);
        assert(rest.skip(1) =~= before.skip(i + 1));
        if same(panes[i].uid.as_str(), p.uid.as_str()) {
            panes.set(i, p);
            assert(pane_views(panes@) =~= before.take(i as int) + (seq![g] + rest.skip(1)));
            return;
        }
        if is_less(p.uid.as_str(), panes[i].uid.as_str()) {
            panes.insert(i, p);
            assert(pane_views(panes@) =~= before.take(i as int) + (seq![g] + rest));
            return;
        }
        assert(before.take(i as int) + (seq![rest[0]] + put_pane(rest.skip(1), g))
            =~= before.take(i + 1) + put_pane(before.skip(i + 1), g));
        i = i + 1;
    }
    panes.push(p);
    assert(pane_views(panes@) =~= before.take(i as int) + seq![g]);
}

// ---------------------------------------------------------------------------
// Framing
// ---------------------------------------------------------------------------

/// A guard line: `kind`, the time, the number of the block and its flag.
pub open spec fn guard_line(kind: Seq<char>, t: u64, n: u32, flag: Seq<char>) -> Seq<u8> {
    encode_utf8(kind + " "@ + dec(t as nat) + " "@ + dec(n as nat) + " "@ + flag)
}

/// Lines of text as bytes.
pub open spec fn encode_each(s: Seq<Seq<char>>) -> Seq<Seq<u8>> {
    Seq::new(s.len(), |i: int| encode_utf8(s[i]))
}

/// The lines that a body stands for.
pub open spec fn body_lines(body: Body) -> Seq<Seq<char>> {
    match body {
        Ok(ls) => ls,
        Err(e) => seq![e],
    }
}

/// A command block: `%begin`, the body, and `%end` or, for an error, `%error`,
/// with the same time and number.
pub open spec fn block(t: u64, n: u32, body: Body) -> Seq<Seq<u8>> {
    let closer = if body is Err {
        "%error"@
    } else {
        "%end"@
    };
    seq![guard_line("%begin"@, t, n, "1"@)] + encode_each(body_lines(body)) + seq![
        guard_line(closer, t, n, "1"@),
    ]
}

/// The number after `n`.
pub open spec fn next_number(n: u32) -> u32 {
    if n == u32::MAX {
        0
    } else {
        (n + 1) as u32
    }
}

fn guard_text(kind: &str, t: u64, n: u32, flag: &str) -> (r: Line)
    ensures
        r@ == guard_line(kind@, t, n, flag@),
{
    let mut s = owned(kind);
    s.append(" ");
    s.append(decimal(t).as_str());
    s.append(" ");
    s.append(decimal(n as u64).as_str());
    s.append(" ");
    s.append(flag);
    bytes_of(s.as_str())
}

/// Adds `line` to `out`.
fn add_line(out: &mut Vec<Line>, line: Line)
    ensures
        line_views(final(out)@) == line_views(old(out)@) + seq![line@],
{
    out.push(line);
    assert(line_views(out@) =~= line_views(old(out)@) + seq![line@]);
}

impl ServerState {
    /// Emits a notification, or defers it while a block is open: whatever
    /// stands between `%begin` and `%end` is the output of the command.
    pub fn notify(&mut self, out: &mut Vec<Line>, line: String)
        ensures
            old(self)@.depth == 0 ==> {
                &&& final(self)@ == old(self)@
                &&& line_views(final(out)@) == line_views(old(out)@) + seq![encode_utf8(line@)]
            },
            old(self)@.depth != 0 ==> {
                &&& final(self)@ == (ServerView {
                    deferred: old(self)@.deferred + seq![encode_utf8(line@)],
                    ..old(self)@
                })
                &&& final(out)@ == old(out)@
            },
            final(self).ids == old(self).ids,
    {
        let ghost v = self@;
        let bytes = bytes_of(line.as_str());
        if self.guard_depth == 0 {
            add_line(out, bytes);
        } else {
            self.deferred.push(bytes);
            assert(self@.deferred =~= v.deferred + seq![encode_utf8(line@)]);
        }
    }

    /// Wraps `body` in a block, and flushes what was deferred once no block is
    /// open any more.
    pub fn guarded(&mut self, out: &mut Vec<Line>, body: Result<Vec<String>, String>, now: u64)
        requires
            old(self)@.depth < u32::MAX,
        ensures
            ({
                let v = old(self)@;
                let b = body_view(body);
                let numbered = ServerView { next_command: next_number(v.next_command), ..v };
                if v.depth == 0 {
                    &&& final(self)@ == (ServerView { deferred: Seq::empty(), ..numbered })
                    &&& line_views(final(out)@) == line_views(old(out)@) + block(
                        now,
                        v.next_command,
                        b,
                    ) + v.deferred
                } else {
                    &&& final(self)@ == numbered
                    &&& line_views(final(out)@) == line_views(old(out)@) + block(
                        now,
                        v.next_command,
                        b,
                    )
                }
            }),
            final(self).ids == old(self).ids,
    {
        let ghost v = self@;
        let ghost start = line_views(out@);
        let ghost b = body_view(body);
        let n: u32 = self.next_command;
        self.next_command = if n == u32::MAX {
            0
        } else {
            n + 1
        };
        self.guard_depth = self.guard_depth + 1;
        add_line(out, guard_text("%begin", now, n, "1"));
        let ghost opened = line_views(out@);
        let failed = body.is_err();
        match body {
            Ok(ls) => {
                let mut i: usize = 0;
                assert(opened + encode_each(views(ls@).take(0)) =~= opened);
                while i < ls.len()
                    invariant
                        i <= ls@.len(),
                        line_views(out@) == opened + encode_each(views(ls@).take(i as int)),
                    decreases ls.len() - i,
                {
                    let bytes = bytes_of(ls[i].as_str());
                    add_line(out, bytes);
                    assert(line_views(out@) =~= opened + encode_each(views(ls@).take(i + 1)));
                    i = i + 1;
                }
                assert(views(ls@).take(i as int) =~= views(ls@));
            },
            Err(e) => {
                add_line(out, bytes_of(e.as_str()));
                assert(line_views(out@) =~= opened + encode_each(seq![e@]));
            },
        }
        let closer = if failed {
            "%error"
        } else {
            "%end"
        };
        add_line(out, guard_text(closer, now, n, "1"));
        assert(line_views(out@) =~= start + block(now, n, b));
        self.guard_depth = self.guard_depth - 1;
        if self.guard_depth == 0 {
            let ghost waiting = line_views(self.deferred@);
            let ghost wrote = line_views(out@);
            out.append(&mut self.deferred);
            assert(line_views(out@) =~= wrote + waiting);
            assert(line_views(self.deferred@) =~= Seq::<Seq<u8>>::empty());
        }
    }
}

// ---------------------------------------------------------------------------
// What the server says
// ---------------------------------------------------------------------------

/// The lines a client sees the instant it connects: the opening DCS, an empty
/// block of the server's own, a `%window-add` for each window, and the session.
pub open spec fn greeting_lines(v: ServerView, now: u64) -> Seq<Seq<u8>> {
    let open: Seq<Seq<u8>> = if v.mode == ControlMode::Wrapped {
        seq![DCS_OPEN@]
    } else {
        Seq::empty()
    };
    open + seq![guard_line("%begin"@, now, 0, "0"@), guard_line("%end"@, now, 0, "0"@)]
        + window_adds(assign("window"@, v.uids())) + seq![
        encode_utf8("%sessions-changed"@),
        encode_utf8("%session-changed $"@ + dec(SESSION_ID as nat) + " "@ + v.session_name),
    ]
}

/// A `%window-add` for each of `ids`.
pub open spec fn window_adds(ids: Seq<u32>) -> Seq<Seq<u8>> {
    Seq::new(ids.len(), |i: int| encode_utf8("%window-add @"@ + dec(ids[i] as nat)))
}

/// The lines that end the stream: `%exit`, with the reason where there is one,
/// and the closing ST.
pub open spec fn goodbye_lines(v: ServerView, reason: Option<Seq<char>>) -> Seq<Seq<u8>> {
    let exit = match reason {
        Some(r) => encode_utf8("%exit "@ + r),
        None => encode_utf8("%exit"@),
    };
    if v.mode == ControlMode::Wrapped {
        seq![exit, DCS_CLOSE@]
    } else {
        seq![exit]
    }
}

/// The `%output` line of a pane: its id and the escaped bytes.
pub open spec fn output_line(pane_id: u32, data: Seq<u8>) -> Seq<u8> {
    encode_utf8("%output %"@ + dec(pane_id as nat) + " "@) + escape(data)
}

/// What output of the pane `uid` is written as. Nothing, where the pane is not
/// published or there is no output.
pub open spec fn output_lines(v: ServerView, uid: Seq<char>, data: Seq<u8>) -> Seq<Seq<u8>> {
    match v.pane_id(uid) {
        Some(p) => if data.len() > 0 {
            seq![output_line(p, data)]
        } else {
            Seq::empty()
        },
        None => Seq::empty(),
    }
}

/// The `%layout-change` of the window of `uid`.
pub open spec fn layout_change(v: ServerView, uid: Seq<char>) -> Seq<u8> {
    encode_utf8(
        "%layout-change @"@ + dec(v.window_id(uid)->0 as nat) + " "@ + v.layout_for(uid) + " "@
            + v.layout_for(uid) + " "@ + v.window_flags(uid),
    )
}

/// The state with the pane `p` added, active where there was none.
pub open spec fn added(v: ServerView, p: PaneView) -> ServerView {
    ServerView {
        panes: put_pane(v.panes, p),
        active: match v.active {
            Some(u) => Some(u),
            None => Some(p.uid),
        },
        ..v
    }
}

/// The state without the pane `uid`. Where it was the active one, the first of
/// the others is.
pub open spec fn removed(v: ServerView, uid: Seq<char>) -> ServerView {
    let panes = v.panes.remove(position(v.uids(), uid));
    ServerView {
        panes,
        active: if v.active == Some(uid) {
            first_uid(panes)
        } else {
            v.active
        },
        ..v
    }
}

/// The first uid of a list of panes.
pub open spec fn first_uid(panes: Seq<PaneView>) -> Option<Seq<char>> {
    if panes.len() > 0 {
        Some(panes[0].uid)
    } else {
        None
    }
}

/// The state with the pane `uid`, where it is published, replaced by `p`.
pub open spec fn replaced(v: ServerView, uid: Seq<char>, p: PaneView) -> ServerView {
    if v.has(uid) {
        ServerView { panes: v.panes.update(position(v.uids(), uid), p), ..v }
    } else {
        v
    }
}

/// A pane with a new grid.
pub open spec fn regridded(p: PaneView, cols: u16, rows: u16) -> PaneView {
    PaneView { cols: Some(cols), rows: Some(rows), ..p }
}

/// A pane with a new title.
pub open spec fn retitled(p: PaneView, title: Seq<char>) -> PaneView {
    PaneView { title: Some(title), ..p }
}

/// Replacing a pane by one of the same uid changes no uid.
proof fn lemma_replaced(v: ServerView, uid: Seq<char>, p: PaneView)
    requires
        v.ok(),
        v.has(uid),
        p.uid == uid,
    ensures
        replaced(v, uid, p).uids() == v.uids(),
        replaced(v, uid, p).ok(),
        replaced(v, uid, p).pane(uid) == Some(p),
{
    lemma_position(v.uids(), uid);
    assert(replaced(v, uid, p).uids() =~= v.uids());
}

proof fn lemma_removed(v: ServerView, uid: Seq<char>)
    requires
        v.ok(),
        v.has(uid),
    ensures
        removed(v, uid).uids() == v.uids().remove(position(v.uids(), uid)),
        removed(v, uid).ok(),
        forall|x: Seq<char>|
            (#[trigger] removed(v, uid).has(x)) <==> (x != uid && v.has(x)),
{
    lemma_position(v.uids(), uid);
    let k = position(v.uids(), uid);
    let w = removed(v, uid);
    let a = v.uids();
    let b = w.uids();
    assert(b =~= a.remove(k));
    assert forall|i: int, j: int| 0 <= i < j < b.len() implies less(
        #[trigger] b[i],
        #[trigger] b[j],
    ) by {
        let x = if i < k {
            i
        } else {
            i + 1
        };
        let y = if j < k {
            j
        } else {
            j + 1
        };
        assert(less(a[x], a[y]));
    }
    assert forall|x: Seq<char>| (#[trigger] w.has(x)) <==> (x != uid && v.has(x)) by {
        if b.contains(x) {
            let i = choose|i: int| 0 <= i < b.len() && b[i] == x;
            let m = if i < k {
                i
            } else {
                i + 1
            };
            assert(a[m] == x);
            if m < k {
                assert(less(a[m], a[k]));
            } else {
                assert(less(a[k], a[m]));
            }
            lemma_less_total(x, uid);
        }
        if x != uid && a.contains(x) {
            let m = choose|m: int| 0 <= m < a.len() && a[m] == x;
            let i = if m < k {
                m
            } else {
                m - 1
            };
            assert(b[i] == x);
        }
    }
    if let Some(u) = v.active {
        if u == uid {
            if w.panes.len() > 0 {
                assert(b[0] == w.panes[0].uid);
            }
        }
    }
}

proof fn lemma_added(v: ServerView, p: PaneView)
    requires
        v.ok(),
        !v.has(p.uid),
        v.panes.len() < ID_COUNT,
    ensures
        added(v, p).ok(),
        added(v, p).has(p.uid),
        forall|x: Seq<char>| (#[trigger] added(v, p).has(x)) <==> (x == p.uid || v.has(x)),
{
    lemma_put_sorted(v.panes, p);
    lemma_put_members(v.panes, p);
}

// ---------------------------------------------------------------------------
// Commands
// ---------------------------------------------------------------------------

/// A line without one newline at its end, and without one carriage return
/// before that.
pub open spec fn stripped(line: Seq<char>) -> Seq<char> {
    let a = if line.len() > 0 && line.last() == '\n' {
        line.drop_last()
    } else {
        line
    };
    if a.len() > 0 && a.last() == '\r' {
        a.drop_last()
    } else {
        a
    }
}

/// What a line of the client does: the state after it, the lines written and
/// what is asked of the driver.
pub struct Answer {
    pub state: ServerView,
    pub lines: Seq<Seq<u8>>,
    pub actions: Seq<ActionView>,
}

/// The outcome of a command as the client sees it: its block, and behind it
/// the notifications it gave rise to.
pub open spec fn answer_of(o: Outcome, now: u64) -> Answer {
    Answer {
        state: ServerView {
            next_command: next_number(o.state.next_command),
            deferred: Seq::empty(),
            ..o.state
        },
        lines: block(now, o.state.next_command, o.body) + o.state.deferred,
        actions: o.actions,
    }
}

/// What a line of the client does. A blank line detaches; a line that cannot
/// be split into words is an error.
pub open spec fn answer(v: ServerView, line: Seq<char>, now: u64) -> Answer {
    let l = stripped(line);
    let detach = Answer { state: v, lines: Seq::empty(), actions: seq![ActionView::Detach] };
    if trim(l).len() == 0 {
        detach
    } else {
        match words_of(l) {
            Err(e) => answer_of(
                Outcome { state: v, actions: Seq::empty(), body: Err("parse error: "@ + e) },
                now,
            ),
            Ok(ws) => if ws.len() == 0 {
                detach
            } else {
                answer_of(run(v, ws[0], ws.skip(1)), now)
            },
        }
    }
}

/// The first word of a line.
pub open spec fn first_word(s: Seq<char>) -> Seq<char>
    decreases s.len(),
{
    if s.len() == 0 || is_white_space(s[0]) {
        Seq::empty()
    } else {
        seq![s[0]] + first_word(s.skip(1))
    }
}

/// Whether a command line needs a fresh screen mirror before it is run.
pub fn wants_screen_refresh(line: &str) -> (r: bool)
    ensures
        r == (first_word(trim_start(line@)) == "capture-pane"@ || first_word(trim_start(line@))
            == "capturep"@),
{
    let chars = chars_of(line);
    let head = trimmed_start(chars.as_slice());
    let mut word = String::new();
    let mut i: usize = 0;
    proof {
        assert(head@.skip(0) =~= head@);
        assert(word@ + first_word(head@) =~= first_word(head@));
    }
    while i < head.len() && !white_space(head[i])
        invariant
            i <= head@.len(),
            first_word(head@) == word@ + first_word(head@.skip(i as int)),
        decreases head.len() - i,
    {
        let ghost before = word@;
        let ghost rest = head@.skip(i as int);
        assert(rest[0] == head@[i as int]);
        assert(rest.skip(1) =~= head@.skip(i + 1));
        word.push(head[i]);
        assert(before + (seq![rest[0]] + first_word(rest.skip(1))) =~= word@ + first_word(
            rest.skip(1),
        ));
        i = i + 1;
    }
    assert(word@ + Seq::<char>::empty() =~= word@);
    same(word.as_str(), "capture-pane") || same(word.as_str(), "capturep")
}

/// The control-mode state machine.
///
/// Feed it command lines from the client and pane events from the daemon;
/// write everything it returns.
pub struct ControlServer {
    state: ServerState,
}

impl View for ControlServer {
    type V = ServerView;

    closed spec fn view(&self) -> ServerView {
        self.state@
    }
}

impl ControlServer {
    /// The state is consistent, and no block is open.
    pub closed spec fn wf(self) -> bool {
        self.state.wf() && self.state@.idle()
    }

    /// What holds of the state of a well-formed server.
    pub proof fn lemma_wf(self)
        requires
            self.wf(),
        ensures
            self@.ok(),
            self@.idle(),
    {
    }

    /// A server that publishes `panes` as one tmux session. `pid` is the id of
    /// the process it runs in, which `#{pid}` shows.
    pub fn new(session_name: &str, panes: Vec<PaneInfo>, pid: u32) -> (r: ControlServer)
        requires
            uids_of(pane_views(panes@)).to_set().len() <= ID_COUNT,
        ensures
            r.wf(),
            r@ == (ServerView {
                session_name: session_name@,
                mode: ControlMode::Wrapped,
                policy: ResizePolicy::Observe,
                clock: Clock::System,
                panes: panes_from(pane_views(panes@)),
                active: first_uid(panes_from(pane_views(panes@))),
                next_command: 1,
                depth: 0,
                deferred: Seq::empty(),
                options: Seq::empty(),
                client_size: (80, 24),
                client_name: "hyperpanes"@,
                pid,
            }),
    {
        let mut list: Vec<PaneInfo> = Vec::new();
        let mut i: usize = 0;
        proof {
            assert(pane_views(panes@).take(0) =~= Seq::<PaneView>::empty());
            assert(pane_views(list@) =~= Seq::<PaneView>::empty());
        }
        while i < panes.len()
            invariant
                i <= panes@.len(),
                pane_views(list@) == panes_from(pane_views(panes@).take(i as int)),
                sorted(uids_of(pane_views(list@))),
            decreases panes.len() - i,
        {
            insert_pane(&mut list, pane_copy(&panes[i]));
            proof {
                let t = pane_views(panes@).take(i + 1);
                assert(t.drop_last() =~= pane_views(panes@).take(i as int));
                assert(t.last() == panes@[i as int]@);
            }
            i = i + 1;
        }
        proof {
            assert(pane_views(panes@).take(i as int) =~= pane_views(panes@));
            lemma_panes_from(pane_views(panes@));
            lemma_sorted_count(uids_of(pane_views(list@)), uids_of(pane_views(panes@)));
        }
        let active = if list.len() > 0 {
            Some(list[0].uid.clone())
        } else {
            None
        };
        let mut state = ServerState {
            session_name: owned(session_name),
            mode: ControlMode::Wrapped,
            policy: ResizePolicy::Observe,
            clock: Clock::System,
            ids: IdMap::empty(),
            panes: list,
            active,
            next_command: 1,
            guard_depth: 0,
            deferred: Vec::new(),
            options: OptionStore::new(),
            client_size: (80, 24),
            client_name: owned("hyperpanes"),
            pid,
        };
        state.reindex();
        proof {
            assert(state@.deferred =~= Seq::<Seq<u8>>::empty());
            if state@.panes.len() > 0 {
                assert(state@.uids()[0] == state@.panes[0].uid);
                assert(state@.uids().contains(state@.panes[0].uid));
            }
        }
        ControlServer { state }
    }

    /// `-C` (bare) or `-CC` (wrapped).
    pub fn with_mode(self, mode: ControlMode) -> (r: ControlServer)
        requires
            self.wf(),
        ensures
            r.wf(),
            r@ == (ServerView { mode, ..self@ }),
    {
        let mut s = self;
        s.state.mode = mode;
        assert(s@.uids() == self@.uids());
        s
    }

    /// Whether `refresh-client -C` may reflow panes.
    pub fn with_policy(self, policy: ResizePolicy) -> (r: ControlServer)
        requires
            self.wf(),
        ensures
            r.wf(),
            r@ == (ServerView { policy, ..self@ }),
    {
        let mut s = self;
        s.state.policy = policy;
        assert(s@.uids() == self@.uids());
        s
    }

    /// Where `%begin`'s timestamp comes from.
    pub fn with_clock(self, clock: Clock) -> (r: ControlServer)
        requires
            self.wf(),
        ensures
            r.wf(),
            r@ == (ServerView { clock, ..self@ }),
    {
        let mut s = self;
        s.state.clock = clock;
        assert(s@.uids() == self@.uids());
        s
    }

    /// The current uid to tmux id mapping.
    pub fn ids(&self) -> (r: &IdMap)
        requires
            self.wf(),
        ensures
            r.wf(),
            r.uids() == self@.uids(),
    {
        &self.state.ids
    }

    /// Replaces a pane's cached screen mirror. An unknown uid is passed over.
    pub fn set_screen(&mut self, uid: &str, screen: Option<String>)
        requires
            old(self).wf(),
        ensures
            final(self).wf(),
            final(self)@ == replaced(
                old(self)@,
                uid@,
                PaneView { screen: opt_view(screen), ..old(self)@.pane(uid@)->0 },
            ),
    {
        let ghost v = self@;
        let ghost g = opt_view(screen);
        if let Some(i) = self.state.find_pane(uid) {
            let mut p = pane_copy(&self.state.panes[i]);
            p.screen = screen;
            proof {
                assert(v.panes[i as int] == self.state.panes@[i as int]@);
                lemma_replaced(v, uid@, PaneView { screen: g, ..v.pane(uid@)->0 });
            }
            self.state.panes.set(i, p);
            assert(self@.panes =~= replaced(
                v,
                uid@,
                PaneView { screen: g, ..v.pane(uid@)->0 },
            ).panes);
        }
    }

    /// Records a pane's working directory, reported as `#{pane_current_path}`.
    /// An unknown uid is passed over.
    pub fn set_cwd(&mut self, uid: &str, cwd: Option<String>)
        requires
            old(self).wf(),
        ensures
            final(self).wf(),
            final(self)@ == replaced(
                old(self)@,
                uid@,
                PaneView { cwd: opt_view(cwd), ..old(self)@.pane(uid@)->0 },
            ),
    {
        let ghost v = self@;
        let ghost g = opt_view(cwd);
        if let Some(i) = self.state.find_pane(uid) {
            let mut p = pane_copy(&self.state.panes[i]);
            p.cwd = cwd;
            proof {
                assert(v.panes[i as int] == self.state.panes@[i as int]@);
                lemma_replaced(v, uid@, PaneView { cwd: g, ..v.pane(uid@)->0 });
            }
            self.state.panes.set(i, p);
            assert(self@.panes =~= replaced(
                v,
                uid@,
                PaneView { cwd: g, ..v.pane(uid@)->0 },
            ).panes);
        }
    }

    /// Whether this uid is one of the panes currently published.
    pub fn has_pane(&self, uid: &str) -> (r: bool)
        ensures
            r == self@.has(uid@),
    {
        self.state.find_pane(uid).is_some()
    }

    /// Every published uid, in order.
    pub fn uids(&self) -> (r: Vec<String>)
        ensures
            views(r@) == self@.uids(),
    {
        self.state.uids()
    }

    /// `*` for the active window, nothing for any other.
    pub fn window_flags(&self, uid: &str) -> (r: String)
        ensures
            r@ == self@.window_flags(uid@),
    {
        self.state.window_flags(uid)
    }

    /// Expands a tmux `-F` template. A layout can be shown only of a pane that is
    /// published.
    pub fn expand(&self, template: &str, ctx: &FmtCtx) -> (r: String)
        requires
            self.wf(),
            is_published(self@, opt_view(ctx.uid)) || !shows_layout(
                self@,
                template@,
                opt_view(ctx.uid),
            ),
        ensures
            r@ == expand(self@, template@, opt_view(ctx.uid)),
    {
        self.state.expand(template, ctx)
    }

    /// The lines a client sees the instant it connects.
    pub fn greeting(&mut self) -> (r: Vec<Line>)
        requires
            old(self).wf(),
        ensures
            final(self)@ == old(self)@,
            final(self).wf(),
            exists|now: u64|
                old(self)@.clock.shows(now) && line_views(r@) == #[trigger] greeting_lines(
                    old(self)@,
                    now,
                ),
    {
        let now: u64 = self.state.clock.now();
        self.greeting_at(now)
    }

    /// The lines a client sees when it connects at the time `now`.
    pub fn greeting_at(&self, now: u64) -> (r: Vec<Line>)
        requires
            self.wf(),
        ensures
            line_views(r@) == greeting_lines(self@, now),
    {
        let ghost v = self@;
        let ghost ids = assign("window"@, v.uids());
        let mut out: Vec<Line> = Vec::new();
        assert(line_views(out@) =~= Seq::<Seq<u8>>::empty());
        let ghost open: Seq<Seq<u8>> = if v.mode == ControlMode::Wrapped {
            seq![DCS_OPEN@]
        } else {
            Seq::empty()
        };
        if self.state.mode == ControlMode::Wrapped {
            add_line(&mut out, slice_to_vec(DCS_OPEN.as_slice()));
        }
        assert(line_views(out@) =~= open);
        add_line(&mut out, guard_text("%begin", now, 0, "0"));
        add_line(&mut out, guard_text("%end", now, 0, "0"));
        let ghost head = line_views(out@);
        assert(head =~= open + seq![
            guard_line("%begin"@, now, 0, "0"@),
            guard_line("%end"@, now, 0, "0"@),
        ]);
        let mut i: usize = 0;
        proof {
            law_ids_unique_and_bounded("window"@, v.uids());
            assert(head + window_adds(ids.take(0)) =~= head);
        }
        while i < self.state.panes.len()
            invariant
                i <= self.state.panes@.len(),
                self.wf(),
                v == self@,
                ids == assign("window"@, v.uids()),
                ids.len() == v.uids().len(),
                line_views(out@) == head + window_adds(ids.take(i as int)),
            decreases self.state.panes.len() - i,
        {
            let uid = self.state.panes[i].uid.as_str();
            proof {
                assert(v.uids()[i as int] == uid@);
                lemma_index(v.uids(), i as int);
            }
            if let Some(w) = self.state.ids.window_id(uid) {
                assert(w == ids[i as int]);
                add_line(&mut out, bytes_of(tagged("%window-add @", w).as_str()));
                assert(line_views(out@) =~= head + window_adds(ids.take(i + 1)));
            }
            i = i + 1;
        }
        assert(ids.take(i as int) =~= ids);
        add_line(&mut out, bytes_of("%sessions-changed"));
        let mut last = tagged("%session-changed $", SESSION_ID);
        last.append(" ");
        last.append(self.state.session_name.as_str());
        add_line(&mut out, bytes_of(last.as_str()));
        assert(line_views(out@) =~= greeting_lines(v, now));
        out
    }

    /// `%exit`, with the reason where there is one, and the closing ST.
    pub fn goodbye(&mut self, reason: Option<&str>) -> (r: Vec<Line>)
        ensures
            final(self)@ == old(self)@,
            old(self).wf() ==> final(self).wf(),
            line_views(r@) == goodbye_lines(
                old(self)@,
                match reason {
                    Some(s) => Some(s@),
                    None => None,
                },
            ),
    {
        let mut out: Vec<Line> = Vec::new();
        match reason {
            Some(s) => {
                let mut line = owned("%exit ");
                line.append(s);
                out.push(bytes_of(line.as_str()));
            },
            None => {
                out.push(bytes_of("%exit"));
            },
        }
        if self.state.mode == ControlMode::Wrapped {
            out.push(slice_to_vec(DCS_CLOSE.as_slice()));
        }
        assert(line_views(out@) =~= goodbye_lines(
            self@,
            match reason {
                Some(s) => Some(s@),
                None => None,
            },
        ));
        out
    }

    /// A pane produced output: one `%output` line.
    pub fn output(&mut self, uid: &str, data: &[u8]) -> (r: Vec<Line>)
        requires
            old(self).wf(),
        ensures
            final(self)@ == old(self)@,
            final(self).wf(),
            line_views(r@) == output_lines(old(self)@, uid@, data@),
    {
        let mut out: Vec<Line> = Vec::new();
        assert(line_views(out@) =~= Seq::<Seq<u8>>::empty());
        if data.len() > 0 {
            if let Some(pane) = self.state.ids.pane_id(uid) {
                let mut head = tagged("%output %", pane);
                head.append(" ");
                let mut line = bytes_of(head.as_str());
                let mut payload = escape_output(data);
                line.append(&mut payload);
                out.push(line);
                assert(line_views(out@) =~= seq![output_line(pane, data@)]);
            }
        }
        out
    }

    fn layout_note(&self, uid: &str) -> (r: String)
        requires
            self.wf(),
            self@.has(uid@),
        ensures
            encode_utf8(r@) == layout_change(self@, uid@),
    {
        proof {
            lemma_published(self@, uid@);
        }
        let w: u32 = match self.state.ids.window_id(uid) {
            Some(w) => w,
            None => 0,
        };
        let layout = self.state.layout_for(uid);
        let mut s = tagged("%layout-change @", w);
        s.append(" ");
        s.append(layout.as_str());
        s.append(" ");
        s.append(layout.as_str());
        s.append(" ");
        s.append(self.state.window_flags(uid).as_str());
        s
    }

    /// A new pane appeared: a new window. A pane that is published already is
    /// passed over.
    pub fn pane_added(&mut self, info: PaneInfo) -> (r: Vec<Line>)
        requires
            old(self).wf(),
            old(self)@.panes.len() < ID_COUNT || old(self)@.has(info@.uid),
        ensures
            final(self).wf(),
            ({
                let v = old(self)@;
                let p = info@;
                let w = added(v, p);
                if v.has(p.uid) {
                    final(self)@ == v && line_views(r@) == Seq::<Seq<u8>>::empty()
                } else {
                    final(self)@ == w && line_views(r@) == seq![
                        encode_utf8("%window-add @"@ + dec(w.window_id(p.uid)->0 as nat)),
                        layout_change(w, p.uid),
                    ]
                }
            }),
    {
        let ghost v = self@;
        let ghost p = info@;
        let mut out: Vec<Line> = Vec::new();
        assert(line_views(out@) =~= Seq::<Seq<u8>>::empty());
        let uid = info.uid.clone();
        if self.state.find_pane(uid.as_str()).is_some() {
            return out;
        }
        proof {
            lemma_added(v, p);
        }
        insert_pane(&mut self.state.panes, info);
        if self.state.active.is_none() {
            self.state.active = Some(uid.clone());
        }
        assert(self@ =~= added(v, p));
        self.state.reindex();
        proof {
            lemma_published(self@, p.uid);
        }
        if let Some(w) = self.state.ids.window_id(uid.as_str()) {
            let first = tagged("%window-add @", w);
            let second = self.layout_note(uid.as_str());
            self.state.notify(&mut out, first);
            self.state.notify(&mut out, second);
        }
        assert(line_views(out@) =~= seq![
            encode_utf8("%window-add @"@ + dec(added(v, p).window_id(p.uid)->0 as nat)),
            layout_change(added(v, p), p.uid),
        ]);
        out
    }

    /// A pane exited: its window closes. The session stays.
    pub fn pane_exited(&mut self, uid: &str) -> (r: Vec<Line>)
        requires
            old(self).wf(),
        ensures
            final(self).wf(),
            ({
                let v = old(self)@;
                if v.has(uid@) {
                    final(self)@ == removed(v, uid@) && line_views(r@) == seq![
                        encode_utf8("%window-close @"@ + dec(v.window_id(uid@)->0 as nat)),
                    ]
                } else {
                    final(self)@ == v && line_views(r@) == Seq::<Seq<u8>>::empty()
                }
            }),
    {
        let ghost v = self@;
        let mut out: Vec<Line> = Vec::new();
        assert(line_views(out@) =~= Seq::<Seq<u8>>::empty());
        let i: usize = match self.state.find_pane(uid) {
            Some(i) => i,
            None => {
                return out;
            },
        };
        proof {
            lemma_published(v, uid@);
            lemma_removed(v, uid@);
        }
        let w: u32 = match self.state.ids.window_id(uid) {
            Some(w) => w,
            None => {
                return out;
            },
        };
        self.state.panes.remove(i);
        assert(self@.panes =~= v.panes.remove(i as int));
        if opt_is(&self.state.active, uid) {
            self.state.active = if self.state.panes.len() > 0 {
                assert(self@.panes[0] == self.state.panes@[0]@);
                Some(self.state.panes[0].uid.clone())
            } else {
                None
            };
        }
        assert(self@ =~= removed(v, uid@));
        self.state.reindex();
        self.state.notify(&mut out, tagged("%window-close @", w));
        assert(line_views(out@) =~= seq![
            encode_utf8("%window-close @"@ + dec(v.window_id(uid@)->0 as nat)),
        ]);
        out
    }

    /// A pane's grid changed: `%layout-change`. Nothing, where it did not
    /// change or the pane is not published.
    pub fn pane_resized(&mut self, uid: &str, cols: u16, rows: u16) -> (r: Vec<Line>)
        requires
            old(self).wf(),
        ensures
            final(self).wf(),
            ({
                let v = old(self)@;
                let p = v.pane(uid@);
                if p is None || (p->0.cols == Some(cols) && p->0.rows == Some(rows)) {
                    final(self)@ == v && line_views(r@) == Seq::<Seq<u8>>::empty()
                } else {
                    let w = replaced(v, uid@, regridded(p->0, cols, rows));
                    final(self)@ == w && line_views(r@) == seq![layout_change(w, uid@)]
                }
            }),
    {
        let ghost v = self@;
        let mut out: Vec<Line> = Vec::new();
        assert(line_views(out@) =~= Seq::<Seq<u8>>::empty());
        let i: usize = match self.state.find_pane(uid) {
            Some(i) => i,
            None => {
                return out;
            },
        };
        assert(v.panes[i as int] == self.state.panes@[i as int]@);
        if self.state.panes[i].cols == Some(cols) && self.state.panes[i].rows == Some(rows) {
            return out;
        }
        let mut p = pane_copy(&self.state.panes[i]);
        p.cols = Some(cols);
        p.rows = Some(rows);
        let ghost w = replaced(v, uid@, regridded(v.pane(uid@)->0, cols, rows));
        proof {
            lemma_replaced(v, uid@, regridded(v.pane(uid@)->0, cols, rows));
        }
        self.state.panes.set(i, p);
        assert(self@.panes =~= w.panes);
        let note = self.layout_note(uid);
        self.state.notify(&mut out, note);
        assert(line_views(out@) =~= seq![layout_change(w, uid@)]);
        out
    }

    /// A pane's title changed: `%window-renamed`. Nothing, where it did not
    /// change or the pane is not published.
    pub fn pane_renamed(&mut self, uid: &str, title: &str) -> (r: Vec<Line>)
        requires
            old(self).wf(),
        ensures
            final(self).wf(),
            ({
                let v = old(self)@;
                let p = v.pane(uid@);
                if p is None || p->0.title == Some(title@) {
                    final(self)@ == v && line_views(r@) == Seq::<Seq<u8>>::empty()
                } else {
                    let q = retitled(p->0, title@);
                    final(self)@ == replaced(v, uid@, q) && line_views(r@) == seq![
                        encode_utf8(
                            "%window-renamed @"@ + dec(v.window_id(uid@)->0 as nat) + " "@
                                + q.name(),
                        ),
                    ]
                }
            }),
    {
        let ghost v = self@;
        let mut out: Vec<Line> = Vec::new();
        assert(line_views(out@) =~= Seq::<Seq<u8>>::empty());
        let i: usize = match self.state.find_pane(uid) {
            Some(i) => i,
            None => {
                return out;
            },
        };
        assert(v.panes[i as int] == self.state.panes@[i as int]@);
        if opt_is(&self.state.panes[i].title, title) {
            return out;
        }
        let mut p = pane_copy(&self.state.panes[i]);
        p.title = Some(owned(title));
        let name = p.name();
        let ghost q = retitled(v.pane(uid@)->0, title@);
        proof {
            lemma_published(v, uid@);
            lemma_replaced(v, uid@, q);
        }
        self.state.panes.set(i, p);
        assert(self@.panes =~= replaced(v, uid@, q).panes);
        let w: u32 = match self.state.ids.window_id(uid) {
            Some(w) => w,
            None => 0,
        };
        let mut note = tagged("%window-renamed @", w);
        note.append(" ");
        note.append(name.as_str());
        self.state.notify(&mut out, note);
        assert(line_views(out@) =~= seq![
            encode_utf8(
                "%window-renamed @"@ + dec(v.window_id(uid@)->0 as nat) + " "@ + q.name(),
            ),
        ]);
        out
    }

    /// Handles one line from the client.
    pub fn command(&mut self, line: &str) -> (r: Reaction)
        requires
            old(self).wf(),
        ensures
            final(self).wf(),
            exists|now: u64|
                {
                    let a = #[trigger] answer(old(self)@, line@, now);
                    old(self)@.clock.shows(now) && final(self)@ == a.state && line_views(r.lines@)
                        == a.lines && action_views(r.actions@) == a.actions
                },
    {
        let now: u64 = self.state.clock.now();
        self.command_at(line, now)
    }

    /// Handles one line from the client at the time `now`.
    pub fn command_at(&mut self, line: &str, now: u64) -> (r: Reaction)
        requires
            old(self).wf(),
        ensures
            final(self).wf(),
            ({
                let a = answer(old(self)@, line@, now);
                final(self)@ == a.state && line_views(r.lines@) == a.lines && action_views(
                    r.actions@,
                ) == a.actions
            }),
    {
        let ghost v = self@;
        let mut r = Reaction { lines: Vec::new(), actions: Vec::new() };
        proof {
            assert(line_views(r.lines@) =~= Seq::<Seq<u8>>::empty());
            assert(action_views(r.actions@) =~= Seq::<ActionView>::empty());
        }
        let chars = chars_of(line);
        let mut n: usize = chars.len();
        if n > 0 && chars[n - 1] == '\n' {
            n = n - 1;
        }
        let ghost m = n;
        if n > 0 && chars[n - 1] == '\r' {
            n = n - 1;
        }
        let body = slice_subrange(chars.as_slice(), 0, n);
        proof {
            let a = if line@.len() > 0 && line@.last() == '\n' {
                line@.drop_last()
            } else {
                line@
            };
            assert(a =~= line@.take(m as int));
            assert(body@ =~= stripped(line@));
        }
        if trimmed(body).len() == 0 {
            r.actions.push(Action::Detach);
            assert(action_views(r.actions@) =~= seq![ActionView::Detach]);
            return r;
        }
        let text = string_of(body);
        match split_words(text.as_str()) {
            Err(e) => {
                let mut message = owned("parse error: ");
                message.append(e.as_str());
                self.state.guarded(&mut r.lines, Err(message), now);
                assert(line_views(r.lines@) =~= answer(v, line@, now).lines);
            },
            Ok(words) => {
                if words.len() == 0 {
                    r.actions.push(Action::Detach);
                    assert(action_views(r.actions@) =~= seq![ActionView::Detach]);
                    return r;
                }
                let reply = self.state.dispatch(&words, &mut r.actions);
                let ghost o = run(v, views(words@)[0], views(words@).skip(1));
                proof {
                    law_command_keeps_depth(v, views(words@)[0], views(words@).skip(1));
                }
                self.state.guarded(&mut r.lines, reply, now);
                assert(action_views(r.actions@) =~= o.actions);
                assert(line_views(r.lines@) =~= answer(v, line@, now).lines);
            },
        }
        r
    }
}

proof fn lemma_index(s: Seq<Seq<char>>, i: int)
    requires
        sorted(s),
        0 <= i < s.len(),
    ensures
        position(s, s[i]) == i,
        s.contains(s[i]),
{
    assert forall|k: int| 0 <= k < i implies s[k] != s[i] by {
        assert(less(s[k], s[i]));
        lemma_less_total(s[k], s[i]);
    }
    crate::text::lemma_position_unique(s, s[i], i);
}

/// No command opens or closes a block, renumbers one, or changes what is
/// published.
pub proof fn law_command_keeps_depth(v: ServerView, name: Seq<char>, args: Seq<Seq<char>>)
    ensures
        run(v, name, args).state.depth == v.depth,
        run(v, name, args).state.next_command == v.next_command,
        run(v, name, args).state.panes == v.panes,
{
    reveal(run);
}

/// The pane at a place is the pane of its uid.
proof fn lemma_pane_at(v: ServerView, i: int)
    requires
        sorted(v.uids()),
        0 <= i < v.panes.len(),
    ensures
        v.pane(v.panes[i].uid) == Some(v.panes[i]),
        v.has(v.panes[i].uid),
{
    assert(v.uids()[i] == v.panes[i].uid);
    lemma_index(v.uids(), i);
}

proof fn lemma_put_keeps(s: Seq<PaneView>, p: PaneView, q: PaneView)
    ensures
        put_pane(s, p).contains(p),
        s.contains(q) && q.uid != p.uid ==> put_pane(s, p).contains(q),
    decreases s.len(),
{
    let t = put_pane(s, p);
    if s.len() == 0 {
        assert(t[0] == p);
    } else if s[0].uid == p.uid || less(p.uid, s[0].uid) {
        assert(t[0] == p);
        if s.contains(q) && q.uid != p.uid {
            let k = choose|k: int| 0 <= k < s.len() && s[k] == q;
            if s[0].uid == p.uid {
                assert(t[k] == q);
            } else {
                assert(t[k + 1] == q);
            }
        }
    } else {
        let u = s.skip(1);
        lemma_put_keeps(u, p, q);
        let r = put_pane(u, p);
        let a = choose|a: int| 0 <= a < r.len() && r[a] == p;
        assert(t[a + 1] == p);
        if s.contains(q) && q.uid != p.uid {
            let k = choose|k: int| 0 <= k < s.len() && s[k] == q;
            if k == 0 {
                assert(t[0] == q);
            } else {
                assert(u[k - 1] == q);
                let b = choose|b: int| 0 <= b < r.len() && r[b] == q;
                assert(t[b + 1] == q);
            }
        }
    }
}

/// A pane that is added is published as it is, and every other stays as it was;
/// it is the active one only where there was none.
pub proof fn law_added_pane_is_published(v: ServerView, p: PaneView, other: Seq<char>)
    requires
        v.ok(),
        !v.has(p.uid),
        v.panes.len() < ID_COUNT,
    ensures
        added(v, p).pane(p.uid) == Some(p),
        other != p.uid ==> added(v, p).pane(other) == v.pane(other),
        added(v, p).active == (if v.active is Some {
            v.active
        } else {
            Some(p.uid)
        }),
        added(v, p) == (ServerView {
            panes: added(v, p).panes,
            active: added(v, p).active,
            ..v
        }),
{
    let w = added(v, p);
    lemma_added(v, p);
    lemma_put_keeps(v.panes, p, p);
    let i = choose|i: int| 0 <= i < w.panes.len() && w.panes[i] == p;
    lemma_pane_at(w, i);
    if other != p.uid && v.has(other) {
        lemma_published(v, other);
        let q = v.pane(other)->0;
        lemma_put_keeps(v.panes, p, q);
        let j = choose|j: int| 0 <= j < w.panes.len() && w.panes[j] == q;
        lemma_pane_at(w, j);
    } else if other != p.uid {
        assert(!w.has(other));
    }
}

/// A pane that exits is published no more, and every other stays as it was. Where
/// it was the active one, the first of the others is, if there is any; else the
/// active one stays.
pub proof fn law_exited_pane_is_gone(v: ServerView, uid: Seq<char>, other: Seq<char>)
    requires
        v.ok(),
        v.has(uid),
    ensures
        removed(v, uid).pane(uid) is None,
        other != uid ==> removed(v, uid).pane(other) == v.pane(other),
        v.active != Some(uid) ==> removed(v, uid).active == v.active,
        v.active == Some(uid) && removed(v, uid).panes.len() > 0 ==> removed(v, uid).active == Some(
            removed(v, uid).panes[0].uid,
        ),
        removed(v, uid).active is None <==> removed(v, uid).panes.len() == 0,
        removed(v, uid).active matches Some(u) ==> removed(v, uid).has(u),
        removed(v, uid) == (ServerView {
            panes: removed(v, uid).panes,
            active: removed(v, uid).active,
            ..v
        }),
{
    let w = removed(v, uid);
    lemma_removed(v, uid);
    assert(!w.has(uid));
    if other != uid && v.has(other) {
        lemma_position(v.uids(), uid);
        lemma_position(v.uids(), other);
        let k = position(v.uids(), uid);
        let m = position(v.uids(), other);
        let i = if m < k {
            m
        } else {
            m - 1
        };
        assert(w.panes[i] == v.panes[m]);
        assert(v.panes[m].uid == other);
        lemma_pane_at(w, i);
    } else if other != uid {
        assert(!w.has(other));
    }
}

/// What changes a pane changes that pane alone, in its place: what is published,
/// which pane is active and every other pane stay as they were, and a pane that
/// is not published changes nothing.
pub proof fn law_only_the_pane_that_is_meant_changes(
    v: ServerView,
    uid: Seq<char>,
    p: PaneView,
    other: Seq<char>,
)
    requires
        v.ok(),
        p.uid == uid,
    ensures
        !v.has(uid) ==> replaced(v, uid, p) == v,
        v.has(uid) ==> replaced(v, uid, p).pane(uid) == Some(p),
        other != uid ==> replaced(v, uid, p).pane(other) == v.pane(other),
        replaced(v, uid, p).uids() == v.uids(),
        replaced(v, uid, p) == (ServerView { panes: replaced(v, uid, p).panes, ..v }),
{
    if v.has(uid) {
        lemma_replaced(v, uid, p);
        let w = replaced(v, uid, p);
        lemma_position(v.uids(), uid);
        if other != uid && v.has(other) {
            lemma_position(v.uids(), other);
        }
    }
}

/// A new grid is its columns and its rows, a new title is the title, and nothing
/// else of a pane changes with them.
pub proof fn law_grid_and_title_are_what_was_reported(
    p: PaneView,
    cols: u16,
    rows: u16,
    title: Seq<char>,
)
    ensures
        regridded(p, cols, rows).cols == Some(cols),
        regridded(p, cols, rows).rows == Some(rows),
        cols >= 1 ==> regridded(p, cols, rows).width() == cols,
        rows >= 1 ==> regridded(p, cols, rows).height() == rows,
        regridded(p, cols, rows).uid == p.uid,
        regridded(p, cols, rows).title == p.title,
        regridded(p, cols, rows).cwd == p.cwd,
        regridded(p, cols, rows).screen == p.screen,
        retitled(p, title).title == Some(title),
        retitled(p, title) == (PaneView { title: Some(title), ..p }),
{
}

/// Of panes that are published at once, each is, in order of the uids; where two
/// have the same uid, the later one is.
pub proof fn law_published_panes_are_those_given(list: Seq<PaneView>, i: int)
    requires
        0 <= i < list.len(),
        forall|j: int| i < j < list.len() ==> (#[trigger] list[j]).uid != list[i].uid,
    ensures
        panes_from(list).contains(list[i]),
        sorted(uids_of(panes_from(list))),
    decreases list.len(),
{
    let d = list.drop_last();
    lemma_panes_from(list);
    if i < d.len() {
        assert forall|j: int| i < j < d.len() implies (#[trigger] d[j]).uid != d[i].uid by {
            assert(d[j] == list[j]);
        }
        law_published_panes_are_those_given(d, i);
        assert(list[list.len() - 1].uid != list[i].uid);
        lemma_put_keeps(panes_from(d), list.last(), list[i]);
    } else {
        lemma_put_keeps(panes_from(d), list.last(), list.last());
    }
}

/// A line is the same with a newline, or a carriage return and a newline, behind
/// it.
pub proof fn law_line_ends_do_not_matter(l: Seq<char>)
    requires
        l.len() == 0 || l.last() != '\n' && l.last() != '\r',
    ensures
        stripped(l) == l,
        stripped(l + seq!['\n']) == l,
        stripped(l + seq!['\r']) == l,
        stripped(l + seq!['\r', '\n']) == l,
{
    assert((l + seq!['\n']).drop_last() =~= l);
    assert((l + seq!['\r']).drop_last() =~= l);
    assert((l + seq!['\r', '\n']).drop_last() =~= l + seq!['\r']);
}

/// A block is its opening line, the lines of its body in their order, and its
/// closing line, which has the time and the number of the opening one; a body
/// that failed has its message as its one line.
pub proof fn law_block_holds_its_body(t: u64, n: u32, ls: Seq<Seq<char>>, e: Seq<char>)
    ensures
        ({
            let b = block(t, n, Ok(ls));
            &&& b.len() == ls.len() + 2
            &&& b[0] == guard_line("%begin"@, t, n, "1"@)
            &&& b.last() == guard_line("%end"@, t, n, "1"@)
            &&& forall|i: int| 0 <= i < ls.len() ==> (#[trigger] b[i + 1]) == encode_utf8(ls[i])
        }),
        ({
            let b = block(t, n, Err(e));
            &&& b.len() == 3
            &&& b[0] == guard_line("%begin"@, t, n, "1"@)
            &&& b[1] == encode_utf8(e)
            &&& b[2] == guard_line("%error"@, t, n, "1"@)
        }),
{
}

/// Output is written under the id of its pane, once, and as bytes that read back
/// as the output; a pane that is not published, and no output, write nothing.
pub proof fn law_output_is_written_under_its_pane(v: ServerView, uid: Seq<char>, data: Seq<u8>)
    requires
        v.ok(),
    ensures
        v.has(uid) && data.len() > 0 ==> {
            let ls = output_lines(v, uid, data);
            let head = encode_utf8("%output %"@ + dec(v.pane_id(uid)->0 as nat) + " "@);
            &&& ls.len() == 1
            &&& ls[0].len() >= head.len()
            &&& ls[0].take(head.len() as int) == head
            &&& crate::session::control_mode::wire::unescape(ls[0].skip(head.len() as int)) == data
        },
        !v.has(uid) || data.len() == 0 ==> output_lines(v, uid, data).len() == 0,
{
    if v.has(uid) && data.len() > 0 {
        lemma_published(v, uid);
        let ls = output_lines(v, uid, data);
        let head = encode_utf8("%output %"@ + dec(v.pane_id(uid)->0 as nat) + " "@);
        assert(ls[0].take(head.len() as int) =~= head);
        assert(ls[0].skip(head.len() as int) =~= escape(data));
        crate::session::control_mode::wire::law_unescape_undoes_escape(data);
    }
}

} // verus!
