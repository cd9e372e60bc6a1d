//! What holds of the daemon's answers to its clients.

use crate::assoc::{assoc_get, assoc_ordered, law_assoc_put_get, law_assoc_remove_get};
use crate::session::claims::{claimed, Claims};
use crate::session::daemon::{action_for, attached_after, batched, chunked, claims_after, cwds_after,
    daemon_file, described, descriptor_error, forwarded, grace, noted, owns_descriptor, runtime,
    spawn_uid, started, stopped, tells_sessions, told, Action, ActionView, LockState, Reach,
    SessionInfo, Startup, StartupEvent, StartupMove};
use crate::session::fnv::fnv1a;
use crate::session::proto::{uid_of, ClientMsg, ClientView, DaemonView, EventView, SpecView};
use crate::text::{dec, hex, opt_view, sorted, with_string};
use crate::text_laws::{law_hexadecimal_reads_back, law_number_reads_back, pow16};
use vstd::prelude::*;
use vstd::string::*;
use vstd::utf8::*;

verus! {

/// A resize is done as it was asked for: of the same session, with its columns
/// as the columns and its rows as the rows.
pub proof fn law_resize_is_done_as_asked(
    uid: Seq<char>,
    cols: u16,
    rows: u16,
    ver: u32,
    pid: u32,
    conn: u64,
    build: Seq<char>,
    minted: Seq<char>,
    claims: Claims,
)
    ensures
        action_for(
            ClientView::Resize { uid, cols, rows },
            ver,
            pid,
            conn,
            build,
            minted,
            claims,
        ) matches ActionView::Resize { uid: u, cols: c, rows: r } && u == uid && c == cols && r
            == rows,
{
}

/// What a client asks of a session is done to that session and no other: what it
/// writes is written whole, and what it attaches to, renders or kills is the
/// session it names.
pub proof fn law_requests_reach_their_session(
    uid: Seq<char>,
    data: Seq<char>,
    ver: u32,
    pid: u32,
    conn: u64,
    build: Seq<char>,
    minted: Seq<char>,
    claims: Claims,
)
    ensures
        ({
            let done = |m: ClientView| action_for(m, ver, pid, conn, build, minted, claims);
            &&& done(ClientView::Write { uid, data }) matches ActionView::Write { uid: u, data: d }
                && u == uid && d == data
            &&& done(ClientView::Attach { uid }) matches ActionView::SendReplay { uid: u } && u
                == uid
            &&& done(ClientView::RenderScreen { uid }) matches ActionView::SendScreen { uid: u }
                && u == uid
            &&& done(ClientView::Kill { uid }) matches ActionView::Kill { uid: u } && u == uid
            &&& done(ClientView::Release { uid }) is Nothing
        }),
{
}

/// What a client asks of the daemon itself: to list its sessions, to kill them
/// all, to hand them over, to shut down, to show the claims, to say that it is
/// there and who it is.
pub proof fn law_requests_reach_the_daemon(
    theirs: u32,
    ver: u32,
    pid: u32,
    conn: u64,
    build: Seq<char>,
    minted: Seq<char>,
    claims: Claims,
)
    ensures
        ({
            let done = |m: ClientView| action_for(m, ver, pid, conn, build, minted, claims);
            &&& done(ClientView::ListSessions) is ListSessions
            &&& done(ClientView::KillAll) is KillAll
            &&& done(ClientView::Takeover) is HandOver
            &&& done(ClientView::Shutdown) is Shutdown
            &&& done(ClientView::Ping) == ActionView::Reply(DaemonView::Pong)
            &&& done(ClientView::ListClaims) == ActionView::Reply(DaemonView::Claims(claims))
            &&& done(ClientView::Hello { proto_ver: theirs }) matches ActionView::Reply(
                DaemonView::Hello { proto_ver, daemon_pid, conn_id, build_id },
            ) && proto_ver == ver && daemon_pid == pid && conn_id == conn && build_id == build
        }),
{
}

/// A session is spawned as it was asked for, under the uid that was pinned, or
/// else under the one that was minted.
pub proof fn law_session_is_spawned_as_asked(
    spec: SpecView,
    ver: u32,
    pid: u32,
    conn: u64,
    build: Seq<char>,
    minted: Seq<char>,
    claims: Claims,
)
    ensures
        action_for(
            ClientView::Create(spec),
            ver,
            pid,
            conn,
            build,
            minted,
            claims,
        ) matches ActionView::Spawn(o) && o.launch == spec.launch && (spec.uid matches Some(u) ==> o.uid
            == u) && (spec.uid is None ==> o.uid == minted) && (o.integration matches Some(i) ==> i
            == spec.integration) && (o.integration is None <==> spec.integration.args.len() == 0
            && spec.integration.env.len() == 0),
{
}

/// The answer to a claim names the session that was claimed; it is granted where
/// nobody held it or the client itself did, and else says who does.
pub proof fn law_claim_is_answered(
    uid: Seq<char>,
    ver: u32,
    pid: u32,
    conn: u64,
    build: Seq<char>,
    minted: Seq<char>,
    claims: Claims,
)
    ensures
        action_for(
            ClientView::Claim { uid },
            ver,
            pid,
            conn,
            build,
            minted,
            claims,
        ) matches ActionView::Reply(DaemonView::ClaimResult { uid: u, granted, owner }) && {
            &&& u == uid
            &&& granted <==> assoc_get(claims, uid) is None || assoc_get(claims, uid) == Some(conn)
            &&& granted ==> owner is None
            &&& !granted ==> owner == assoc_get(claims, uid)
        },
{
}

/// A client gets the events of the sessions that it attached to or created, and
/// no request but these changes which.
pub proof fn law_attaching_adds_one_session(
    attached: Seq<Seq<char>>,
    uid: Seq<char>,
    spec: SpecView,
    minted: Seq<char>,
    m: ClientView,
    other: Seq<char>,
)
    requires
        sorted(attached),
    ensures
        attached_after(attached, ClientView::Attach { uid }, minted).contains(other)
            <==> attached.contains(other) || other == uid,
        attached_after(attached, ClientView::Create(spec), minted).contains(other)
            <==> attached.contains(other) || other == (match spec.uid {
            Some(u) => u,
            None => minted,
        }),
        !(m is Attach) && !(m is Create) ==> attached_after(attached, m, minted) == attached,
{
    lemma_with_string_members(attached, uid, other);
    lemma_with_string_members(attached, spawn_uid(spec, minted), other);
}

proof fn lemma_with_string_members(s: Seq<Seq<char>>, x: Seq<char>, u: Seq<char>)
    requires
        sorted(s),
    ensures
        with_string(s, x).contains(u) <==> s.contains(u) || u == x,
{
    let t = with_string(s, x);
    if !s.contains(x) {
        let k = crate::text::rank(s, x);
        crate::text::lemma_rank(s, x);
        assert(t == s.insert(k, x));
        assert(t[k] == x);
        if s.contains(u) {
            let i = choose|i: int| 0 <= i < s.len() && s[i] == u;
            if i < k {
                assert(t[i] == u);
            } else {
                assert(t[i + 1] == u);
            }
        }
        if t.contains(u) {
            let i = choose|i: int| 0 <= i < t.len() && t[i] == u;
            if i < k {
                assert(s[i] == u);
            } else if i > k {
                assert(s[i - 1] == u);
            }
        }
    }
}

/// The directory of a session that is killed is forgotten, and no other; all are
/// forgotten where all are killed; and no other request changes any.
pub proof fn law_only_dead_sessions_lose_their_directory(
    cwds: Seq<(Seq<char>, Seq<char>)>,
    uid: Seq<char>,
    other: Seq<char>,
    m: ClientView,
)
    requires
        assoc_ordered(cwds),
    ensures
        assoc_get(cwds_after(cwds, ClientView::Kill { uid }), uid) is None,
        other != uid ==> assoc_get(cwds_after(cwds, ClientView::Kill { uid }), other) == assoc_get(
            cwds,
            other,
        ),
        cwds_after(cwds, ClientView::KillAll).len() == 0,
        !(m is Kill) && !(m is KillAll) ==> cwds_after(cwds, m) == cwds,
{
    law_assoc_remove_get(cwds, uid, other);
}

/// A claim changes only by being made, given up or lost with its session.
pub proof fn law_only_these_change_claims(claims: Claims, m: ClientView, conn: u64)
    ensures
        claims_after(claims, m, conn) != claims ==> m is Claim || m is Release || m is Kill || m
            is KillAll,
        claims_after(claims, ClientView::KillAll, conn).len() == 0,
{
}

/// Every client is told of the claims where they changed, and of the claims and
/// the sessions where a client has come; of the sessions also where one was
/// made or killed; and else of nothing.
pub proof fn law_clients_are_told_of_changes(before: Claims, after: Claims, m: ClientView)
    ensures
        before != after ==> told(before, after, m is Hello) == Some(after),
        m is Hello ==> told(before, after, m is Hello) == Some(after),
        before == after && !(m is Hello) ==> told(before, after, m is Hello) is None,
        tells_sessions(m) <==> (m is Hello || m is Create || m is Kill || m is KillAll),
{
}

/// Events are forwarded in their order, each as it is, and only those of
/// sessions that the client follows.
pub proof fn law_events_are_forwarded_in_order(
    attached: Seq<Seq<char>>,
    a: Seq<EventView>,
    b: Seq<EventView>,
    ev: EventView,
)
    ensures
        forwarded(attached, a + b) == forwarded(attached, a) + forwarded(attached, b),
        attached.contains(uid_of(ev)) ==> forwarded(attached, seq![ev]) == seq![
            DaemonView::Event(ev),
        ],
        !attached.contains(uid_of(ev)) ==> forwarded(attached, seq![ev]).len() == 0,
    decreases b.len(),
{
    assert(seq![ev].drop_last().len() == 0);
    assert(forwarded(attached, seq![ev].drop_last()) =~= Seq::<DaemonView>::empty());
    assert(seq![ev].last() == ev);
    if attached.contains(uid_of(ev)) {
        assert(forwarded(attached, seq![ev]) =~= seq![DaemonView::Event(ev)]);
    }
    if b.len() == 0 {
        assert(a + b =~= a);
        assert(forwarded(attached, a) + forwarded(attached, b) =~= forwarded(attached, a));
    } else {
        assert((a + b).drop_last() =~= a + b.drop_last());
        assert((a + b).last() == b.last());
        law_events_are_forwarded_in_order(attached, a, b.drop_last(), ev);
        assert(forwarded(attached, a + b) =~= forwarded(attached, a) + forwarded(attached, b));
    }
}

/// An event is about the session that it names.
pub proof fn law_event_names_its_session(
    uid: Seq<char>,
    text: Seq<char>,
    cursor: u64,
    code: i32,
    ended: Option<i32>,
)
    ensures
        uid_of(EventView::Data { uid, data: text, cursor }) == uid,
        uid_of(EventView::Cwd { uid, cwd: text }) == uid,
        uid_of(EventView::Exit { uid, code }) == uid,
        uid_of(EventView::CommandStart { uid }) == uid,
        uid_of(EventView::CommandEnd { uid, code: ended }) == uid,
        uid_of(EventView::PromptReady { uid }) == uid,
        uid_of(EventView::AgentState { uid, state: text }) == uid,
{
}

/// The last directory that a session reported is the one that is known, and the
/// directories of others stay.
pub proof fn law_last_directory_is_known(
    cwds: Seq<(Seq<char>, Seq<char>)>,
    uid: Seq<char>,
    cwd: Seq<char>,
    other: Seq<char>,
    ev: EventView,
)
    ensures
        assoc_get(noted(cwds, EventView::Cwd { uid, cwd }), uid) == Some(cwd),
        other != uid ==> assoc_get(noted(cwds, EventView::Cwd { uid, cwd }), other) == assoc_get(
            cwds,
            other,
        ),
        !(ev is Cwd) ==> noted(cwds, ev) == cwds,
{
    law_assoc_put_get(cwds, uid, cwd, other);
}

/// What is said of a session is its own: its uid, its last directory, its output
/// and its size, the columns before the rows.
pub proof fn law_session_is_described_by_its_own(
    info: SessionInfo,
    cwds: Seq<(Seq<char>, Seq<char>)>,
)
    ensures
        ({
            let d = described(info, cwds);
            &&& d.uid == info.uid@
            &&& d.cwd == assoc_get(cwds, info.uid@)
            &&& d.alive
            &&& info.output_bytes matches Some(n) ==> d.output_bytes == n
            &&& info.output_bytes is None ==> d.output_bytes == 0
            &&& d.last_output_at == info.last_output_at
            &&& info.dims matches Some(s) ==> d.cols == Some(s.0) && d.rows == Some(s.1)
            &&& info.dims is None ==> d.cols is None && d.rows is None
            &&& d.foreground == opt_view(info.foreground)
            &&& d.fg_cwd == opt_view(info.fg_cwd)
        }),
{
}

/// What the views of messages and actions show is what these hold.
pub proof fn law_views_show_what_is_held(
    uid: String,
    data: String,
    cols: u16,
    rows: u16,
)
    ensures
        (ClientMsg::Resize { uid, cols, rows })@ == (ClientView::Resize { uid: uid@, cols, rows }),
        (ClientMsg::Write { uid, data })@ == (ClientView::Write { uid: uid@, data: data@ }),
        (ClientMsg::Attach { uid })@ == (ClientView::Attach { uid: uid@ }),
        (ClientMsg::Kill { uid })@ == (ClientView::Kill { uid: uid@ }),
        (ClientMsg::RenderScreen { uid })@ == (ClientView::RenderScreen { uid: uid@ }),
        (ClientMsg::Claim { uid })@ == (ClientView::Claim { uid: uid@ }),
        (ClientMsg::Release { uid })@ == (ClientView::Release { uid: uid@ }),
        (Action::Resize { uid, cols, rows })@ == (ActionView::Resize { uid: uid@, cols, rows }),
        (Action::Write { uid, data })@ == (ActionView::Write { uid: uid@, data: data@ }),
        (Action::SendReplay { uid })@ == (ActionView::SendReplay { uid: uid@ }),
        (Action::SendScreen { uid })@ == (ActionView::SendScreen { uid: uid@ }),
        (Action::Kill { uid })@ == (ActionView::Kill { uid: uid@ }),
{
}

/// Every batch of a handover but the last is full, and the last is not empty
/// unless there is nothing to hand over.
pub proof fn law_batches_are_full(count: int, max: int)
    requires
        count >= 0,
        max > 0,
    ensures
        forall|i: int|
            0 <= i < batched(count, max).len() - 1 ==> (#[trigger] batched(count, max)[i]).1 == max,
        count > 0 ==> batched(count, max).last().1 > 0,
        count == 0 ==> batched(count, max) == seq![(0int, 0int)],
{
    if count > 0 {
        lemma_chunks_full(0, count, max);
    }
}

proof fn lemma_chunks_full(from: int, count: int, max: int)
    requires
        0 <= from < count,
        max > 0,
    ensures
        chunked(from, count, max).len() > 0,
        forall|i: int|
            0 <= i < chunked(from, count, max).len() - 1 ==> (#[trigger] chunked(
                from,
                count,
                max,
            )[i]).1 == max,
        chunked(from, count, max).last().1 > 0,
    decreases count - from,
{
    let c = chunked(from, count, max);
    let len = if count - from < max {
        count - from
    } else {
        max
    };
    let rest = chunked(from + len, count, max);
    assert(c =~= seq![(from, len)] + rest);
    if from + len < count {
        lemma_chunks_full(from + len, count, max);
        assert forall|i: int| 0 <= i < c.len() - 1 implies (#[trigger] c[i]).1 == max by {
            if i > 0 {
                assert(c[i] == rest[i - 1]);
            }
        }
        assert(c.last() == rest.last());
    } else {
        assert(rest.len() == 0);
    }
}

/// The override of the grace is what it writes, and anything that is no number
/// leaves the default.
pub proof fn law_grace_is_what_was_said(n: u64, raw: Option<Seq<char>>)
    ensures
        grace(Some(dec(n as nat))) == n,
        grace(None) == 30_000,
        raw matches Some(r) ==> (exists|i: int|
            0 <= i < r.len() && !('0' <= (#[trigger] r[i]) <= '9') && r[i] != '+') ==> grace(raw)
            == 30_000,
{
    law_number_reads_back(n as nat, u64::MAX as nat);
    if let Some(r) = raw {
        if exists|i: int| 0 <= i < r.len() && !('0' <= (#[trigger] r[i]) <= '9') && r[i] != '+' {
            let i = choose|i: int|
                0 <= i < r.len() && !('0' <= (#[trigger] r[i]) <= '9') && r[i] != '+';
            let d = crate::text::unsigned_digits(r);
            if crate::text::all_digits(d, 10) {
                let j = if d.len() == r.len() {
                    i
                } else {
                    i - 1
                };
                assert(d[j] == r[i]);
                assert(crate::text::digit_value(d[j], 10) is Some);
            }
        }
    }
}

/// The runtime directory is the first of the two that is an absolute path, and
/// never a relative one.
pub proof fn law_runtime_directory_is_absolute(xdg: Option<Seq<char>>, tmp: Option<Seq<char>>)
    ensures
        runtime(xdg, tmp).len() > 0,
        runtime(xdg, tmp)[0] == '/',
        xdg matches Some(p) ==> p.len() > 0 && p[0] == '/' ==> runtime(xdg, tmp) == p,
        (xdg is None || xdg->0.len() == 0 || xdg->0[0] != '/') ==> (tmp matches Some(p) ==> p.len()
            > 0 && p[0] == '/' ==> runtime(xdg, tmp) == p),
{
    reveal_strlit("/tmp");
    assert("/tmp"@[0] == '/');
}

/// A daemon serves only what it bound, and binds only under the lock: its own,
/// or one that the other daemon gave up after it handed its sessions over.
pub proof fn law_serving_needs_the_lock_and_the_socket(s: Startup, e: StartupEvent)
    ensures
        ({
            let (next, m) = started(s, e);
            &&& m is Serve ==> s is Binding && e == StartupEvent::Bound(true) && m
                == (StartupMove::Serve { sessions: s->Binding_sessions })
            &&& m is Bind ==> {
                ||| s is Locking && e == StartupEvent::Lock(LockState::Acquired) && next
                    == (Startup::Binding { sessions: 0 })
                ||| s is Waiting && e == StartupEvent::Released(true) && next
                    == (Startup::Binding { sessions: s->Waiting_sessions })
            }
            &&& m is TakeOver ==> s is Locking && e == StartupEvent::Lock(LockState::Held)
            &&& m is Fail || m is Serve <==> next is Over
        }),
{
}

/// That none runs is no failure to stop a daemon, and only one that listens is
/// asked to shut down.
pub proof fn law_only_a_listening_daemon_is_stopped(reach: Reach)
    ensures
        stopped(reach) is Shutdown <==> reach == Reach::Connected,
        stopped(reach) is NoneRan <==> reach == Reach::Refused || reach == Reach::Missing,
        stopped(reach) is Fail <==> reach == Reach::Failed,
{
}

/// The files of a daemon are named alike but for what follows the hash of the
/// salt: the name begins with the daemon's own and ends as it is told to, and
/// the salt shows in it only as a hash of 16 digits.
pub proof fn law_daemon_files_are_named_by_the_hash(
    a: Seq<char>,
    b: Seq<char>,
    x: Seq<char>,
    y: Seq<char>,
)
    ensures
        ({
            let n = "hyperpanesd."@.len() as int;
            let s = daemon_file(a, x);
            &&& s.len() == n + 16 + x.len()
            &&& s.take(n) == "hyperpanesd."@
            &&& s.skip(n + 16) == x
            &&& s.take(n + 16) == daemon_file(a, y).take(n + 16)
            &&& daemon_file(a, x) == daemon_file(b, x) ==> fnv1a(encode_utf8(a)) == fnv1a(
                encode_utf8(b),
            )
        }),
{
    reveal_strlit("hyperpanesd.");
    reveal_with_fuel(pow16, 17);
    assert(pow16(16) == 0x1_0000_0000_0000_0000);
    let n = "hyperpanesd."@.len() as int;
    let (p, q) = (fnv1a(encode_utf8(a)), fnv1a(encode_utf8(b)));
    law_hexadecimal_reads_back(p as nat, 16);
    law_hexadecimal_reads_back(q as nat, 16);
    let s = daemon_file(a, x);
    let t = daemon_file(b, x);
    assert(s.take(n) =~= "hyperpanesd."@);
    assert(s.skip(n + 16) =~= x);
    assert(s.take(n + 16) =~= daemon_file(a, y).take(n + 16));
    assert(s.subrange(n, n + 16) =~= hex(p as nat, 16));
    assert(t.subrange(n, n + 16) =~= hex(q as nat, 16));
}

/// A successor that inherits nothing does not hold up its start: it waits for
/// the lock for a moment and binds at once or not at all.
pub proof fn law_empty_successor_does_not_wait()
    ensures
        ({
            let (waiting, m1) = started(Startup::TakingOver, StartupEvent::TakenOver(Some(0)));
            let (binding, m2) = started(waiting, StartupEvent::Released(true));
            let (fresh, m3) = started(Startup::Locking, StartupEvent::Lock(LockState::Acquired));
            &&& m1 == StartupMove::AwaitLock { budget_ms: 5000 }
            &&& m2 == StartupMove::Bind { budget_ms: 0 }
            &&& m3 == StartupMove::Bind { budget_ms: 0 }
            &&& fresh == binding
        }),
{
}

/// What is said of a session without a descriptor names the session, the
/// descriptor and how many there are, in this order.
pub proof fn law_descriptor_error_tells_which(uid: Seq<char>, index: usize, n: usize)
    ensures
        descriptor_error(uid, index, n) == "session "@ + uid + (" claims descriptor "@ + dec(
            index as nat,
        )) + (" of "@ + dec(n as nat)),
{
    assert(descriptor_error(uid, index, n) =~= "session "@ + uid + (" claims descriptor "@ + dec(
        index as nat,
    )) + (" of "@ + dec(n as nat)));
}

/// A session owns the descriptor that it names exactly where there is one and no
/// session before it has named it.
pub proof fn law_descriptor_has_one_owner(
    sessions: Seq<(Seq<char>, usize)>,
    n: usize,
    j: int,
    k: int,
)
    requires
        0 <= j < k < sessions.len(),
    ensures
        sessions[k].1 >= n ==> !owns_descriptor(sessions, n, k),
        sessions[j].1 == sessions[k].1 ==> !owns_descriptor(sessions, n, k),
        sessions[0].1 < n ==> owns_descriptor(sessions, n, 0),
        owns_descriptor(sessions, n, k) ==> sessions[k].1 < n && sessions[k].1 != sessions[j].1,
{
}

} // verus!
