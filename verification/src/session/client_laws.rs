//! What holds of what a client knows of the daemon's sessions.

use crate::assoc::{assoc_get, assoc_ordered, law_assoc_put_get, law_assoc_remove_get};
use crate::session::adopt::{after_write, group_of, WriteStep};
use crate::session::attach::Fault;
use crate::session::build_id::{build_name, identity_bytes, le_bytes};
use crate::session::claims::Claims;
use crate::session::daemon_client::{after_message, claim_table, counted, elsewhere, fallback,
    identity, live_count, negotiated, probed, CheckView, ManagerView, Move, Negotiation, Outcome,
    Phase, StaleFallback, VersionPolicy, ATTEMPTS, MIN_DRIVABLE_DAEMON_VER};
use crate::session::proto::{DaemonView, EventView, MetaView};
use crate::session::replay::{law_tail_is_an_end, retained, REPLAY_MAX};
use crate::session::shadow::{after_event, reconciled, refreshed, seeded_from, shadow_or_blank,
    spliced, with_output, ShadowView, Shadows};
use crate::text::{hex, utf16_len};
use crate::text_laws::{law_hexadecimal_reads_back, pow16};
use vstd::prelude::*;
use vstd::string::*;
use vstd::utf8::*;

verus! {

/// Output is added behind what is mirrored, as far as that is retained; the
/// cursor moves on by its length, the time is that of the output, and nothing
/// else changes.
pub proof fn law_output_goes_behind_the_mirror(sh: ShadowView, data: Seq<char>, now: u64)
    requires
        sh.output_bytes + utf16_len(data) <= u64::MAX,
    ensures
        ({
            let r = with_output(sh, data, now);
            &&& utf16_len(sh.replay + data) <= REPLAY_MAX ==> r.replay == sh.replay + data
            &&& r.replay.len() <= sh.replay.len() + data.len()
            &&& r.replay == (sh.replay + data).skip(
                sh.replay.len() + data.len() - r.replay.len(),
            )
            &&& r.output_bytes == sh.output_bytes + utf16_len(data)
            &&& r.last_output_at == Some(now)
            &&& r.cwd == sh.cwd && r.foreground == sh.foreground && r.fg_cwd == sh.fg_cwd && r.dims
                == sh.dims && r.pending == sh.pending
        }),
{
    law_tail_is_an_end(sh.replay + data, REPLAY_MAX as nat);
}

/// A snapshot says what a session's columns and rows are, what runs in it and
/// where; a directory or a time that it does not know is kept; the cursor is the
/// larger of the two; what is mirrored stays; and the session is confirmed.
pub proof fn law_snapshot_says_what_a_session_is(sh: ShadowView, m: MetaView)
    ensures
        ({
            let r = refreshed(sh, m);
            &&& m.cols is Some && m.rows is Some ==> r.dims == Some((m.cols->0, m.rows->0))
            &&& m.cols is None || m.rows is None ==> r.dims is None
            &&& r.foreground == m.foreground
            &&& r.fg_cwd == m.fg_cwd
            &&& m.cwd is Some ==> r.cwd == m.cwd
            &&& m.cwd is None ==> r.cwd == sh.cwd
            &&& m.last_output_at is Some ==> r.last_output_at == m.last_output_at
            &&& m.last_output_at is None ==> r.last_output_at == sh.last_output_at
            &&& r.output_bytes >= sh.output_bytes && r.output_bytes >= m.output_bytes
            &&& r.output_bytes == sh.output_bytes || r.output_bytes == m.output_bytes
            &&& r.replay == sh.replay
            &&& !r.pending
        }),
{
}

/// The first list says what a session is as a snapshot does, but its counters
/// are taken as they are.
pub proof fn law_first_list_says_what_a_session_is(sh: ShadowView, m: MetaView)
    ensures
        ({
            let r = seeded_from(sh, m);
            &&& m.cols is Some && m.rows is Some ==> r.dims == Some((m.cols->0, m.rows->0))
            &&& m.cols is None || m.rows is None ==> r.dims is None
            &&& r.foreground == m.foreground
            &&& r.fg_cwd == m.fg_cwd
            &&& m.cwd is Some ==> r.cwd == m.cwd
            &&& m.cwd is None ==> r.cwd == sh.cwd
            &&& r.last_output_at == m.last_output_at
            &&& r.output_bytes == m.output_bytes
            &&& r.replay == sh.replay
            &&& r.pending == sh.pending
        }),
{
}

/// An event is taken to its session: output to the mirror, a directory as the
/// directory; an end forgets it; and any other event changes nothing.
pub proof fn law_event_is_taken_to_its_session(
    s: Shadows,
    uid: Seq<char>,
    data: Seq<char>,
    cursor: u64,
    code: i32,
    now: u64,
    ev: EventView,
)
    requires
        assoc_ordered(s),
    ensures
        assoc_get(after_event(s, EventView::Data { uid, data, cursor }, now), uid) == Some(
            with_output(shadow_or_blank(s, uid), data, now),
        ),
        assoc_get(after_event(s, EventView::Cwd { uid, cwd: data }, now), uid) == Some(
            ShadowView { cwd: Some(data), ..shadow_or_blank(s, uid) },
        ),
        assoc_get(after_event(s, EventView::Exit { uid, code }, now), uid) is None,
        !(ev is Data) && !(ev is Cwd) && !(ev is Exit) ==> after_event(s, ev, now) == s,
{
    law_assoc_put_get(s, uid, with_output(shadow_or_blank(s, uid), data, now), uid);
    law_assoc_put_get(s, uid, ShadowView { cwd: Some(data), ..shadow_or_blank(s, uid) }, uid);
    law_assoc_remove_get(s, uid, uid);
}

/// A message changes what it is about and nothing else: an event or a replay its
/// session, a claim table the claims, a snapshot the sessions. Our own identity
/// and the connection stay.
pub proof fn law_message_changes_what_it_is_about(
    m: ManagerView,
    msg: DaemonView,
    now: u64,
    uid: Seq<char>,
    data: Seq<char>,
    cursor: u64,
    other: Seq<char>,
)
    ensures
        ({
            let r = after_message(m, msg, now);
            &&& r.conn_id == m.conn_id && r.daemon_ver == m.daemon_ver && r.connected
                == m.connected
            &&& !(msg is Claims) ==> r.claims == m.claims
            &&& !(msg is Event) && !(msg is Replay) && !(msg is SessionsChanged) ==> r.shadows
                == m.shadows
            &&& msg matches DaemonView::Event(ev) ==> r.shadows == after_event(m.shadows, ev, now)
            &&& msg matches DaemonView::SessionsChanged(metas) ==> r.shadows == reconciled(
                m.shadows,
                metas,
            )
        }),
        ({
            let r = after_message(m, DaemonView::Replay { uid, data, cursor }, now);
            &&& data.len() > 0 ==> assoc_get(r.shadows, uid) == Some(
                spliced(shadow_or_blank(m.shadows, uid), cursor, data),
            )
            &&& other != uid ==> assoc_get(r.shadows, other) == assoc_get(m.shadows, other)
            &&& data.len() == 0 ==> r == m
        }),
{
    law_assoc_put_get(
        m.shadows,
        uid,
        spliced(shadow_or_blank(m.shadows, uid), cursor, data),
        other,
    );
    law_assoc_put_get(
        m.shadows,
        uid,
        spliced(shadow_or_blank(m.shadows, uid), cursor, data),
        uid,
    );
}

/// A claim table holds the claims of its list, each with its owner; of two of
/// one session the last counts; and no other.
pub proof fn law_claim_table_holds_the_list(list: Claims, i: int, uid: Seq<char>)
    requires
        0 <= i < list.len(),
        forall|j: int| i < j < list.len() ==> (#[trigger] list[j]).0 != list[i].0,
    ensures
        assoc_get(claim_table(list), list[i].0) == Some(list[i].1),
        (forall|j: int| 0 <= j < list.len() ==> (#[trigger] list[j]).0 != uid) ==> assoc_get(
            claim_table(list),
            uid,
        ) is None,
    decreases list.len(),
{
    let d = list.drop_last();
    let before = claim_table(d);
    law_assoc_put_get(before, list.last().0, list.last().1, list[i].0);
    if i < d.len() {
        assert forall|j: int| i < j < d.len() implies (#[trigger] d[j]).0 != d[i].0 by {
            assert(d[j] == list[j]);
        }
        law_claim_table_holds_the_list(d, i, uid);
        assert(list[list.len() - 1].0 != list[i].0);
    }
    if forall|j: int| 0 <= j < list.len() ==> (#[trigger] list[j]).0 != uid {
        lemma_table_lacks(list, uid);
    }
}

proof fn lemma_table_lacks(list: Claims, uid: Seq<char>)
    requires
        forall|j: int| 0 <= j < list.len() ==> (#[trigger] list[j]).0 != uid,
    ensures
        assoc_get(claim_table(list), uid) is None,
    decreases list.len(),
{
    if list.len() > 0 {
        let d = list.drop_last();
        assert forall|j: int| 0 <= j < d.len() implies (#[trigger] d[j]).0 != uid by {
            assert(d[j] == list[j]);
        }
        lemma_table_lacks(d, uid);
        assert(list[list.len() - 1].0 != uid);
        law_assoc_put_get(claim_table(d), list.last().0, list.last().1, uid);
    }
}

/// A daemon is ours where it speaks our version and is not known to be another
/// build; its version is told before its build.
pub proof fn law_daemon_is_known_by_version_then_build(
    own_ver: u32,
    own_build: Seq<char>,
    ver: u32,
    build: Seq<char>,
)
    ensures
        ver != own_ver ==> identity(own_ver, own_build, ver, build) == (CheckView::Mismatch {
            daemon_ver: ver,
        }),
        ver == own_ver && build.len() > 0 && build != own_build ==> identity(
            own_ver,
            own_build,
            ver,
            build,
        ) == (CheckView::BuildMismatch { daemon_build: build }),
        ver == own_ver && (build.len() == 0 || build == own_build) ==> identity(
            own_ver,
            own_build,
            ver,
            build,
        ) == CheckView::Match,
{
}

/// The first answer among the frames that are looked at decides, whatever comes
/// before it; where there is none among them, the daemon is taken as it is.
pub proof fn law_first_answer_decides(
    own_ver: u32,
    own_build: Seq<char>,
    before: Seq<DaemonView>,
    after: Seq<DaemonView>,
    ver: u32,
    pid: u32,
    conn: u64,
    build: Seq<char>,
    n: nat,
)
    requires
        forall|i: int| 0 <= i < before.len() ==> !((#[trigger] before[i]) is Hello),
    ensures
        ({
            let h = DaemonView::Hello {
                proto_ver: ver,
                daemon_pid: pid,
                conn_id: conn,
                build_id: build,
            };
            let r = probed(own_ver, own_build, before + seq![h] + after, n);
            &&& before.len() < n ==> r == identity(own_ver, own_build, ver, build)
            &&& before.len() >= n ==> r == CheckView::Match
        }),
        probed(own_ver, own_build, before, n) == CheckView::Match,
    decreases before.len(),
{
    let h = DaemonView::Hello { proto_ver: ver, daemon_pid: pid, conn_id: conn, build_id: build };
    let all = before + seq![h] + after;
    if before.len() == 0 {
        assert(all[0] == h);
    } else if n > 0 {
        let t = before.skip(1);
        assert(!(before[0] is Hello));
        assert(all[0] == before[0]);
        assert(all.skip(1) =~= t + seq![h] + after);
        assert forall|i: int| 0 <= i < t.len() implies !((#[trigger] t[i]) is Hello) by {
            assert(t[i] == before[i + 1]);
        }
        law_first_answer_decides(
            own_ver,
            own_build,
            t,
            after,
            ver,
            pid,
            conn,
            build,
            (n - 1) as nat,
        );
    }
}

/// Live sessions are counted, elsewhere, all of them and no other, by the first list.
pub proof fn law_live_sessions_are_counted(a: Seq<MetaView>, b: Seq<MetaView>, m: MetaView)
    ensures
        live_count(a + b) == live_count(a) + live_count(b),
        live_count(seq![m]) == (if m.alive {
            1nat
        } else {
            0
        }),
        counted(seq![DaemonView::Sessions(a)]) == Some(live_count(a)),
        counted(Seq::empty()) is None,
    decreases b.len(),
{
    assert(seq![m].drop_last().len() == 0);
    assert(seq![m].last() == m);
    assert(live_count(seq![m].drop_last()) == 0);
    if b.len() == 0 {
        assert(a + b =~= a);
    } else {
        assert((a + b).drop_last() =~= a + b.drop_last());
        assert((a + b).last() == b.last());
        law_live_sessions_are_counted(a, b.drop_last(), m);
    }
}

/// A stale daemon is torn down exactly where it is known to hold no live
/// session; else it is driven, where its version can be, and else refused.
pub proof fn law_stale_daemon_with_sessions_is_kept(live: Option<usize>, ver: u32)
    ensures
        fallback(live, ver) == StaleFallback::TearDown <==> live == Some(0usize),
        live != Some(0usize) ==> (fallback(live, ver) == StaleFallback::Drive <==> ver
            >= crate::session::daemon_client::MIN_DRIVABLE_DAEMON_VER),
{
}

/// A write goes on where it stopped, is done once all was sent, and is tried
/// again from the same place where it was interrupted; any other failure ends
/// it.
pub proof fn law_write_goes_on_where_it_stopped(total: usize, sent: usize, k: usize, f: Fault)
    requires
        sent + k <= usize::MAX,
    ensures
        sent + k >= total ==> after_write(total, sent, Ok(k)) == WriteStep::Done,
        sent + k < total ==> after_write(total, sent, Ok(k)) == WriteStep::Continue(
            (sent + k) as usize,
        ),
        f == Fault::Interrupted ==> after_write(total, sent, Err(f)) == WriteStep::Continue(sent),
        f != Fault::Interrupted ==> after_write(total, sent, Err(f)) == WriteStep::Failed(f),
{
}

/// The group in the foreground now is named, and the earlier one only where none
/// is known now.
pub proof fn law_foreground_group_is_the_present_one(now: Option<i32>, earlier: Option<i32>)
    ensures
        now is Some ==> group_of(now, earlier) == now,
        now is None ==> group_of(now, earlier) == earlier,
{
}

/// A number is written as as many bytes as are asked for, the lowest first.
pub proof fn law_low_bytes_come_first(v: nat, n: nat)
    ensures
        le_bytes(v, n).len() == n,
        n > 0 ==> le_bytes(v, n)[0] == v % 256,
        n > 0 ==> le_bytes(v, n).skip(1) == le_bytes(v / 256, (n - 1) as nat),
    decreases n,
{
    if n > 0 {
        law_low_bytes_come_first(v / 256, (n - 1) as nat);
        assert(le_bytes(v, n).skip(1) =~= le_bytes(v / 256, (n - 1) as nat));
    }
}

/// An executable is known by its path, then its length, then its time: where one
/// of them differs in its bytes, so do the bytes.
pub proof fn law_identity_is_path_length_and_time(path: Seq<char>, len: u64, secs: u64, nanos: u32)
    ensures
        ({
            let p = encode_utf8(path);
            let b = identity_bytes(path, len, Some((secs, nanos)));
            let n = p.len() as int;
            &&& b.len() == n + 20
            &&& b.take(n) == p
            &&& b.subrange(n, n + 8) == le_bytes(len as nat, 8)
            &&& b.subrange(n + 8, n + 16) == le_bytes(secs as nat, 8)
            &&& b.subrange(n + 16, n + 20) == le_bytes(nanos as nat, 4)
            &&& identity_bytes(path, len, None) == b.take(n + 8)
        }),
{
    let p = encode_utf8(path);
    let b = identity_bytes(path, len, Some((secs, nanos)));
    let n = p.len() as int;
    law_low_bytes_come_first(len as nat, 8);
    law_low_bytes_come_first(secs as nat, 8);
    law_low_bytes_come_first(nanos as nat, 4);
    assert(b.take(n) =~= p);
    assert(b.subrange(n, n + 8) =~= le_bytes(len as nat, 8));
    assert(b.subrange(n + 8, n + 16) =~= le_bytes(secs as nat, 8));
    assert(b.subrange(n + 16, n + 20) =~= le_bytes(nanos as nat, 4));
    assert(identity_bytes(path, len, None) =~= b.take(n + 8));
}

/// A client that goes by versions: a daemon that matches is used; one of another
/// version or build is asked to hand over; after a hand-over the next daemon is
/// greeted, and where a version was not handed over its sessions are counted.
pub proof fn law_strict_client_asks_for_a_handover(n: Negotiation, v: u32)
    requires
        n.policy != VersionPolicy::Tolerant,
    ensures
        n.phase == Phase::Probing ==> negotiated(n, Outcome::Matched).1 == Move::UseIt,
        n.phase == Phase::Probing ==> negotiated(n, Outcome::OtherVersion(v)).1 == Move::HandOver,
        n.phase == Phase::Probing && !n.forced_build_upgrade ==> negotiated(
            n,
            Outcome::OtherBuild,
        ).1 == Move::HandOver,
        n.phase == Phase::HandingBuild ==> negotiated(n, Outcome::HandedOver(false)).1
            == Move::ReconnectAndUse,
        n.phase == Phase::HandingVersion(v) ==> negotiated(n, Outcome::HandedOver(false)).1
            == Move::CountSessions,
        n.attempt + 1 < ATTEMPTS && (n.phase == Phase::HandingBuild || n.phase
            == Phase::HandingVersion(v)) ==> negotiated(n, Outcome::HandedOver(true)).1
            == Move::Probe,
        n.attempt + 1 < ATTEMPTS && n.phase == Phase::TearingDown ==> negotiated(
            n,
            Outcome::TornDown,
        ).1 == Move::Probe,
        n.attempt + 1 >= ATTEMPTS && n.phase == Phase::TearingDown ==> negotiated(
            n,
            Outcome::TornDown,
        ).1 == Move::ReconnectAndUse,
{
}

/// The version that a daemon said is the one by which it is judged when its
/// sessions have been counted: it is driven where it can be, and refused where
/// it cannot and holds sessions, or may.
pub proof fn law_stale_daemon_is_judged_by_its_version(n: Negotiation, v: u32, live: Option<usize>)
    requires
        n.policy != VersionPolicy::Tolerant,
        n.phase == Phase::Probing,
        live != Some(0usize),
    ensures
        ({
            let a = negotiated(n, Outcome::OtherVersion(v)).0;
            let b = negotiated(a, Outcome::HandedOver(false)).0;
            let m = negotiated(b, Outcome::Counted(live)).1;
            &&& v >= MIN_DRIVABLE_DAEMON_VER ==> m == Move::ReconnectAndUse
            &&& v < MIN_DRIVABLE_DAEMON_VER ==> m == Move::Refuse
        }),
{
}

/// A build is named by its version and its hash, so that other hashes give other
/// names.
pub proof fn law_build_is_named_by_version_and_hash(version: Seq<char>, a: u64, b: u64)
    ensures
        build_name(version, Some(a)).take(version.len() as int) == version,
        build_name(version, None).take(version.len() as int) == version,
        build_name(version, Some(a)).len() == version.len() + 17,
        build_name(version, Some(a))[version.len() as int] == '+',
        build_name(version, Some(a)) == build_name(version, Some(b)) ==> a == b,
        build_name(version, Some(a)) != build_name(version, None),
{
    reveal_strlit("+");
    reveal_strlit("+unknown");
    reveal_with_fuel(pow16, 17);
    assert(pow16(16) == 0x1_0000_0000_0000_0000);
    law_hexadecimal_reads_back(a as nat, 16);
    law_hexadecimal_reads_back(b as nat, 16);
    let s = build_name(version, Some(a));
    let n = version.len() as int;
    assert(s.take(n) =~= version);
    assert(build_name(version, None).take(n) =~= version);
    assert(s.skip(n + 1) =~= hex(a as nat, 16));
    assert(build_name(version, Some(b)).skip(n + 1) =~= hex(b as nat, 16));
    assert(build_name(version, None).len() == n + 8);
}

/// The sessions that are claimed elsewhere are listed in the order of the claims.
pub proof fn law_claims_elsewhere_keep_their_order(a: Claims, b: Claims, me: u64)
    ensures
        elsewhere(a + b, me) == elsewhere(a, me) + elsewhere(b, me),
    decreases b.len(),
{
    if b.len() > 0 {
        assert((a + b).drop_last() =~= a + b.drop_last());
        law_claims_elsewhere_keep_their_order(a, b.drop_last(), me);
        assert((a + b).last() == b.last());
        assert(elsewhere(a + b, me) =~= elsewhere(a, me) + elsewhere(b, me));
    } else {
        assert(a + b =~= a);
        assert(elsewhere(a, me) + elsewhere(b, me) =~= elsewhere(a, me));
    }
}

} // verus!
