//! The session daemon: where it is found, what it answers, when it hands its
//! sessions to a successor and when it exits.

use crate::assoc::{assoc_get, assoc_ordered, assoc_put, assoc_remove, law_assoc_put_get, StrMap};
use crate::persistence::paths::{join, joined, str_opt};
use crate::platform::Platform;
use crate::session::attach::event_views;
use crate::session::claims::{claim_outcome, claim_views, claimed, lemma_not_held_members,
    not_held_by, released, ClaimInfo, ClaimOutcome, ClaimRegistry, Claims};
use crate::session::fnv::{fnv1a, Fnv};
use crate::session::proto::{event_uid, frame_views, meta_views, options_of, uid_of, ClientMsg, ClientView,
    DaemonMsg, DaemonView, EventView, MetaView, OptionsView, SessionEvent, SessionMeta,
    SpawnOptions, SpecView};
use crate::text::{chars_of, dec, decimal, hex, hexadecimal, insert_sorted, opt_view, owned,
    parse_number, parse_uint, same, sorted, views, with_string};
use vstd::prelude::*;
use vstd::string::*;
use vstd::utf8::*;

verus! {

/// How long an idle daemon stays, in milliseconds, where nothing else is said.
pub const DEFAULT_IDLE_GRACE_MS: u64 = 30_000;

/// How often it is looked whether the daemon is idle, in milliseconds.
pub const IDLE_POLL_MS: u64 = 100;

/// How often it is looked whether a client connects, in milliseconds.
pub const ACCEPT_POLL_MS: u64 = 15;

/// How long each message of a takeover is waited for, in milliseconds.
pub const TAKEOVER_RECV_TIMEOUT_MS: u64 = 5000;

/// How long an idle daemon stays, by the override.
pub open spec fn grace(raw: Option<Seq<char>>) -> u64 {
    match raw {
        Some(v) => match parse_number(v, 10, u64::MAX as nat) {
            Some(n) => n as u64,
            None => DEFAULT_IDLE_GRACE_MS,
        },
        None => DEFAULT_IDLE_GRACE_MS,
    }
}

/// How long an idle daemon stays, in milliseconds: what the override says, or
/// the default where there is none or it is no number.
pub fn idle_grace_from(raw: Option<&str>) -> (r: u64)
    ensures
        r == grace(str_opt(raw)),
{
    match raw {
        Some(v) => {
            let chars = chars_of(v);
            match parse_uint(chars.as_slice(), 10, u64::MAX) {
                Some(n) => n,
                None => DEFAULT_IDLE_GRACE_MS,
            }
        },
        None => DEFAULT_IDLE_GRACE_MS,
    }
}

/// How long a successor waits for the incumbent's lock, in milliseconds: longer
/// where it holds sessions that would be lost.
pub fn takeover_lock_budget_ms(holding_sessions: bool) -> (r: u64)
    ensures
        r == (if holding_sessions {
            30_000int
        } else {
            5000int
        }),
{
    if holding_sessions {
        30_000
    } else {
        5000
    }
}

/// How long binding the socket is tried again, in milliseconds: not at all,
/// where no sessions would be lost.
pub fn bind_budget_ms(holding_sessions: bool) -> (r: u64)
    ensures
        r == (if holding_sessions {
            30_000int
        } else {
            0int
        }),
{
    if holding_sessions {
        30_000
    } else {
        0
    }
}

// ---------------------------------------------------------------------------
// Names
// ---------------------------------------------------------------------------

/// Whether a value names an absolute directory.
pub open spec fn is_absolute(v: Option<Seq<char>>) -> bool {
    v matches Some(p) && p.len() > 0 && p[0] == '/'
}

/// The directory of the lock and the socket.
pub open spec fn runtime(xdg: Option<Seq<char>>, tmp: Option<Seq<char>>) -> Seq<char> {
    if is_absolute(xdg) {
        xdg->0
    } else if is_absolute(tmp) {
        tmp->0
    } else {
        "/tmp"@
    }
}

fn absolute(v: Option<&str>) -> (r: Option<String>)
    ensures
        match r {
            Some(s) => is_absolute(str_opt(v)) && s@ == str_opt(v)->0,
            None => !is_absolute(str_opt(v)),
        },
{
    match v {
        Some(p) => {
            let chars = chars_of(p);
            if chars.len() > 0 && chars[0] == '/' {
                Some(owned(p))
            } else {
                None
            }
        },
        None => None,
    }
}

/// The directory of the lock and the socket: that of `XDG_RUNTIME_DIR`, else
/// that of `TMPDIR`, where they name an absolute path, else `/tmp`.
pub fn runtime_dir(xdg: Option<&str>, tmp: Option<&str>) -> (r: String)
    ensures
        r@ == runtime(str_opt(xdg), str_opt(tmp)),
{
    match absolute(xdg) {
        Some(d) => d,
        None => match absolute(tmp) {
            Some(d) => d,
            None => owned("/tmp"),
        },
    }
}

/// The hash of a string's bytes.
pub fn fnv1a64(s: &str) -> (r: u64)
    ensures
        r == fnv1a(encode_utf8(s@)),
{
    let bytes = s.as_bytes_vec();
    let mut h = Fnv::new();
    h.write(bytes.as_slice());
    h.finish()
}

/// The name of a file of the daemon that serves a salt. The salt is hashed and
/// never shows.
pub open spec fn daemon_file(salt: Seq<char>, suffix: Seq<char>) -> Seq<char> {
    "hyperpanesd."@ + hex(fnv1a(encode_utf8(salt)) as nat, 16) + suffix
}

/// Where the daemon of a salt is found.
#[derive(Debug, Clone, PartialEq, Eq)]
pub struct DaemonNames {
    pub lock: String,
    pub socket: String,
}

fn file_name(salt: &str, suffix: &str) -> (r: String)
    ensures
        r@ == daemon_file(salt@, suffix@),
{
    let mut s = owned("hyperpanesd.");
    s.append(hexadecimal(fnv1a64(salt), 16).as_str());
    s.append(suffix);
    s
}

/// Where the daemon of a salt is found, in a runtime directory.
pub fn daemon_names(salt: &str, dir: &str) -> (r: DaemonNames)
    ensures
        r.lock@ == joined(dir@, daemon_file(salt@, ".lock"@), Platform::Linux),
        r.socket@ == joined(dir@, daemon_file(salt@, ".sock"@), Platform::Linux),
{
    DaemonNames {
        lock: join(dir, file_name(salt, ".lock").as_str(), Platform::Linux),
        socket: join(dir, file_name(salt, ".sock").as_str(), Platform::Linux),
    }
}

/// The socket of the daemon of a salt.
pub fn socket_path_for(salt: &str, dir: &str) -> (r: String)
    ensures
        r@ == joined(dir@, daemon_file(salt@, ".sock"@), Platform::Linux),
{
    daemon_names(salt, dir).socket
}

// ---------------------------------------------------------------------------
// Taking over
// ---------------------------------------------------------------------------

/// What is said where no message came.
pub const NO_ANSWER: &'static str = "the daemon holding this salt did not answer the takeover";

/// The view of sessions and the descriptors that they name.
pub open spec fn named_views(v: Seq<(String, usize)>) -> Seq<(Seq<char>, usize)> {
    Seq::new(v.len(), |i: int| (v[i].0@, v[i].1))
}

/// Whether the session at `k` names a descriptor that is there and that no
/// session before it named.
pub open spec fn owns_descriptor(sessions: Seq<(Seq<char>, usize)>, n: usize, k: int) -> bool {
    &&& sessions[k].1 < n
    &&& forall|j: int| 0 <= j < k ==> (#[trigger] sessions[j]).1 != sessions[k].1
}

/// What is said of a session that names no descriptor of its own.
pub open spec fn descriptor_error(uid: Seq<char>, index: usize, n: usize) -> Seq<char> {
    "session "@ + uid + " claims descriptor "@ + dec(index as nat) + " of "@ + dec(n as nat)
}

/// Pairs the sessions of one message with its descriptors. Each session names
/// the place of its own; the first that does not is an error.
pub fn pair_descriptors(sessions: &Vec<(String, usize)>, n: usize) -> (r: Result<(), String>)
    ensures
        match r {
            Ok(()) => forall|k: int|
                0 <= k < sessions@.len() ==> #[trigger] owns_descriptor(
                    named_views(sessions@),
                    n,
                    k,
                ),
            Err(e) => exists|k: int|
                0 <= k < sessions@.len() && !(#[trigger] owns_descriptor(
                    named_views(sessions@),
                    n,
                    k,
                )) && (forall|j: int|
                    0 <= j < k ==> #[trigger] owns_descriptor(named_views(sessions@), n, j)) && e@
                    == descriptor_error(sessions@[k].0@, sessions@[k].1, n),
        },
{
    let ghost s = named_views(sessions@);
    let mut i: usize = 0;
    while i < sessions.len()
        invariant
            i <= sessions@.len(),
            s == named_views(sessions@),
            forall|k: int| 0 <= k < i ==> #[trigger] owns_descriptor(s, n, k),
        decreases sessions.len() - i,
    {
        let index: usize = sessions[i].1;
        assert(s[i as int].1 == index);
        let mut taken = index >= n;
        let mut j: usize = 0;
        while j < i
            invariant
                j <= i < sessions@.len(),
                s == named_views(sessions@),
                index == s[i as int].1,
                taken == (index >= n || exists|h: int|
                    0 <= h < j && (#[trigger] s[h]).1 == index),
            decreases i - j,
        {
            assert(s[j as int].1 == sessions@[j as int].1);
            if sessions[j].1 == index {
                taken = true;
            }
            j = j + 1;
        }
        if taken {
            assert(!owns_descriptor(s, n, i as int));
            let mut e = owned("session ");
            e.append(sessions[i].0.as_str());
            e.append(" claims descriptor ");
            e.append(decimal(index as u64).as_str());
            e.append(" of ");
            e.append(decimal(n as u64).as_str());
            return Err(e);
        }
        assert(owns_descriptor(s, n, i as int));
        i = i + 1;
    }
    Ok(())
}

/// Whether a takeover was answered: no message at all is no answer, whatever
/// the number of sessions.
pub fn takeover_answered(messages: usize) -> (r: Result<(), String>)
    ensures
        match r {
            Ok(()) => messages > 0,
            Err(e) => messages == 0 && e@ == NO_ANSWER@,
        },
{
    if messages == 0 {
        Err(owned(NO_ANSWER))
    } else {
        Ok(())
    }
}

/// The batches from `from` on: each a start and a length.
pub open spec fn chunked(from: int, count: int, max: int) -> Seq<(int, int)>
    decreases count - from,
    when max > 0
{
    if from >= count {
        Seq::empty()
    } else {
        let len = if count - from < max {
            count - from
        } else {
            max
        };
        seq![(from, len)] + chunked(from + len, count, max)
    }
}

/// The batches in which sessions are handed over: at least one, though it be
/// empty.
pub open spec fn batched(count: int, max: int) -> Seq<(int, int)> {
    if count == 0 {
        seq![(0int, 0int)]
    } else {
        chunked(0, count, max)
    }
}

/// The batches in which `count` sessions are handed over, no more than `max` in
/// each. At least one is sent, so that a successor can tell no sessions from no
/// answer.
pub fn handover_batches(count: usize, max: usize) -> (r: Vec<(usize, usize)>)
    requires
        max > 0,
    ensures
        Seq::new(r@.len(), |i: int| (r@[i].0 as int, r@[i].1 as int)) == batched(
            count as int,
            max as int,
        ),
{
    let mut out: Vec<(usize, usize)> = Vec::new();
    if count == 0 {
        out.push((0, 0));
        assert(Seq::new(out@.len(), |i: int| (out@[i].0 as int, out@[i].1 as int)) =~= batched(
            0,
            max as int,
        ));
        return out;
    }
    let ghost all = batched(count as int, max as int);
    let mut from: usize = 0;
    assert(Seq::new(out@.len(), |i: int| (out@[i].0 as int, out@[i].1 as int)) + all =~= all);
    while from < count
        invariant
            from <= count,
            max > 0,
            all == Seq::new(out@.len(), |i: int| (out@[i].0 as int, out@[i].1 as int)) + chunked(
                from as int,
                count as int,
                max as int,
            ),
        decreases count - from,
    {
        let ghost before = Seq::new(out@.len(), |i: int| (out@[i].0 as int, out@[i].1 as int));
        let len: usize = if count - from < max {
            count - from
        } else {
            max
        };
        out.push((from, len));
        assert(Seq::new(out@.len(), |i: int| (out@[i].0 as int, out@[i].1 as int))
            =~= before.push((from as int, len as int)));
        assert(before + (seq![(from as int, len as int)] + chunked(
            from + len,
            count as int,
            max as int,
        )) =~= before.push((from as int, len as int)) + chunked(
            from + len,
            count as int,
            max as int,
        ));
        from = from + len;
    }
    assert(Seq::new(out@.len(), |i: int| (out@[i].0 as int, out@[i].1 as int)) + Seq::<
        (int, int),
    >::empty() =~= Seq::new(out@.len(), |i: int| (out@[i].0 as int, out@[i].1 as int)));
    out
}

/// Every session is in exactly one batch: the batches follow one another from
/// the first session to the last, and none is too large.
pub proof fn law_batches_cover_every_session(count: int, max: int)
    requires
        count >= 0,
        max > 0,
    ensures
        batched(count, max).len() >= 1,
        forall|i: int|
            0 <= i < batched(count, max).len() ==> 0 <= (#[trigger] batched(count, max)[i]).1
                <= max,
        batched(count, max)[0].0 == 0,
        forall|i: int|
            0 < i < batched(count, max).len() ==> (#[trigger] batched(count, max)[i]).0
                == batched(count, max)[i - 1].0 + batched(count, max)[i - 1].1,
        batched(count, max).last().0 + batched(count, max).last().1 == count,
{
    if count > 0 {
        lemma_chunks(0, count, max);
    }
}

proof fn lemma_chunks(from: int, count: int, max: int)
    requires
        0 <= from < count,
        max > 0,
    ensures
        chunked(from, count, max).len() >= 1,
        forall|i: int|
            0 <= i < chunked(from, count, max).len() ==> 0 <= (#[trigger] chunked(
                from,
                count,
                max,
            )[i]).1 <= max,
        chunked(from, count, max)[0].0 == from,
        forall|i: int|
            0 < i < chunked(from, count, max).len() ==> (#[trigger] chunked(from, count, max)[i]).0
                == chunked(from, count, max)[i - 1].0 + chunked(from, count, max)[i - 1].1,
        chunked(from, count, max).last().0 + chunked(from, count, max).last().1 == count,
    decreases count - from,
{
    let c = chunked(from, count, max);
    let len = if count - from < max {
        count - from
    } else {
        max
    };
    let rest = chunked(from + len, count, max);
    assert(c =~= seq![(from, len)] + rest);
    if from + len < count {
        lemma_chunks(from + len, count, max);
        assert forall|i: int| 0 < i < c.len() implies (#[trigger] c[i]).0 == c[i - 1].0 + c[i
            - 1].1 by {
            assert(c[i] == rest[i - 1]);
            if i > 1 {
                assert(c[i - 1] == rest[i - 2]);
            }
        }
        assert forall|i: int| 0 <= i < c.len() implies 0 <= (#[trigger] c[i]).1 <= max by {
            if i > 0 {
                assert(c[i] == rest[i - 1]);
            }
        }
        assert(c.last() == rest.last());
    } else {
        assert(rest =~= Seq::<(int, int)>::empty());
    }
}

/// A batch that says of each session its place in the batch is taken over
/// whole: every session owns a descriptor of the message.
pub proof fn law_handed_over_sessions_own_their_descriptors(
    sessions: Seq<(Seq<char>, usize)>,
    n: usize,
    k: int,
)
    requires
        n == sessions.len(),
        forall|i: int| 0 <= i < sessions.len() ==> (#[trigger] sessions[i]).1 == i,
        0 <= k < sessions.len(),
    ensures
        owns_descriptor(sessions, n, k),
{
    assert(sessions[k].1 == k);
}

/// What a batch says of each of its sessions: its place in the batch, and the
/// directory that was last reported.
pub fn handover_entries(
    uids: &Vec<String>,
    start: usize,
    len: usize,
    cwds: &StrMap<String>,
) -> (r: Vec<(String, usize, Option<String>)>)
    requires
        start + len <= uids@.len(),
    ensures
        r@.len() == len,
        forall|i: int|
            0 <= i < len ==> (#[trigger] r@[i]).0@ == uids@[start + i]@ && r@[i].1 == i
                && opt_view(r@[i].2) == assoc_get(cwds@, uids@[start + i]@),
{
    let mut out: Vec<(String, usize, Option<String>)> = Vec::new();
    let mut i: usize = 0;
    let total: usize = uids.len();
    while i < len
        invariant
            i <= len,
            total == uids@.len(),
            start + len <= total,
            out@.len() == i,
            forall|j: int|
                0 <= j < i ==> (#[trigger] out@[j]).0@ == uids@[start + j]@ && out@[j].1 == j
                    && opt_view(out@[j].2) == assoc_get(cwds@, uids@[start + j]@),
        decreases len - i,
    {
        let uid = &uids[start + i];
        let cwd = match cwds.get(uid.as_str()) {
            Some(c) => Some(c.clone()),
            None => None,
        };
        out.push((uid.clone(), i, cwd));
        i = i + 1;
    }
    out
}

// ---------------------------------------------------------------------------
// Lifecycle
// ---------------------------------------------------------------------------

/// How many clients are connected, and whether the daemon is going down.
#[derive(Debug, Clone, Copy, PartialEq, Eq, Structural)]
pub struct Lifecycle {
    pub active_conns: u64,
    pub shutting_down: bool,
}

impl Lifecycle {
    /// A daemon without clients.
    pub fn new() -> (r: Lifecycle)
        ensures
            r == (Lifecycle { active_conns: 0, shutting_down: false }),
    {
        Lifecycle { active_conns: 0, shutting_down: false }
    }

    /// A client connected. Returns how many there are now.
    pub fn conn_opened(&mut self) -> (r: u64)
        requires
            old(self).active_conns < u64::MAX,
        ensures
            r == old(self).active_conns + 1,
            final(self).active_conns == r,
            final(self).shutting_down == old(self).shutting_down,
    {
        self.active_conns = self.active_conns + 1;
        self.active_conns
    }

    /// A client left.
    pub fn conn_closed(&mut self)
        requires
            old(self).active_conns > 0,
        ensures
            final(self).active_conns == old(self).active_conns - 1,
            final(self).shutting_down == old(self).shutting_down,
    {
        self.active_conns = self.active_conns - 1;
    }

    /// How many clients are connected.
    pub fn conn_count(&self) -> (r: u64)
        ensures
            r == self.active_conns,
    {
        self.active_conns
    }

    /// Whether the daemon is going down.
    pub fn is_shutting_down(&self) -> (r: bool)
        ensures
            r == self.shutting_down,
    {
        self.shutting_down
    }

    /// Takes the daemon down. Returns whether this call is the one that does:
    /// the first wins, and any other finds it done.
    pub fn shutdown(&mut self) -> (r: bool)
        ensures
            final(self).shutting_down,
            final(self).active_conns == old(self).active_conns,
            r == !old(self).shutting_down,
    {
        let first = !self.shutting_down;
        self.shutting_down = true;
        first
    }
}

/// When the daemon was first seen idle, without a break since.
#[derive(Debug, Clone, Copy, PartialEq, Eq, Structural)]
pub struct IdleMonitor {
    pub armed: Option<u64>,
}

/// Whether nothing keeps the daemon: no session and no client.
pub open spec fn is_idle(sessions: usize, conns: u64) -> bool {
    sessions == 0 && conns == 0
}

/// What a look at the daemon comes to: since when it is idle, and whether it is
/// to exit.
pub open spec fn idle_tick(
    armed: Option<u64>,
    sessions: usize,
    conns: u64,
    now: u64,
    grace_ms: u64,
) -> (Option<u64>, bool) {
    if !is_idle(sessions, conns) {
        (None, false)
    } else {
        match armed {
            None => (Some(now), false),
            Some(since) => (armed, now - since >= grace_ms),
        }
    }
}

impl IdleMonitor {
    /// A monitor that has not looked yet.
    pub fn new() -> (r: IdleMonitor)
        ensures
            r.armed is None,
    {
        IdleMonitor { armed: None }
    }

    /// Looks at the daemon. Returns whether it is to exit: it was idle for the
    /// whole grace.
    pub fn tick(&mut self, sessions: usize, conns: u64, now_ms: u64, grace_ms: u64) -> (r: bool)
        requires
            old(self).armed matches Some(since) ==> since <= now_ms,
        ensures
            (final(self).armed, r) == idle_tick(
                old(self).armed,
                sessions,
                conns,
                now_ms,
                grace_ms,
            ),
    {
        if sessions != 0 || conns != 0 {
            self.armed = None;
            return false;
        }
        match self.armed {
            None => {
                self.armed = Some(now_ms);
                false
            },
            Some(since) => now_ms - since >= grace_ms,
        }
    }
}

/// A session or a client keeps the daemon, however long it was idle before, and
/// the grace starts anew after it.
pub proof fn law_busy_daemon_stays(
    armed: Option<u64>,
    sessions: usize,
    conns: u64,
    now: u64,
    later: u64,
    grace_ms: u64,
)
    requires
        !is_idle(sessions, conns),
    ensures
        idle_tick(armed, sessions, conns, now, grace_ms) == (None::<u64>, false),
        idle_tick(None, 0, 0, later, grace_ms) == (Some(later), false),
{
}

/// An idle daemon exits once the grace is over, and not before.
pub proof fn law_idle_daemon_exits_after_the_grace(since: u64, now: u64, grace_ms: u64)
    requires
        since <= now,
    ensures
        idle_tick(Some(since), 0, 0, now, grace_ms).1 == (now >= since + grace_ms),
{
}

// ---------------------------------------------------------------------------
// Starting
// ---------------------------------------------------------------------------

/// What came of trying the lock of a salt.
#[derive(Debug, Clone, Copy, PartialEq, Eq, Structural)]
pub enum LockState {
    /// It is ours.
    Acquired,
    /// Another daemon holds it.
    Held,
    /// It could not be tried.
    Failed,
}

/// How far a daemon is in starting. What it took over from another daemon is
/// counted.
#[derive(Debug, Clone, Copy, PartialEq, Eq, Structural)]
pub enum Startup {
    /// The lock is tried.
    Locking,
    /// The other daemon is asked for its sessions.
    TakingOver,
    /// The other daemon is waited for.
    Waiting { sessions: usize },
    /// The socket is bound.
    Binding { sessions: usize },
    /// It serves, or it gave up.
    Over,
}

/// What a starting daemon is told.
#[derive(Debug, Clone, Copy, PartialEq, Eq, Structural)]
pub enum StartupEvent {
    /// The lock was tried.
    Lock(LockState),
    /// The other daemon handed this many sessions over, or none answered.
    TakenOver(Option<usize>),
    /// Whether the other daemon exited in time.
    Released(bool),
    /// Whether the socket could be bound.
    Bound(bool),
}

/// Why a daemon does not start.
#[derive(Debug, Clone, Copy, PartialEq, Eq, Structural)]
pub enum StartupFault {
    /// The lock could not be tried.
    Lock,
    /// Another daemon serves, and keeps its sessions.
    AlreadyServed,
    /// The other daemon handed its sessions over and stayed.
    IncumbentStays,
    /// The socket could not be bound.
    Bind,
}

/// What a starting daemon does.
#[derive(Debug, Clone, Copy, PartialEq, Eq, Structural)]
pub enum StartupMove {
    /// Ask the other daemon for its sessions.
    TakeOver,
    /// Wait for the other daemon's lock, this long at most.
    AwaitLock { budget_ms: u64 },
    /// Remove a socket that was left behind and bind anew, trying this long.
    Bind { budget_ms: u64 },
    /// Adopt this many sessions, and only after it watch for idleness; serve.
    Serve { sessions: usize },
    /// Give up.
    Fail(StartupFault),
}

/// What is said of each reason not to start that is the daemon's own.
pub const ALREADY_SERVED: &'static str = "a daemon already holds this salt";

/// What is said where the other daemon stayed.
pub const INCUMBENT_STAYS: &'static str = "the incumbent daemon handed over but did not exit";

/// What is said of a reason not to start, where it is the daemon's own.
pub open spec fn fault_text(f: StartupFault) -> Option<Seq<char>> {
    match f {
        StartupFault::AlreadyServed => Some(ALREADY_SERVED@),
        StartupFault::IncumbentStays => Some(INCUMBENT_STAYS@),
        _ => None,
    }
}

/// What is said of a reason not to start: nothing where the system says it.
pub fn fault_message(f: StartupFault) -> (r: Option<&'static str>)
    ensures
        str_opt(r) == fault_text(f),
{
    match f {
        StartupFault::AlreadyServed => Some(ALREADY_SERVED),
        StartupFault::IncumbentStays => Some(INCUMBENT_STAYS),
        _ => None,
    }
}

/// How long a successor waits for the lock, by whether it holds sessions.
pub open spec fn lock_budget(sessions: usize) -> u64 {
    if sessions > 0 {
        30_000
    } else {
        5000
    }
}

/// How long a successor tries to bind, by whether it holds sessions.
pub open spec fn bind_budget(sessions: usize) -> u64 {
    if sessions > 0 {
        30_000
    } else {
        0
    }
}

/// What follows an event. What cannot come ends the start as it stands.
pub open spec fn started(s: Startup, e: StartupEvent) -> (Startup, StartupMove) {
    match (s, e) {
        (Startup::Locking, StartupEvent::Lock(l)) => match l {
            LockState::Acquired => (
                Startup::Binding { sessions: 0 },
                StartupMove::Bind { budget_ms: bind_budget(0) },
            ),
            LockState::Held => (Startup::TakingOver, StartupMove::TakeOver),
            LockState::Failed => (Startup::Over, StartupMove::Fail(StartupFault::Lock)),
        },
        (Startup::TakingOver, StartupEvent::TakenOver(n)) => match n {
            Some(sessions) => (
                Startup::Waiting { sessions },
                StartupMove::AwaitLock { budget_ms: lock_budget(sessions) },
            ),
            None => (Startup::Over, StartupMove::Fail(StartupFault::AlreadyServed)),
        },
        (Startup::Waiting { sessions }, StartupEvent::Released(ok)) => if ok {
            (Startup::Binding { sessions }, StartupMove::Bind { budget_ms: bind_budget(sessions) })
        } else {
            (Startup::Over, StartupMove::Fail(StartupFault::IncumbentStays))
        },
        (Startup::Binding { sessions }, StartupEvent::Bound(ok)) => if ok {
            (Startup::Over, StartupMove::Serve { sessions })
        } else {
            (Startup::Over, StartupMove::Fail(StartupFault::Bind))
        },
        _ => (Startup::Over, StartupMove::Fail(StartupFault::Lock)),
    }
}

impl Startup {
    /// What follows an event.
    pub fn next(self, e: StartupEvent) -> (r: (Startup, StartupMove))
        ensures
            r == started(self, e),
    {
        match (self, e) {
            (Startup::Locking, StartupEvent::Lock(l)) => match l {
                LockState::Acquired => (
                    Startup::Binding { sessions: 0 },
                    StartupMove::Bind { budget_ms: bind_budget_ms(false) },
                ),
                LockState::Held => (Startup::TakingOver, StartupMove::TakeOver),
                LockState::Failed => (Startup::Over, StartupMove::Fail(StartupFault::Lock)),
            },
            (Startup::TakingOver, StartupEvent::TakenOver(n)) => match n {
                Some(sessions) => (
                    Startup::Waiting { sessions },
                    StartupMove::AwaitLock { budget_ms: takeover_lock_budget_ms(sessions > 0) },
                ),
                None => (Startup::Over, StartupMove::Fail(StartupFault::AlreadyServed)),
            },
            (Startup::Waiting { sessions }, StartupEvent::Released(ok)) => {
                if ok {
                    (
                        Startup::Binding { sessions },
                        StartupMove::Bind { budget_ms: bind_budget_ms(sessions > 0) },
                    )
                } else {
                    (Startup::Over, StartupMove::Fail(StartupFault::IncumbentStays))
                }
            },
            (Startup::Binding { sessions }, StartupEvent::Bound(ok)) => {
                if ok {
                    (Startup::Over, StartupMove::Serve { sessions })
                } else {
                    (Startup::Over, StartupMove::Fail(StartupFault::Bind))
                }
            },
            _ => (Startup::Over, StartupMove::Fail(StartupFault::Lock)),
        }
    }
}

/// Sessions that were taken over are all served, or the wait for the lock or
/// for the socket, half a minute each, was in vain.
pub proof fn law_inherited_sessions_are_served(sessions: usize, released: bool, bound: bool)
    requires
        sessions > 0,
    ensures
        ({
            let (waiting, m1) = started(
                Startup::TakingOver,
                StartupEvent::TakenOver(Some(sessions)),
            );
            let (binding, m2) = started(waiting, StartupEvent::Released(released));
            let (_, m3) = started(binding, StartupEvent::Bound(bound));
            &&& m1 == StartupMove::AwaitLock { budget_ms: 30_000 }
            &&& released ==> m2 == StartupMove::Bind { budget_ms: 30_000 }
            &&& released && bound ==> m3 == StartupMove::Serve { sessions }
        }),
{
}

/// Where the other daemon does not hand over, it is left alone: the start ends.
pub proof fn law_silent_incumbent_is_left_alone()
    ensures
        started(Startup::TakingOver, StartupEvent::TakenOver(None)) == (
            Startup::Over,
            StartupMove::Fail(StartupFault::AlreadyServed),
        ),
{
}

// ---------------------------------------------------------------------------
// Stopping
// ---------------------------------------------------------------------------

/// What came of connecting to a daemon that is to stop.
#[derive(Debug, Clone, Copy, PartialEq, Eq, Structural)]
pub enum Reach {
    /// It listens.
    Connected,
    /// Nobody listens at the socket.
    Refused,
    /// There is no socket.
    Missing,
    /// Anything else came in between.
    Failed,
}

/// What is done to stop a daemon.
#[derive(Debug, Clone, Copy, PartialEq, Eq, Structural)]
pub enum StopMove {
    /// None ran: remove a socket that was left behind, and be done.
    NoneRan,
    /// One ran: send it one request to shut down, and look for it to be gone
    /// every `poll_ms`, for `budget_ms` at most.
    Shutdown { budget_ms: u64, poll_ms: u64 },
    /// Give up with the failure that the connection met.
    Fail,
}

/// What is done to stop a daemon, by what came of connecting to it.
pub open spec fn stopped(reach: Reach) -> StopMove {
    match reach {
        Reach::Connected => StopMove::Shutdown { budget_ms: 3000, poll_ms: 50 },
        Reach::Refused | Reach::Missing => StopMove::NoneRan,
        Reach::Failed => StopMove::Fail,
    }
}

/// What is done to stop a daemon. That none runs is no failure.
pub fn stop_move(reach: Reach) -> (r: StopMove)
    ensures
        r == stopped(reach),
{
    match reach {
        Reach::Connected => StopMove::Shutdown { budget_ms: 3000, poll_ms: 50 },
        Reach::Refused => StopMove::NoneRan,
        Reach::Missing => StopMove::NoneRan,
        Reach::Failed => StopMove::Fail,
    }
}

// ---------------------------------------------------------------------------
// Serving a client
// ---------------------------------------------------------------------------

/// How the daemon names itself to a client.
#[derive(Debug, Clone, PartialEq, Eq)]
pub struct Identity {
    pub proto_ver: u32,
    pub daemon_pid: u32,
    pub conn_id: u64,
    pub build_id: String,
}

/// What the daemon is to do for a client.
#[derive(Debug, Clone, PartialEq, Eq)]
pub enum Action {
    /// Send this.
    Reply(DaemonMsg),
    /// Send the list of sessions.
    ListSessions,
    /// Send what is retained of a session's output.
    SendReplay { uid: String },
    /// Spawn a session.
    Spawn(SpawnOptions),
    Write { uid: String, data: String },
    Resize { uid: String, cols: u16, rows: u16 },
    Kill { uid: String },
    KillAll,
    /// Send a session's screen.
    SendScreen { uid: String },
    /// Kill every session and exit.
    Shutdown,
    /// Hand every session over and exit.
    HandOver,
    /// Nothing.
    Nothing,
}

/// What the daemon is to do for a client.
pub enum ActionView {
    Reply(DaemonView),
    ListSessions,
    SendReplay { uid: Seq<char> },
    Spawn(OptionsView),
    Write { uid: Seq<char>, data: Seq<char> },
    Resize { uid: Seq<char>, cols: u16, rows: u16 },
    Kill { uid: Seq<char> },
    KillAll,
    SendScreen { uid: Seq<char> },
    Shutdown,
    HandOver,
    Nothing,
}

impl View for Action {
    type V = ActionView;

    open spec fn view(&self) -> ActionView {
        match self {
            Action::Reply(m) => ActionView::Reply(m@),
            Action::ListSessions => ActionView::ListSessions,
            Action::SendReplay { uid } => ActionView::SendReplay { uid: uid@ },
            Action::Spawn(o) => ActionView::Spawn(o@),
            Action::Write { uid, data } => ActionView::Write { uid: uid@, data: data@ },
            Action::Resize { uid, cols, rows } => ActionView::Resize {
                uid: uid@,
                cols: *cols,
                rows: *rows,
            },
            Action::Kill { uid } => ActionView::Kill { uid: uid@ },
            Action::KillAll => ActionView::KillAll,
            Action::SendScreen { uid } => ActionView::SendScreen { uid: uid@ },
            Action::Shutdown => ActionView::Shutdown,
            Action::HandOver => ActionView::HandOver,
            Action::Nothing => ActionView::Nothing,
        }
    }
}

/// The uid of a session to be spawned: the one that is pinned, else the one
/// that was minted.
pub open spec fn spawn_uid(spec: SpecView, minted: Seq<char>) -> Seq<char> {
    match spec.uid {
        Some(u) => u,
        None => minted,
    }
}

/// The answer to a claim.
pub open spec fn claim_reply(uid: Seq<char>, o: ClaimOutcome) -> DaemonView {
    DaemonView::ClaimResult {
        uid,
        granted: o is Granted,
        owner: match o {
            ClaimOutcome::Granted => None,
            ClaimOutcome::Denied(c) => Some(c),
        },
    }
}

/// What a request asks the daemon to do, where `claims` are held.
pub open spec fn action_for(
    msg: ClientView,
    ver: u32,
    pid: u32,
    conn_id: u64,
    build: Seq<char>,
    minted: Seq<char>,
    claims: Claims,
) -> ActionView {
    match msg {
        ClientView::Hello { proto_ver } => ActionView::Reply(
            DaemonView::Hello { proto_ver: ver, daemon_pid: pid, conn_id, build_id: build },
        ),
        ClientView::ListSessions => ActionView::ListSessions,
        ClientView::Attach { uid } => ActionView::SendReplay { uid },
        ClientView::Create(spec) => ActionView::Spawn(
            options_of(spec, spawn_uid(spec, minted)),
        ),
        ClientView::Write { uid, data } => ActionView::Write { uid, data },
        ClientView::Resize { uid, cols, rows } => ActionView::Resize { uid, cols, rows },
        ClientView::Kill { uid } => ActionView::Kill { uid },
        ClientView::KillAll => ActionView::KillAll,
        ClientView::RenderScreen { uid } => ActionView::SendScreen { uid },
        ClientView::Ping => ActionView::Reply(DaemonView::Pong),
        ClientView::Takeover => ActionView::HandOver,
        ClientView::Shutdown => ActionView::Shutdown,
        ClientView::Claim { uid } => ActionView::Reply(
            claim_reply(uid, claim_outcome(claims, uid, conn_id)),
        ),
        ClientView::Release { uid } => ActionView::Nothing,
        ClientView::ListClaims => ActionView::Reply(DaemonView::Claims(claims)),
    }
}

/// The claims after a request of the connection `conn_id`. A killed session is
/// nobody's.
pub open spec fn claims_after(claims: Claims, msg: ClientView, conn_id: u64) -> Claims {
    match msg {
        ClientView::Claim { uid } => claimed(claims, uid, conn_id),
        ClientView::Release { uid } => released(claims, uid, conn_id),
        ClientView::Kill { uid } => assoc_remove(claims, uid),
        ClientView::KillAll => Seq::empty(),
        _ => claims,
    }
}

/// What every client is told of the claims: the whole table where it changed,
/// or where a client has just come.
pub open spec fn told(before: Claims, after: Claims, greeted: bool) -> Option<Claims> {
    if greeted || before != after {
        Some(after)
    } else {
        None
    }
}

/// Whether every client is told of the sessions after a request: a client has
/// just come, or the request changes which sessions there are.
pub open spec fn tells_sessions(msg: ClientView) -> bool {
    msg is Hello || msg is Create || msg is Kill || msg is KillAll
}

/// The view of a claim table, or none.
pub open spec fn table_view(t: Option<Vec<ClaimInfo>>) -> Option<Claims> {
    match t {
        Some(v) => Some(claim_views(v@)),
        None => None,
    }
}

/// What comes of a request: what is to be done, the claim table that every
/// client is to be sent, where there is one, and whether every client is to be
/// sent the list of sessions.
pub struct Served {
    pub action: Action,
    pub claims: Option<Vec<ClaimInfo>>,
    pub sessions: bool,
}

fn tell(claims: &ClaimRegistry, changed: bool) -> (r: Option<Vec<ClaimInfo>>)
    ensures
        table_view(r) == (if changed {
            Some(claims.claims())
        } else {
            None
        }),
{
    if changed {
        Some(claims.snapshot())
    } else {
        None
    }
}

proof fn lemma_remove_changes(s: Claims, k: Seq<char>)
    ensures
        assoc_get(s, k) is None ==> assoc_remove(s, k) == s,
        assoc_get(s, k) is Some ==> assoc_remove(s, k).len() + 1 == s.len(),
    decreases s.len(),
{
    if s.len() > 0 && s[0].0 != k {
        lemma_remove_changes(s.skip(1), k);
        assert(seq![s[0]] + s.skip(1) =~= s);
    }
}

proof fn lemma_claim_changes(s: Claims, uid: Seq<char>, conn: u64)
    ensures
        (claimed(s, uid, conn) != s) <==> assoc_get(s, uid) is None,
        (released(s, uid, conn) != s) <==> assoc_get(s, uid) == Some(conn),
{
    law_assoc_put_get(s, uid, conn, uid);
    lemma_remove_changes(s, uid);
}

/// The sessions whose events a client gets after a request: one that it
/// attaches to or creates is added, a created one before it is spawned.
pub open spec fn attached_after(
    attached: Seq<Seq<char>>,
    msg: ClientView,
    minted: Seq<char>,
) -> Seq<Seq<char>> {
    match msg {
        ClientView::Attach { uid } => with_string(attached, uid),
        ClientView::Create(spec) => with_string(attached, spawn_uid(spec, minted)),
        _ => attached,
    }
}

/// The directories that are known after a request: those of killed sessions are
/// forgotten.
pub open spec fn cwds_after(
    cwds: Seq<(Seq<char>, Seq<char>)>,
    msg: ClientView,
) -> Seq<(Seq<char>, Seq<char>)> {
    match msg {
        ClientView::Kill { uid } => assoc_remove(cwds, uid),
        ClientView::KillAll => Seq::empty(),
        _ => cwds,
    }
}

/// Whether a connection stays open after an action.
pub fn keeps_open(a: &Action) -> (r: bool)
    ensures
        r == !(a@ is Shutdown || a@ is HandOver),
{
    match a {
        Action::Shutdown => false,
        Action::HandOver => false,
        _ => true,
    }
}

/// The events of followed sessions, in order, as they are sent.
pub open spec fn forwarded(attached: Seq<Seq<char>>, events: Seq<EventView>) -> Seq<DaemonView>
    decreases events.len(),
{
    if events.len() == 0 {
        Seq::empty()
    } else if attached.contains(uid_of(events.last())) {
        forwarded(attached, events.drop_last()).push(DaemonView::Event(events.last()))
    } else {
        forwarded(attached, events.drop_last())
    }
}

/// One client's connection: the sessions whose events it gets.
pub struct Connection {
    attached: Vec<String>,
}

impl View for Connection {
    type V = Seq<Seq<char>>;

    closed spec fn view(&self) -> Seq<Seq<char>> {
        views(self.attached@)
    }
}

impl Connection {
    /// The sessions are in order, none twice.
    pub open spec fn wf(self) -> bool {
        sorted(self@)
    }

    /// A connection that gets no events.
    pub fn new() -> (r: Connection)
        ensures
            r.wf(),
            r@ == Seq::<Seq<char>>::empty(),
    {
        let c = Connection { attached: Vec::new() };
        assert(c@ =~= Seq::<Seq<char>>::empty());
        c
    }

    /// Whether an event is for this client.
    pub fn forwards(&self, ev: &SessionEvent) -> (r: bool)
        ensures
            r == self@.contains(uid_of(ev@)),
    {
        let uid = event_uid(ev);
        let mut i: usize = 0;
        while i < self.attached.len()
            invariant
                i <= self.attached@.len(),
                uid@ == uid_of(ev@),
                forall|j: int| 0 <= j < i ==> self@[j] != uid@,
            decreases self.attached.len() - i,
        {
            assert(self@[i as int] == self.attached@[i as int]@);
            if same(self.attached[i].as_str(), uid) {
                assert(self@.contains(self@[i as int]));
                return true;
            }
            i = i + 1;
        }
        false
    }

    /// One round of the writer: what is to be sent of the answers that wait and
    /// of the events that came, the answers first, and of the events those of
    /// the sessions that this client follows.
    pub fn writer_pass(&self, replies: Vec<DaemonMsg>, events: Vec<SessionEvent>) -> (r: Vec<
        DaemonMsg,
    >)
        ensures
            frame_views(r@) == frame_views(replies@) + forwarded(self@, event_views(events@)),
    {
        let ghost evs = event_views(events@);
        let ghost first = frame_views(replies@);
        let mut out = replies;
        let mut rest = events;
        let ghost mut k: int = 0;
        proof {
            assert(evs.take(0) =~= Seq::<EventView>::empty());
            assert(evs.skip(0) =~= evs);
            assert(first + Seq::<DaemonView>::empty() =~= first);
        }
        while rest.len() > 0
            invariant
                0 <= k <= evs.len(),
                event_views(rest@) == evs.skip(k),
                frame_views(out@) == first + forwarded(self@, evs.take(k)),
            decreases rest.len(),
        {
            let ghost whole = rest@;
            let ev = rest.remove(0);
            proof {
                assert(event_views(whole)[0] == ev@);
                assert(event_views(whole) == evs.skip(k));
                assert(evs.skip(k).len() == evs.len() - k);
                assert(evs.skip(k)[0] == evs[k]);
                assert(event_views(rest@) =~= evs.skip(k + 1)) by {
                    assert(event_views(rest@) =~= event_views(whole).skip(1));
                    assert(evs.skip(k).skip(1) =~= evs.skip(k + 1));
                }
                assert(evs.take(k + 1).drop_last() =~= evs.take(k));
                assert(evs.take(k + 1).last() == evs[k]);
            }
            if self.forwards(&ev) {
                let ghost before = out@;
                let ghost view = DaemonView::Event(ev@);
                out.push(DaemonMsg::Event(ev));
                assert(frame_views(out@) =~= frame_views(before).push(view));
                assert(frame_views(out@) =~= first + forwarded(self@, evs.take(k + 1)));
            }
            proof {
                k = k + 1;
            }
        }
        assert(evs.skip(k).len() == 0);
        assert(evs.take(k) =~= evs);
        out
    }

    /// Handles one request. `minted` is a fresh uid, for a session whose uid is
    /// left to the daemon.
    pub fn dispatch(
        &mut self,
        cwds: &mut StrMap<String>,
        claims: &mut ClaimRegistry,
        msg: ClientMsg,
        me: &Identity,
        minted: &str,
    ) -> (r: Served)
        requires
            old(self).wf(),
            assoc_ordered(old(cwds)@),
            old(claims).wf(),
        ensures
            final(self).wf(),
            assoc_ordered(final(cwds)@),
            final(claims).wf(),
            final(claims).next() == old(claims).next(),
            r.action@ == action_for(
                msg@,
                me.proto_ver,
                me.daemon_pid,
                me.conn_id,
                me.build_id@,
                minted@,
                old(claims).claims(),
            ),
            msg matches ClientMsg::Resize { uid, cols, rows } ==> (r.action matches Action::Resize {
                uid: u,
                cols: c,
                rows: h,
            } && u@ == uid@ && c == cols && h == rows),
            msg matches ClientMsg::Write { uid, data } ==> (r.action matches Action::Write {
                uid: u,
                data: d,
            } && u@ == uid@ && d@ == data@),
            r.sessions == tells_sessions(msg@),
            final(self)@ == attached_after(old(self)@, msg@, minted@),
            final(cwds)@ == cwds_after(old(cwds)@, msg@),
            final(claims).claims() == claims_after(old(claims).claims(), msg@, me.conn_id),
            table_view(r.claims) == told(
                old(claims).claims(),
                final(claims).claims(),
                msg@ is Hello,
            ),
    {
        match msg {
            ClientMsg::Hello { proto_ver: _ } => {
                let hello = DaemonMsg::Hello {
                    proto_ver: me.proto_ver,
                    daemon_pid: me.daemon_pid,
                    conn_id: me.conn_id,
                    build_id: me.build_id.clone(),
                };
                Served { action: Action::Reply(hello), claims: tell(claims, true), sessions: true }
            },
            ClientMsg::ListSessions => quiet(Action::ListSessions),
            ClientMsg::Attach { uid } => {
                insert_sorted(&mut self.attached, uid.as_str());
                quiet(Action::SendReplay { uid })
            },
            ClientMsg::Create(spec) => {
                let uid = match &spec.uid {
                    Some(u) => u.clone(),
                    None => owned(minted),
                };
                insert_sorted(&mut self.attached, uid.as_str());
                Served { action: Action::Spawn(spec.into_options(uid)), claims: None, sessions: true }
            },
            ClientMsg::Write { uid, data } => quiet(Action::Write { uid, data }),
            ClientMsg::Resize { uid, cols, rows } => quiet(Action::Resize { uid, cols, rows }),
            ClientMsg::Kill { uid } => {
                proof {
                    lemma_remove_changes(claims.claims(), uid@);
                }
                let _ = cwds.remove(uid.as_str());
                let changed = claims.forget_uid(uid.as_str());
                Served { action: Action::Kill { uid }, claims: tell(claims, changed), sessions: true }
            },
            ClientMsg::KillAll => {
                *cwds = StrMap::new();
                let changed = claims.clear();
                assert(!changed ==> old(claims).claims() =~= Seq::<(Seq<char>, u64)>::empty());
                Served { action: Action::KillAll, claims: tell(claims, changed), sessions: true }
            },
            ClientMsg::RenderScreen { uid } => quiet(Action::SendScreen { uid }),
            ClientMsg::Ping => quiet(Action::Reply(DaemonMsg::Pong)),
            ClientMsg::Takeover => quiet(Action::HandOver),
            ClientMsg::Shutdown => quiet(Action::Shutdown),
            ClientMsg::Claim { uid } => {
                proof {
                    lemma_claim_changes(claims.claims(), uid@, me.conn_id);
                }
                let changed = claims.owner_of(uid.as_str()).is_none();
                let o = claims.claim(uid.as_str(), me.conn_id);
                let reply = DaemonMsg::ClaimResult { uid, granted: o.granted(), owner: o.owner() };
                Served { action: Action::Reply(reply), claims: tell(claims, changed), sessions: false }
            },
            ClientMsg::Release { uid } => {
                proof {
                    lemma_claim_changes(claims.claims(), uid@, me.conn_id);
                }
                let changed = claims.release(uid.as_str(), me.conn_id);
                Served { action: Action::Nothing, claims: tell(claims, changed), sessions: false }
            },
            ClientMsg::ListClaims => quiet(Action::Reply(DaemonMsg::Claims(claims.snapshot()))),
        }
    }

    /// Ends the connection `conn_id`: whatever it held is free, also where its
    /// process died. Returns the claim table that every other client is to be
    /// sent, where it changed.
    pub fn closed(self, claims: &mut ClaimRegistry, conn_id: u64) -> (r: Option<Vec<ClaimInfo>>)
        requires
            old(claims).wf(),
        ensures
            final(claims).wf(),
            final(claims).next() == old(claims).next(),
            final(claims).claims() == not_held_by(old(claims).claims(), conn_id),
            table_view(r) == told(old(claims).claims(), final(claims).claims(), false),
    {
        proof {
            lemma_not_held_members(claims.claims(), conn_id);
        }
        let changed = claims.release_conn(conn_id);
        tell(claims, changed)
    }
}

/// Something to do of which no other client is told.
fn quiet(action: Action) -> (r: Served)
    ensures
        r.action == action,
        r.claims is None,
        !r.sessions,
{
    Served { action, claims: None, sessions: false }
}

/// The exit code of a session that could not be spawned.
pub const SPAWN_FAILED: i32 = -1;

/// What is sent once a session was spawned or could not be: that it was
/// created, so that the client can tell which request this answers, and where
/// it could not, that it exited.
pub fn creation_replies(uid: &str, spawned: bool) -> (r: (DaemonMsg, Option<SessionEvent>))
    ensures
        r.0@ == (DaemonView::Created { uid: uid@ }),
        match r.1 {
            Some(ev) => !spawned && ev@ == (EventView::Exit { uid: uid@, code: SPAWN_FAILED }),
            None => spawned,
        },
{
    let exit = if spawned {
        None
    } else {
        Some(SessionEvent::Exit { uid: owned(uid), code: SPAWN_FAILED })
    };
    (DaemonMsg::Created { uid: owned(uid) }, exit)
}

/// The answer to an attach: what is retained, or nothing where there is no such
/// session.
pub fn replay_reply(uid: &str, retained: Option<(String, u64)>) -> (r: DaemonMsg)
    ensures
        r@ == (match retained {
            Some((d, c)) => DaemonView::Replay { uid: uid@, data: d@, cursor: c },
            None => DaemonView::Replay { uid: uid@, data: Seq::empty(), cursor: 0 },
        }),
{
    match retained {
        Some((data, cursor)) => DaemonMsg::Replay { uid: owned(uid), data, cursor },
        None => DaemonMsg::Replay { uid: owned(uid), data: String::new(), cursor: 0 },
    }
}

/// The directories that are known after an event.
pub open spec fn noted(cwds: Seq<(Seq<char>, Seq<char>)>, ev: EventView) -> Seq<
    (Seq<char>, Seq<char>),
> {
    match ev {
        EventView::Cwd { uid, cwd } => assoc_put(cwds, uid, cwd),
        _ => cwds,
    }
}

/// The claims after an event: a session that exited is nobody's.
pub open spec fn claims_noted(claims: Claims, ev: EventView) -> Claims {
    match ev {
        EventView::Exit { uid, code } => assoc_remove(claims, uid),
        _ => claims,
    }
}

/// Remembers the directory that an event reports, and forgets the claim of a
/// session that exited. Returns the claim table that every client is to be
/// sent, where it changed.
pub fn note_event(
    cwds: &mut StrMap<String>,
    claims: &mut ClaimRegistry,
    ev: &SessionEvent,
) -> (r: Option<Vec<ClaimInfo>>)
    requires
        assoc_ordered(old(cwds)@),
        old(claims).wf(),
    ensures
        assoc_ordered(final(cwds)@),
        final(cwds)@ == noted(old(cwds)@, ev@),
        final(claims).wf(),
        final(claims).next() == old(claims).next(),
        final(claims).claims() == claims_noted(old(claims).claims(), ev@),
        table_view(r) == told(old(claims).claims(), final(claims).claims(), false),
{
    match ev {
        SessionEvent::Cwd { uid, cwd } => {
            cwds.insert(uid.as_str(), cwd.clone());
            None
        },
        SessionEvent::Exit { uid, code: _ } => {
            proof {
                lemma_remove_changes(claims.claims(), uid@);
            }
            let changed = claims.forget_uid(uid.as_str());
            tell(claims, changed)
        },
        _ => None,
    }
}

/// What the registry says of a session.
#[derive(Debug, Clone, PartialEq, Eq)]
pub struct SessionInfo {
    pub uid: String,
    pub output_bytes: Option<u64>,
    pub last_output_at: Option<u64>,
    pub dims: Option<(u16, u16)>,
    /// What runs in the foreground of its terminal, where that is not its shell.
    pub foreground: Option<String>,
    /// Where that is.
    pub fg_cwd: Option<String>,
}

/// What the daemon says of a session, by what the registry says and the
/// directory that is known.
pub open spec fn described(info: SessionInfo, cwds: Seq<(Seq<char>, Seq<char>)>) -> MetaView {
    MetaView {
        uid: info.uid@,
        cwd: assoc_get(cwds, info.uid@),
        output_bytes: match info.output_bytes {
            Some(n) => n,
            None => 0,
        },
        last_output_at: info.last_output_at,
        alive: true,
        cols: match info.dims {
            Some((c, _)) => Some(c),
            None => None,
        },
        rows: match info.dims {
            Some((_, r)) => Some(r),
            None => None,
        },
        foreground: opt_view(info.foreground),
        fg_cwd: opt_view(info.fg_cwd),
    }
}

/// The list of sessions.
pub fn list_sessions(infos: &Vec<SessionInfo>, cwds: &StrMap<String>) -> (r: Vec<SessionMeta>)
    ensures
        meta_views(r@) == Seq::new(infos@.len(), |i: int| described(infos@[i], cwds@)),
{
    let mut out: Vec<SessionMeta> = Vec::new();
    let mut i: usize = 0;
    while i < infos.len()
        invariant
            i <= infos@.len(),
            out@.len() == i,
            forall|j: int| 0 <= j < i ==> (#[trigger] out@[j])@ == described(infos@[j], cwds@),
        decreases infos.len() - i,
    {
        let info = &infos[i];
        let cwd = match cwds.get(info.uid.as_str()) {
            Some(c) => Some(c.clone()),
            None => None,
        };
        let (cols, rows) = match info.dims {
            Some((c, r)) => (Some(c), Some(r)),
            None => (None, None),
        };
        let output_bytes: u64 = match info.output_bytes {
            Some(n) => n,
            None => 0,
        };
        out.push(
            SessionMeta {
                uid: info.uid.clone(),
                cwd,
                output_bytes,
                last_output_at: info.last_output_at,
                alive: true,
                cols,
                rows,
                foreground: crate::text::opt_copy(&info.foreground),
                fg_cwd: crate::text::opt_copy(&info.fg_cwd),
            },
        );
        i = i + 1;
    }
    assert(meta_views(out@) =~= Seq::new(infos@.len(), |i: int| described(infos@[i], cwds@)));
    out
}

/// The answer to a claim says what the table holds after it: granted exactly
/// where the client holds the session, else who does; and every client learns
/// of a table that changed.
pub proof fn law_claim_reply_is_what_holds(claims: Claims, uid: Seq<char>, conn: u64)
    ensures
        ({
            let after = claims_after(claims, ClientView::Claim { uid }, conn);
            let o = claim_outcome(claims, uid, conn);
            &&& o is Granted <==> assoc_get(after, uid) == Some(conn)
            &&& o matches ClaimOutcome::Denied(other) ==> assoc_get(after, uid) == Some(other)
                && other != conn
            &&& after != claims ==> told(claims, after, false) == Some(after)
        }),
{
    law_assoc_put_get(claims, uid, conn, uid);
}

/// Where a session is killed or exits, its claim goes with it, and no other.
pub proof fn law_dead_session_is_nobodys(
    claims: Claims,
    uid: Seq<char>,
    conn: u64,
    code: i32,
    other: Seq<char>,
)
    requires
        assoc_ordered(claims),
    ensures
        ({
            let killed = claims_after(claims, ClientView::Kill { uid }, conn);
            let exited = claims_noted(claims, EventView::Exit { uid, code });
            &&& killed == exited
            &&& assoc_get(killed, uid) is None
            &&& other != uid ==> assoc_get(killed, other) == assoc_get(claims, other)
        }),
{
    crate::assoc::law_assoc_remove_get(claims, uid, other);
}

/// A client that creates a session gets every event of it: it is attached
/// before the session is spawned.
pub proof fn law_creator_is_attached(
    attached: Seq<Seq<char>>,
    spec: SpecView,
    minted: Seq<char>,
)
    requires
        sorted(attached),
    ensures
        attached_after(attached, ClientView::Create(spec), minted).contains(
            spawn_uid(spec, minted),
        ),
        forall|u: Seq<char>| #[trigger]
            attached.contains(u) ==> attached_after(
                attached,
                ClientView::Create(spec),
                minted,
            ).contains(u),
{
    lemma_with_string(attached, spawn_uid(spec, minted));
}

proof fn lemma_with_string(s: Seq<Seq<char>>, x: Seq<char>)
    requires
        sorted(s),
    ensures
        with_string(s, x).contains(x),
        forall|u: Seq<char>| #[trigger] s.contains(u) ==> with_string(s, x).contains(u),
{
    let t = with_string(s, x);
    if !s.contains(x) {
        let k = crate::text::rank(s, x);
        crate::text::lemma_rank(s, x);
        assert(t == s.insert(k, x));
        assert(t[k] == x);
        assert forall|u: Seq<char>| #[trigger] s.contains(u) implies t.contains(u) by {
            let i = choose|i: int| 0 <= i < s.len() && s[i] == u;
            if i < k {
                assert(t[i] == u);
            } else {
                assert(t[i + 1] == u);
            }
        }
    }
}

} // verus!
