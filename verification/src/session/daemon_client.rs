//! The client of the session daemon: how it comes by a daemon of its own build
//! without costing anybody a terminal, and how it presents the daemon's
//! sessions as if they were its own.
//!
//! A daemon that holds live sessions is never torn down to force an upgrade.

use crate::assoc::{assoc_get, assoc_keys, assoc_ordered, assoc_put, assoc_remove, StrMap};
use crate::session::build_id::{differs, is_other_build};
use crate::session::claims::{claim_views, Claims, ConnId};
use crate::session::proto::{frame_views, meta_views, spawn_spec_from, spec_of, ClientMsg,
    ClientView, DaemonMsg, DaemonView, MetaView, SessionEvent, SessionMeta, SpawnOptions};
use crate::session::replay::Replay;
use crate::session::shadow::{after_event, all_seeded, apply_event_to_shadow, blank_shadow,
    countable, reconcile_snapshot, reconciled, seed_snapshot, shadow_or_blank, splice_replay,
    spliced, Shadow, ShadowView, Shadows};
use crate::text::{opt_copy, opt_view, owned, same, views};
use vstd::prelude::*;
use vstd::string::*;

verus! {

/// The oldest protocol version of a daemon that understands claims.
pub const MIN_CLAIM_DAEMON_VER: u32 = 3;

/// The oldest protocol version of a daemon that can be driven at all.
pub const MIN_DRIVABLE_DAEMON_VER: u32 = 1;

/// How long a screen is waited for, in milliseconds.
pub const SCREEN_TIMEOUT_MS: u64 = 2000;

/// How long a spawned daemon is waited for, in milliseconds.
pub const SPAWN_CONNECT_BUDGET_MS: u64 = 5000;

/// How long a greeting is waited for, in milliseconds.
pub const PROBE_TIMEOUT_MS: u64 = 2000;

/// How many frames are looked at for the answer to a greeting.
pub const PROBE_FRAMES: usize = 8;

/// How long a takeover is waited for, in milliseconds.
pub const TAKEOVER_BUDGET_MS: u64 = 8000;

// ---------------------------------------------------------------------------
// Versions
// ---------------------------------------------------------------------------

/// What a client does about a daemon of another version.
#[derive(Debug, Clone, Copy, PartialEq, Eq, Structural)]
pub enum VersionPolicy {
    /// The daemon is upgraded before it is used.
    LockStep,
    /// The daemon is used as it is: it holds terminals that cannot be moved.
    Tolerant,
}

/// What the answer to a greeting says of a daemon.
#[derive(Debug, Clone, PartialEq, Eq)]
pub enum ProtoCheck {
    /// It can be used as it is.
    Match,
    /// It speaks our protocol and is another build.
    BuildMismatch { daemon_build: String },
    /// It speaks another version of the protocol.
    Mismatch { daemon_ver: u32 },
}

/// What the answer to a greeting says of a daemon.
pub enum CheckView {
    Match,
    BuildMismatch { daemon_build: Seq<char> },
    Mismatch { daemon_ver: u32 },
}

impl View for ProtoCheck {
    type V = CheckView;

    open spec fn view(&self) -> CheckView {
        match self {
            ProtoCheck::Match => CheckView::Match,
            ProtoCheck::BuildMismatch { daemon_build } => CheckView::BuildMismatch {
                daemon_build: daemon_build@,
            },
            ProtoCheck::Mismatch { daemon_ver } => CheckView::Mismatch { daemon_ver: *daemon_ver },
        }
    }
}

/// What a daemon's version and build say of it. An unknown build never counts
/// as another.
pub open spec fn identity(own_ver: u32, own_build: Seq<char>, ver: u32, build: Seq<char>) -> CheckView {
    if ver != own_ver {
        CheckView::Mismatch { daemon_ver: ver }
    } else if is_other_build(own_build, build) {
        CheckView::BuildMismatch { daemon_build: build }
    } else {
        CheckView::Match
    }
}

/// What frames that follow a greeting say of the daemon: the first answer
/// decides, among as many frames as are looked at. Where none of them is an
/// answer the daemon is used as it is.
pub open spec fn probed(
    own_ver: u32,
    own_build: Seq<char>,
    frames: Seq<DaemonView>,
    n: nat,
) -> CheckView
    decreases n,
{
    if n == 0 || frames.len() == 0 {
        CheckView::Match
    } else {
        match frames[0] {
            DaemonView::Hello { proto_ver, daemon_pid, conn_id, build_id } => identity(
                own_ver,
                own_build,
                proto_ver,
                build_id,
            ),
            _ => probed(own_ver, own_build, frames.skip(1), (n - 1) as nat),
        }
    }
}

/// What a frame says of a daemon that was greeted; nothing, where it is not the
/// answer.
pub fn probe_frame(own_ver: u32, own_build: &str, frame: &DaemonMsg) -> (r: Option<ProtoCheck>)
    ensures
        match r {
            Some(c) => frame@ matches DaemonView::Hello {
                proto_ver,
                daemon_pid,
                conn_id,
                build_id,
            } && c@ == identity(own_ver, own_build@, proto_ver, build_id),
            None => !(frame@ is Hello),
        },
{
    match frame {
        DaemonMsg::Hello { proto_ver, daemon_pid, conn_id, build_id } => {
            if *proto_ver != own_ver {
                Some(ProtoCheck::Mismatch { daemon_ver: *proto_ver })
            } else if differs(own_build, build_id.as_str()) {
                Some(ProtoCheck::BuildMismatch { daemon_build: build_id.clone() })
            } else {
                Some(ProtoCheck::Match)
            }
        },
        _ => None,
    }
}

/// What frames that follow a greeting say of the daemon.
pub fn probe_daemon_identity(own_ver: u32, own_build: &str, frames: &[DaemonMsg]) -> (r: ProtoCheck)
    ensures
        r@ == probed(own_ver, own_build@, frame_views(frames@), PROBE_FRAMES as nat),
{
    let ghost fs = frame_views(frames@);
    let mut i: usize = 0;
    assert(fs.skip(0) =~= fs);
    while i < frames.len() && i < PROBE_FRAMES
        invariant
            i <= frames@.len(),
            i <= PROBE_FRAMES,
            fs == frame_views(frames@),
            probed(own_ver, own_build@, fs, PROBE_FRAMES as nat) == probed(
                own_ver,
                own_build@,
                fs.skip(i as int),
                (PROBE_FRAMES - i) as nat,
            ),
        decreases frames.len() - i,
    {
        assert(fs.skip(i as int)[0] == frames@[i as int]@);
        assert(fs.skip(i as int).skip(1) =~= fs.skip(i + 1));
        if let Some(c) = probe_frame(own_ver, own_build, &frames[i]) {
            return c;
        }
        i = i + 1;
    }
    ProtoCheck::Match
}

/// A daemon that reports no build is never taken for another build.
pub proof fn law_unknown_build_is_a_match(own_ver: u32, own_build: Seq<char>)
    ensures
        identity(own_ver, own_build, own_ver, Seq::empty()) == CheckView::Match,
        identity(own_ver, own_build, own_ver, own_build) == CheckView::Match,
{
}

/// What to do with a stale daemon that did not hand its sessions over.
#[derive(Debug, Clone, Copy, PartialEq, Eq, Structural)]
pub enum StaleFallback {
    /// It holds terminals and can be driven: use it as it is.
    Drive,
    /// It holds nothing: replace it.
    TearDown,
    /// It holds terminals and is too old: leave it alone.
    Refuse,
}

/// What to do with a stale daemon, by how many live sessions it holds. Where
/// that is not known it counts as holding some.
pub open spec fn fallback(live: Option<usize>, daemon_ver: u32) -> StaleFallback {
    if live == Some(0usize) {
        StaleFallback::TearDown
    } else if daemon_ver >= MIN_DRIVABLE_DAEMON_VER {
        StaleFallback::Drive
    } else {
        StaleFallback::Refuse
    }
}

/// What to do with a stale daemon that did not hand its sessions over.
pub fn stale_daemon_fallback(live: Option<usize>, daemon_ver: u32) -> (r: StaleFallback)
    ensures
        r == fallback(live, daemon_ver),
{
    match live {
        Some(n) if n == 0 => StaleFallback::TearDown,
        _ => {
            if daemon_ver >= MIN_DRIVABLE_DAEMON_VER {
                StaleFallback::Drive
            } else {
                StaleFallback::Refuse
            }
        },
    }
}

/// A daemon is torn down only where it is known to hold no live session.
pub proof fn law_live_sessions_are_never_torn_down(live: Option<usize>, daemon_ver: u32)
    ensures
        fallback(live, daemon_ver) == StaleFallback::TearDown <==> live == Some(0usize),
{
}

/// How many sessions of a list are live.
pub open spec fn live_count(metas: Seq<MetaView>) -> nat
    decreases metas.len(),
{
    if metas.len() == 0 {
        0
    } else {
        live_count(metas.drop_last()) + (if metas.last().alive {
            1nat
        } else {
            0nat
        })
    }
}

/// How many sessions the first list among frames says are live.
pub open spec fn counted(frames: Seq<DaemonView>) -> Option<nat>
    decreases frames.len(),
{
    if frames.len() == 0 {
        None
    } else {
        match frames[0] {
            DaemonView::Sessions(metas) => Some(live_count(metas)),
            _ => counted(frames.skip(1)),
        }
    }
}

/// How many live sessions the daemon holds, by the frames that came after a
/// request for its sessions. Frames that are not the answer are passed over;
/// where none is, the number is not known.
pub fn live_session_count(frames: &[DaemonMsg]) -> (r: Option<usize>)
    ensures
        match r {
            Some(n) => counted(frame_views(frames@)) == Some(n as nat),
            None => counted(frame_views(frames@)) is None,
        },
{
    let ghost fs = frame_views(frames@);
    let mut i: usize = 0;
    assert(fs.skip(0) =~= fs);
    while i < frames.len()
        invariant
            i <= frames@.len(),
            fs == frame_views(frames@),
            counted(fs) == counted(fs.skip(i as int)),
        decreases frames.len() - i,
    {
        assert(fs.skip(i as int)[0] == frames@[i as int]@);
        assert(fs.skip(i as int).skip(1) =~= fs.skip(i + 1));
        if let DaemonMsg::Sessions(metas) = &frames[i] {
            return Some(count_live(metas.as_slice()));
        }
        i = i + 1;
    }
    None
}

/// How many sessions of a list are live.
fn count_live(metas: &[SessionMeta]) -> (r: usize)
    ensures
        r == live_count(meta_views(metas@)),
        r <= metas@.len(),
{
    let ghost ms = meta_views(metas@);
    let mut n: usize = 0;
    let mut i: usize = 0;
    assert(ms.take(0) =~= Seq::<MetaView>::empty());
    while i < metas.len()
        invariant
            i <= metas@.len(),
            n <= i,
            ms == meta_views(metas@),
            n == live_count(ms.take(i as int)),
        decreases metas.len() - i,
    {
        assert(ms.take(i + 1).drop_last() =~= ms.take(i as int));
        assert(ms.take(i + 1).last() == metas@[i as int]@);
        if metas[i].alive {
            n = n + 1;
        }
        i = i + 1;
    }
    assert(ms.take(i as int) =~= ms);
    n
}

/// The pause after a pause between two attempts to connect: twice as long, up
/// to a fifth of a second.
pub fn next_backoff(ms: u64) -> (r: u64)
    ensures
        r == (if ms <= 100 {
            2 * ms
        } else {
            200
        }),
{
    if ms <= 100 {
        2 * ms
    } else {
        200
    }
}

// ---------------------------------------------------------------------------
// Coming by a daemon
// ---------------------------------------------------------------------------

/// What the client is waiting for.
#[derive(Debug, Clone, Copy, PartialEq, Eq, Structural)]
pub enum Phase {
    /// The answer to a greeting.
    Probing,
    /// The end of a takeover for the sake of another build.
    HandingBuild,
    /// The end of a takeover from a daemon of this version.
    HandingVersion(u32),
    /// The number of sessions of a daemon of this version.
    Counting(u32),
    /// The end of a daemon that held nothing.
    TearingDown,
    /// Nothing: it is decided.
    Done,
}

/// How far the client is in coming by a daemon.
#[derive(Debug, Clone, Copy, PartialEq, Eq, Structural)]
pub struct Negotiation {
    pub policy: VersionPolicy,
    /// How many greetings came before this one.
    pub attempt: u8,
    /// A takeover for the sake of another build was asked for.
    pub forced_build_upgrade: bool,
    pub phase: Phase,
}

/// What the client is to do.
#[derive(Debug, Clone, Copy, PartialEq, Eq, Structural)]
pub enum Move {
    /// Connect, with a daemon spawned if there is none, and greet it.
    Probe,
    /// Use the connection that was greeted.
    UseIt,
    /// Connect anew and use that connection as it is.
    ReconnectAndUse,
    /// Spawn a daemon that takes the sessions over.
    HandOver,
    /// Ask the daemon how many sessions it holds.
    CountSessions,
    /// Shut the daemon down.
    TearDown,
    /// Leave the daemon alone and give up.
    Refuse,
}

/// What came of a move.
#[derive(Debug, Clone, Copy, PartialEq, Eq, Structural)]
pub enum Outcome {
    /// The daemon is one to use.
    Matched,
    /// It is another build.
    OtherBuild,
    /// It speaks this version.
    OtherVersion(u32),
    /// Whether a daemon of our own now serves.
    HandedOver(bool),
    /// How many sessions it holds, where it said.
    Counted(Option<usize>),
    /// It was shut down.
    TornDown,
}

/// How many greetings there are at most.
pub const ATTEMPTS: u8 = 3;

/// The next greeting, or the end of them: the daemon is then used as it is.
pub open spec fn next_attempt(n: Negotiation) -> (Negotiation, Move) {
    if n.attempt + 1 < ATTEMPTS {
        (
            Negotiation { attempt: (n.attempt + 1) as u8, phase: Phase::Probing, ..n },
            Move::Probe,
        )
    } else {
        (Negotiation { phase: Phase::Done, ..n }, Move::ReconnectAndUse)
    }
}

/// What is decided.
pub open spec fn decided(n: Negotiation, m: Move) -> (Negotiation, Move) {
    (Negotiation { phase: Phase::Done, ..n }, m)
}

/// The next move, after what came of the last one. What cannot come of it
/// leaves the daemon alone.
pub open spec fn negotiated(n: Negotiation, o: Outcome) -> (Negotiation, Move) {
    match (n.phase, o) {
        (Phase::Probing, Outcome::Matched) => decided(n, Move::UseIt),
        (Phase::Probing, Outcome::OtherBuild) => if n.policy == VersionPolicy::Tolerant
            || n.forced_build_upgrade {
            decided(n, Move::UseIt)
        } else {
            (
                Negotiation { forced_build_upgrade: true, phase: Phase::HandingBuild, ..n },
                Move::HandOver,
            )
        },
        (Phase::Probing, Outcome::OtherVersion(v)) => if n.policy == VersionPolicy::Tolerant {
            decided(n, Move::UseIt)
        } else {
            (Negotiation { phase: Phase::HandingVersion(v), ..n }, Move::HandOver)
        },
        (Phase::HandingBuild, Outcome::HandedOver(ok)) => if ok {
            next_attempt(n)
        } else {
            decided(n, Move::ReconnectAndUse)
        },
        (Phase::HandingVersion(v), Outcome::HandedOver(ok)) => if ok {
            next_attempt(n)
        } else {
            (Negotiation { phase: Phase::Counting(v), ..n }, Move::CountSessions)
        },
        (Phase::Counting(v), Outcome::Counted(live)) => match fallback(live, v) {
            StaleFallback::TearDown => (
                Negotiation { phase: Phase::TearingDown, ..n },
                Move::TearDown,
            ),
            StaleFallback::Drive => decided(n, Move::ReconnectAndUse),
            StaleFallback::Refuse => decided(n, Move::Refuse),
        },
        (Phase::TearingDown, Outcome::TornDown) => next_attempt(n),
        _ => decided(n, Move::Refuse),
    }
}

impl Negotiation {
    /// The start, and the first move.
    pub fn new(policy: VersionPolicy) -> (r: (Negotiation, Move))
        ensures
            r.0 == (Negotiation {
                policy,
                attempt: 0,
                forced_build_upgrade: false,
                phase: Phase::Probing,
            }),
            r.1 == Move::Probe,
    {
        (
            Negotiation {
                policy,
                attempt: 0,
                forced_build_upgrade: false,
                phase: Phase::Probing,
            },
            Move::Probe,
        )
    }

    fn again(self) -> (r: (Negotiation, Move))
        ensures
            r == next_attempt(self),
    {
        if self.attempt < ATTEMPTS - 1 {
            (
                Negotiation {
                    policy: self.policy,
                    attempt: self.attempt + 1,
                    forced_build_upgrade: self.forced_build_upgrade,
                    phase: Phase::Probing,
                },
                Move::Probe,
            )
        } else {
            self.done(Move::ReconnectAndUse)
        }
    }

    fn at(self, phase: Phase) -> (r: Negotiation)
        ensures
            r == (Negotiation { phase, ..self }),
    {
        Negotiation {
            policy: self.policy,
            attempt: self.attempt,
            forced_build_upgrade: self.forced_build_upgrade,
            phase,
        }
    }

    fn done(self, m: Move) -> (r: (Negotiation, Move))
        ensures
            r == decided(self, m),
    {
        (self.at(Phase::Done), m)
    }

    /// The next move, after what came of the last one.
    pub fn next(self, o: Outcome) -> (r: (Negotiation, Move))
        ensures
            r == negotiated(self, o),
    {
        match (self.phase, o) {
            (Phase::Probing, Outcome::Matched) => self.done(Move::UseIt),
            (Phase::Probing, Outcome::OtherBuild) => {
                if self.policy == VersionPolicy::Tolerant || self.forced_build_upgrade {
                    self.done(Move::UseIt)
                } else {
                    (
                        Negotiation {
                            policy: self.policy,
                            attempt: self.attempt,
                            forced_build_upgrade: true,
                            phase: Phase::HandingBuild,
                        },
                        Move::HandOver,
                    )
                }
            },
            (Phase::Probing, Outcome::OtherVersion(v)) => {
                if self.policy == VersionPolicy::Tolerant {
                    self.done(Move::UseIt)
                } else {
                    (self.at(Phase::HandingVersion(v)), Move::HandOver)
                }
            },
            (Phase::HandingBuild, Outcome::HandedOver(ok)) => {
                if ok {
                    self.again()
                } else {
                    self.done(Move::ReconnectAndUse)
                }
            },
            (Phase::HandingVersion(v), Outcome::HandedOver(ok)) => {
                if ok {
                    self.again()
                } else {
                    (self.at(Phase::Counting(v)), Move::CountSessions)
                }
            },
            (Phase::Counting(v), Outcome::Counted(live)) => {
                match stale_daemon_fallback(live, v) {
                    StaleFallback::TearDown => (self.at(Phase::TearingDown), Move::TearDown),
                    StaleFallback::Drive => self.done(Move::ReconnectAndUse),
                    StaleFallback::Refuse => self.done(Move::Refuse),
                }
            },
            (Phase::TearingDown, Outcome::TornDown) => self.again(),
            _ => self.done(Move::Refuse),
        }
    }
}

/// Whatever happens, a daemon is torn down only after it said that it holds no
/// live session.
pub proof fn law_negotiation_spares_live_sessions(n: Negotiation, o: Outcome)
    requires
        negotiated(n, o).1 == Move::TearDown,
    ensures
        o == Outcome::Counted(Some(0usize)),
{
}

/// A tolerant client never asks for a takeover and never tears a daemon down.
pub proof fn law_tolerant_client_takes_what_is_there(n: Negotiation, o: Outcome)
    requires
        n.policy == VersionPolicy::Tolerant,
        n.phase == Phase::Probing,
        o is Matched || o is OtherBuild || o is OtherVersion,
    ensures
        negotiated(n, o) == decided(n, Move::UseIt),
{
}

/// A takeover for the sake of another build is asked for at most once: after
/// it, a daemon of another build is used as it is.
pub proof fn law_build_takeover_happens_once(n: Negotiation, o: Outcome)
    ensures
        negotiated(n, o).0.phase == Phase::HandingBuild ==> !n.forced_build_upgrade && negotiated(
            n,
            o,
        ).0.forced_build_upgrade,
        n.forced_build_upgrade ==> negotiated(n, o).0.forced_build_upgrade,
        n.forced_build_upgrade && n.phase == Phase::Probing && o is OtherBuild ==> negotiated(
            n,
            o,
        ) == decided(n, Move::UseIt),
{
}

/// How many moves are left at most.
pub open spec fn moves_left(n: Negotiation) -> int {
    match n.phase {
        Phase::Done => 0,
        Phase::Probing => 4 * (ATTEMPTS - n.attempt),
        Phase::HandingBuild => 4 * (ATTEMPTS - n.attempt) - 1,
        Phase::HandingVersion(_) => 4 * (ATTEMPTS - n.attempt) - 1,
        Phase::Counting(_) => 4 * (ATTEMPTS - n.attempt) - 2,
        Phase::TearingDown => 4 * (ATTEMPTS - n.attempt) - 3,
    }
}

/// The client comes to a decision: with every move fewer are left.
pub proof fn law_negotiation_ends(n: Negotiation, o: Outcome)
    requires
        n.attempt < ATTEMPTS,
        n.phase != Phase::Done,
    ensures
        0 <= moves_left(negotiated(n, o).0) < moves_left(n),
        negotiated(n, o).0.attempt < ATTEMPTS,
{
}

// ---------------------------------------------------------------------------
// The manager
// ---------------------------------------------------------------------------

/// What a client holds of its connection to the daemon.
#[verifier::ext_equal]
pub struct ManagerView {
    pub shadows: Shadows,
    pub claims: Claims,
    /// Our own connection id; 0 where the daemon gave none.
    pub conn_id: u64,
    /// The daemon's protocol version; 0 where it did not answer.
    pub daemon_ver: u32,
    /// The connection is there. Once it is gone it stays gone.
    pub connected: bool,
}

/// The sessions of the daemon, as one client sees them. A request that is to be
/// sent is returned.
pub struct DaemonSessionManager {
    shadows: StrMap<Shadow>,
    claims: StrMap<u64>,
    conn_id: u64,
    daemon_ver: u32,
    connected: bool,
}

impl View for DaemonSessionManager {
    type V = ManagerView;

    closed spec fn view(&self) -> ManagerView {
        ManagerView {
            shadows: self.shadows@,
            claims: self.claims@,
            conn_id: self.conn_id,
            daemon_ver: self.daemon_ver,
            connected: self.connected,
        }
    }
}

/// What the client does with a message that came.
pub enum Received {
    /// Hand the event on.
    Forward(SessionEvent),
    /// It answers a request.
    Reply(DaemonMsg),
    /// Nothing more.
    Absorbed,
}

/// The claim table of a list: of two entries of one uid the last counts.
pub open spec fn claim_table(list: Claims) -> Claims
    decreases list.len(),
{
    if list.len() == 0 {
        list
    } else {
        assoc_put(claim_table(list.drop_last()), list.last().0, list.last().1)
    }
}

/// What a message makes of what the client holds.
pub open spec fn after_message(m: ManagerView, msg: DaemonView, now: u64) -> ManagerView {
    match msg {
        DaemonView::Event(ev) => ManagerView { shadows: after_event(m.shadows, ev, now), ..m },
        DaemonView::Replay { uid, data, cursor } => if data.len() == 0 {
            m
        } else {
            ManagerView {
                shadows: assoc_put(
                    m.shadows,
                    uid,
                    spliced(shadow_or_blank(m.shadows, uid), cursor, data),
                ),
                ..m
            }
        },
        DaemonView::Claims(list) => ManagerView { claims: claim_table(list), ..m },
        DaemonView::SessionsChanged(metas) => ManagerView {
            shadows: reconciled(m.shadows, metas),
            ..m
        },
        _ => m,
    }
}

/// Whether a claim is held by another connection than ours.
pub open spec fn elsewhere(claims: Claims, me: u64) -> Seq<Seq<char>>
    decreases claims.len(),
{
    if claims.len() == 0 {
        Seq::empty()
    } else if claims.last().1 != me {
        elsewhere(claims.drop_last(), me).push(claims.last().0)
    } else {
        elsewhere(claims.drop_last(), me)
    }
}

/// What is said once the daemon is gone.
pub const GONE: &'static str = "the session daemon is no longer running; its panes are gone";

/// What is said of a daemon that is too old to drive and holds sessions.
pub const TOO_OLD: &'static str =
    "a daemon too old to drive holds live sessions for this salt; it was left running rather than killed";

impl DaemonSessionManager {
    /// The sessions and the claims are in order.
    pub closed spec fn wf(self) -> bool {
        assoc_ordered(self.shadows@) && assoc_ordered(self.claims@)
    }

    /// A client that just connected.
    pub fn new() -> (r: DaemonSessionManager)
        ensures
            r.wf(),
            r@ == (ManagerView {
                shadows: Seq::empty(),
                claims: Seq::empty(),
                conn_id: 0,
                daemon_ver: 0,
                connected: true,
            }),
    {
        DaemonSessionManager {
            shadows: StrMap::new(),
            claims: StrMap::new(),
            conn_id: 0,
            daemon_ver: 0,
            connected: true,
        }
    }

    /// The daemon answered the greeting.
    pub fn greeted(&mut self, conn_id: ConnId, daemon_ver: u32)
        requires
            old(self).wf(),
        ensures
            final(self).wf(),
            final(self)@ == (ManagerView { conn_id, daemon_ver, ..old(self)@ }),
    {
        self.conn_id = conn_id;
        self.daemon_ver = daemon_ver;
    }

    /// The daemon answered the first request for its sessions. Returns what to
    /// send: a request to attach to each, and behind them, where there are any,
    /// a ping. The daemon answers in order, so that once the ping is answered
    /// every session's output is here.
    pub fn seed_from_daemon(&mut self, metas: &[SessionMeta]) -> (r: Vec<ClientMsg>)
        requires
            old(self).wf(),
        ensures
            final(self).wf(),
            final(self)@ == (ManagerView {
                shadows: all_seeded(old(self)@.shadows, meta_views(metas@)),
                ..old(self)@
            }),
            r@.len() == (if metas@.len() == 0 {
                0
            } else {
                metas@.len() + 1
            }),
            forall|i: int|
                0 <= i < metas@.len() ==> (#[trigger] r@[i])@ == (ClientView::Attach {
                    uid: metas@[i].uid@,
                }),
            metas@.len() > 0 ==> r@.last()@ == ClientView::Ping,
    {
        seed_snapshot(&mut self.shadows, metas);
        let mut out: Vec<ClientMsg> = Vec::new();
        let mut i: usize = 0;
        while i < metas.len()
            invariant
                i <= metas@.len(),
                out@.len() == i,
                forall|j: int|
                    0 <= j < i ==> (#[trigger] out@[j])@ == (ClientView::Attach {
                        uid: metas@[j].uid@,
                    }),
            decreases metas.len() - i,
        {
            out.push(ClientMsg::Attach { uid: metas[i].uid.clone() });
            i = i + 1;
        }
        if metas.len() > 0 {
            out.push(ClientMsg::Ping);
        }
        out
    }

    /// Takes a message in, which came at `now_ms`.
    pub fn receive(&mut self, msg: DaemonMsg, now_ms: u64) -> (r: Received)
        requires
            old(self).wf(),
            msg@ matches DaemonView::Event(ev) ==> countable(old(self)@.shadows, ev),
        ensures
            final(self).wf(),
            final(self)@ == after_message(old(self)@, msg@, now_ms),
            match r {
                Received::Forward(ev) => msg@ == DaemonView::Event(ev@),
                Received::Reply(m) => m == msg && !(msg@ is Event) && !(msg@ is Replay)
                    && !(msg@ is Claims) && !(msg@ is SessionsChanged),
                Received::Absorbed => msg@ is Replay || msg@ is Claims || msg@ is SessionsChanged,
            },
    {
        match msg {
            DaemonMsg::Event(ev) => {
                apply_event_to_shadow(&mut self.shadows, &ev, now_ms);
                Received::Forward(ev)
            },
            DaemonMsg::Replay { uid, data, cursor } => {
                if !data.as_str().is_empty() {
                    let mut sh = match self.shadows.get(uid.as_str()) {
                        Some(s) => s.copy(),
                        None => Shadow::new(),
                    };
                    splice_replay(&mut sh, cursor, data.as_str());
                    self.shadows.insert(uid.as_str(), sh);
                }
                Received::Absorbed
            },
            DaemonMsg::Claims(list) => {
                let ghost all = claim_views(list@);
                let mut table: StrMap<u64> = StrMap::new();
                let mut i: usize = 0;
                assert(all.take(0) =~= Seq::<(Seq<char>, u64)>::empty());
                while i < list.len()
                    invariant
                        i <= list@.len(),
                        all == claim_views(list@),
                        table@ == claim_table(all.take(i as int)),
                        assoc_ordered(table@),
                    decreases list.len() - i,
                {
                    assert(all.take(i + 1).drop_last() =~= all.take(i as int));
                    assert(all.take(i + 1).last() == all[i as int]);
                    table.insert(list[i].uid.as_str(), list[i].owner);
                    i = i + 1;
                }
                assert(all.take(i as int) =~= all);
                self.claims = table;
                Received::Absorbed
            },
            DaemonMsg::SessionsChanged(metas) => {
                reconcile_snapshot(&mut self.shadows, metas.as_slice());
                Received::Absorbed
            },
            other => Received::Reply(other),
        }
    }

    /// The connection is gone, for good.
    pub fn note_disconnected(&mut self)
        requires
            old(self).wf(),
        ensures
            final(self).wf(),
            final(self)@ == (ManagerView { connected: false, ..old(self)@ }),
    {
        self.connected = false;
    }

    /// Whether the connection is there.
    pub fn is_connected(&self) -> (r: bool)
        ensures
            r == self@.connected,
    {
        self.connected
    }

    /// Asks for a session under the client's own uid. It is known from now on,
    /// and counts as not confirmed.
    pub fn create(&mut self, opts: SpawnOptions) -> (r: ClientMsg)
        requires
            old(self).wf(),
        ensures
            final(self).wf(),
            r@ == ClientView::Create(spec_of(opts@)),
            final(self)@ == (ManagerView {
                shadows: match assoc_get(old(self)@.shadows, opts@.uid) {
                    Some(_) => old(self)@.shadows,
                    None => assoc_put(
                        old(self)@.shadows,
                        opts@.uid,
                        (ShadowView { pending: true, ..blank_shadow() }),
                    ),
                },
                ..old(self)@
            }),
    {
        if !self.shadows.contains(opts.uid.as_str()) {
            self.shadows.insert(opts.uid.as_str(), Shadow::new_pending());
        }
        ClientMsg::Create(spawn_spec_from(opts))
    }

    /// Whether a session is live. A daemon that is gone holds none.
    pub fn has(&self, uid: &str) -> (r: bool)
        ensures
            r == (self@.connected && assoc_get(self@.shadows, uid@) is Some),
    {
        self.connected && self.shadows.contains(uid)
    }

    /// The live sessions; none, once the daemon is gone.
    pub fn uids(&self) -> (r: Vec<String>)
        ensures
            views(r@) == (if self@.connected {
                assoc_keys(self@.shadows)
            } else {
                Seq::empty()
            }),
    {
        if self.connected {
            self.shadows.keys()
        } else {
            let none: Vec<String> = Vec::new();
            assert(views(none@) =~= Seq::<Seq<char>>::empty());
            none
        }
    }

    /// The recent output of a session.
    pub fn replay(&self, uid: &str) -> (r: Option<String>)
        ensures
            opt_view(r) == (match assoc_get(self@.shadows, uid@) {
                Some(sh) => Some(sh.replay),
                None => None,
            }),
    {
        match self.shadows.get(uid) {
            Some(s) => Some(owned(s.replay.get())),
            None => None,
        }
    }

    /// The grid of a session, where it is known.
    pub fn dims(&self, uid: &str) -> (r: Option<(u16, u16)>)
        ensures
            r == (match assoc_get(self@.shadows, uid@) {
                Some(sh) => sh.dims,
                None => None,
            }),
    {
        match self.shadows.get(uid) {
            Some(s) => s.dims,
            None => None,
        }
    }

    /// The output cursor of a session.
    pub fn output_bytes(&self, uid: &str) -> (r: Option<u64>)
        ensures
            r == (match assoc_get(self@.shadows, uid@) {
                Some(sh) => Some(sh.output_bytes),
                None => None,
            }),
    {
        match self.shadows.get(uid) {
            Some(s) => Some(s.output_bytes),
            None => None,
        }
    }

    /// The recent output of a session and its cursor.
    pub fn replay_with_cursor(&self, uid: &str) -> (r: Option<(String, u64)>)
        ensures
            match r {
                Some((d, c)) => assoc_get(self@.shadows, uid@) matches Some(sh) && d@ == sh.replay
                    && c == sh.output_bytes,
                None => assoc_get(self@.shadows, uid@) is None,
            },
    {
        match self.shadows.get(uid) {
            Some(s) => Some((owned(s.replay.get()), s.output_bytes)),
            None => None,
        }
    }

    /// When output of a session last came.
    pub fn last_output_at(&self, uid: &str) -> (r: Option<u64>)
        ensures
            r == (match assoc_get(self@.shadows, uid@) {
                Some(sh) => sh.last_output_at,
                None => None,
            }),
    {
        match self.shadows.get(uid) {
            Some(s) => s.last_output_at,
            None => None,
        }
    }

    /// What runs in the foreground of a session, where it is known.
    pub fn foreground_name(&self, uid: &str) -> (r: Option<String>)
        ensures
            opt_view(r) == (match assoc_get(self@.shadows, uid@) {
                Some(sh) => sh.foreground,
                None => None,
            }),
    {
        match self.shadows.get(uid) {
            Some(s) => opt_copy(&s.foreground),
            None => None,
        }
    }

    /// Where that is.
    pub fn foreground_cwd(&self, uid: &str) -> (r: Option<String>)
        ensures
            opt_view(r) == (match assoc_get(self@.shadows, uid@) {
                Some(sh) => sh.fg_cwd,
                None => None,
            }),
    {
        match self.shadows.get(uid) {
            Some(s) => opt_copy(&s.fg_cwd),
            None => None,
        }
    }

    /// The request for a session's screen.
    pub fn render_screen(&self, uid: &str) -> (r: ClientMsg)
        ensures
            r@ == (ClientView::RenderScreen { uid: uid@ }),
    {
        ClientMsg::RenderScreen { uid: owned(uid) }
    }

    /// Whether a reply is the screen of a session, and what it shows.
    pub fn screen_reply(reply: &DaemonMsg, uid: &str) -> (r: Option<Option<String>>)
        ensures
            match r {
                Some(t) => reply@ == (DaemonView::Screen { uid: uid@, text: opt_view(t) }),
                None => !(reply@ matches DaemonView::Screen { uid: u, text } && u == uid@),
            },
    {
        match reply {
            DaemonMsg::Screen { uid: u, text } => {
                if same(u.as_str(), uid) {
                    Some(opt_copy(text))
                } else {
                    None
                }
            },
            _ => None,
        }
    }

    /// The request to write input to a session; an error, once the daemon is
    /// gone.
    pub fn write(&self, uid: &str, data: &str) -> (r: Result<ClientMsg, String>)
        ensures
            match r {
                Ok(m) => self@.connected && m@ == (ClientView::Write { uid: uid@, data: data@ }),
                Err(e) => !self@.connected && e@ == GONE@,
            },
    {
        if self.connected {
            Ok(ClientMsg::Write { uid: owned(uid), data: owned(data) })
        } else {
            Err(owned(GONE))
        }
    }

    /// The request to resize a session.
    pub fn resize(&self, uid: &str, cols: u16, rows: u16) -> (r: ClientMsg)
        ensures
            r@ == (ClientView::Resize { uid: uid@, cols, rows }),
    {
        ClientMsg::Resize { uid: owned(uid), cols, rows }
    }

    /// Kills a session: it is forgotten at once.
    pub fn kill(&mut self, uid: &str) -> (r: ClientMsg)
        requires
            old(self).wf(),
        ensures
            final(self).wf(),
            r@ == (ClientView::Kill { uid: uid@ }),
            final(self)@ == (ManagerView {
                shadows: assoc_remove(old(self)@.shadows, uid@),
                ..old(self)@
            }),
    {
        let _ = self.shadows.remove(uid);
        ClientMsg::Kill { uid: owned(uid) }
    }

    /// Kills every session.
    pub fn kill_all(&mut self) -> (r: ClientMsg)
        requires
            old(self).wf(),
        ensures
            final(self).wf(),
            r@ == ClientView::KillAll,
            final(self)@ == (ManagerView { shadows: Seq::empty(), ..old(self)@ }),
    {
        self.shadows = StrMap::new();
        ClientMsg::KillAll
    }

    /// Shuts the daemon down, with every session.
    pub fn shutdown_daemon(&mut self) -> (r: ClientMsg)
        requires
            old(self).wf(),
        ensures
            final(self).wf(),
            r@ == ClientView::Shutdown,
            final(self)@ == (ManagerView { shadows: Seq::empty(), ..old(self)@ }),
    {
        self.shadows = StrMap::new();
        ClientMsg::Shutdown
    }

    /// Our own connection id; 0 where the daemon gave none.
    pub fn conn_id(&self) -> (r: ConnId)
        ensures
            r == self@.conn_id,
    {
        self.conn_id
    }

    /// Whether the daemon understands claims. An older one would drop the
    /// connection at the first.
    pub fn claims_supported(&self) -> (r: bool)
        ensures
            r == (self@.daemon_ver >= MIN_CLAIM_DAEMON_VER),
    {
        self.daemon_ver >= MIN_CLAIM_DAEMON_VER
    }

    /// The request to claim a session, where the daemon understands claims.
    /// Where it does not there is none, and the claim counts as granted.
    pub fn claim(&self, uid: &str) -> (r: Option<ClientMsg>)
        ensures
            match r {
                Some(m) => self@.daemon_ver >= MIN_CLAIM_DAEMON_VER && m@ == (ClientView::Claim {
                    uid: uid@,
                }),
                None => self@.daemon_ver < MIN_CLAIM_DAEMON_VER,
            },
    {
        if self.claims_supported() {
            Some(ClientMsg::Claim { uid: owned(uid) })
        } else {
            None
        }
    }

    /// The request that announces a claim whose outcome is not in doubt, where
    /// the daemon understands claims. Its reply is not waited for.
    pub fn announce_claim(&self, uid: &str) -> (r: Option<ClientMsg>)
        ensures
            match r {
                Some(m) => self@.daemon_ver >= MIN_CLAIM_DAEMON_VER && m@ == (ClientView::Claim {
                    uid: uid@,
                }),
                None => self@.daemon_ver < MIN_CLAIM_DAEMON_VER,
            },
    {
        self.claim(uid)
    }

    /// Whether a claim was granted, by the reply; no reply is a refusal.
    pub fn claim_granted(reply: Option<&DaemonMsg>, uid: &str) -> (r: bool)
        ensures
            r == (reply matches Some(m) && m@ matches DaemonView::ClaimResult {
                uid: u,
                granted,
                owner,
            } && u == uid@ && granted),
    {
        match reply {
            Some(m) => match m {
                DaemonMsg::ClaimResult { uid: u, granted, owner } => same(u.as_str(), uid)
                    && *granted,
                _ => false,
            },
            None => false,
        }
    }

    /// The request to give a claim up, where the daemon understands claims.
    pub fn release(&self, uid: &str) -> (r: Option<ClientMsg>)
        ensures
            match r {
                Some(m) => self@.daemon_ver >= MIN_CLAIM_DAEMON_VER && m@ == (ClientView::Release {
                    uid: uid@,
                }),
                None => self@.daemon_ver < MIN_CLAIM_DAEMON_VER,
            },
    {
        if self.claims_supported() {
            Some(ClientMsg::Release { uid: owned(uid) })
        } else {
            None
        }
    }

    /// The request for the claim table, where the daemon understands claims.
    pub fn request_claims(&self) -> (r: Option<ClientMsg>)
        ensures
            match r {
                Some(m) => self@.daemon_ver >= MIN_CLAIM_DAEMON_VER && m@ == ClientView::ListClaims,
                None => self@.daemon_ver < MIN_CLAIM_DAEMON_VER,
            },
    {
        if self.claims_supported() {
            Some(ClientMsg::ListClaims)
        } else {
            None
        }
    }

    /// The sessions that another connection claims, in order.
    pub fn claims_held_elsewhere(&self) -> (r: Vec<String>)
        ensures
            views(r@) == elsewhere(self@.claims, self@.conn_id),
    {
        let ghost all = self.claims@;
        let mut out: Vec<String> = Vec::new();
        let mut i: usize = 0;
        assert(all.take(0) =~= Seq::<(Seq<char>, u64)>::empty());
        assert(views(out@) =~= Seq::<Seq<char>>::empty());
        while i < self.claims.entries.len()
            invariant
                i <= self.claims.entries@.len(),
                all == self.claims@,
                views(out@) == elsewhere(all.take(i as int), self.conn_id),
            decreases self.claims.entries.len() - i,
        {
            let ghost before = views(out@);
            assert(all.take(i + 1).drop_last() =~= all.take(i as int));
            assert(all.take(i + 1).last() == all[i as int]);
            if self.claims.entries[i].1 != self.conn_id {
                out.push(self.claims.entries[i].0.clone());
                assert(views(out@) =~= before.push(all[i as int].0));
            }
            i = i + 1;
        }
        assert(all.take(i as int) =~= all);
        out
    }
}

/// A claim of our own never counts as another's, and with no connection id of
/// our own every claim does.
pub proof fn law_own_claims_are_not_elsewhere(claims: Claims, me: u64, i: int)
    requires
        0 <= i < claims.len(),
        assoc_ordered(claims),
    ensures
        claims[i].1 == me ==> !elsewhere(claims, me).contains(claims[i].0),
        claims[i].1 != me ==> elsewhere(claims, me).contains(claims[i].0),
    decreases claims.len(),
{
    let d = claims.drop_last();
    let e = elsewhere(claims, me);
    let f = elsewhere(d, me);
    assert(claims[claims.len() - 1] == claims.last());
    assert forall|a: int, b: int| 0 <= a < b < d.len() implies crate::text::less(
        (#[trigger] d[a]).0,
        (#[trigger] d[b]).0,
    ) by {
        assert(d[a] == claims[a] && d[b] == claims[b]);
    }
    if i < d.len() {
        law_own_claims_are_not_elsewhere(d, me, i);
        assert(d[i] == claims[i]);
        assert(crate::text::less(claims[i].0, claims[claims.len() - 1].0));
        crate::text::lemma_less_total(claims[i].0, claims.last().0);
        if claims[i].1 != me {
            let k = choose|k: int| 0 <= k < f.len() && f[k] == claims[i].0;
            assert(e[k] == claims[i].0);
        } else if e.contains(claims[i].0) {
            let k = choose|k: int| 0 <= k < e.len() && e[k] == claims[i].0;
            if k < f.len() {
                assert(f[k] == claims[i].0);
            }
        }
    } else {
        lemma_elsewhere_members(d, me);
        if claims[i].1 != me {
            assert(e[e.len() - 1] == claims[i].0);
        } else if e.contains(claims[i].0) {
            let k = choose|k: int| 0 <= k < e.len() && e[k] == claims[i].0;
            let m = choose|m: int| 0 <= m < d.len() && (#[trigger] d[m]).0 == f[k];
            assert(crate::text::less(claims[m].0, claims[i].0));
            crate::text::lemma_less_total(claims[m].0, claims[i].0);
        }
    }
}

proof fn lemma_elsewhere_members(claims: Claims, me: u64)
    ensures
        forall|k: int|
            0 <= k < elsewhere(claims, me).len() ==> exists|m: int|
                0 <= m < claims.len() && (#[trigger] claims[m]).0 == #[trigger] elsewhere(
                    claims,
                    me,
                )[k],
    decreases claims.len(),
{
    if claims.len() > 0 {
        let d = claims.drop_last();
        lemma_elsewhere_members(d, me);
        let e = elsewhere(claims, me);
        let f = elsewhere(d, me);
        assert forall|k: int| 0 <= k < e.len() implies exists|m: int|
            0 <= m < claims.len() && (#[trigger] claims[m]).0 == #[trigger] e[k] by {
            if k < f.len() {
                assert(e[k] == f[k]);
                let m = choose|m: int| 0 <= m < d.len() && (#[trigger] d[m]).0 == f[k];
                assert(claims[m].0 == e[k]);
            } else {
                assert(claims[claims.len() - 1].0 == e[k]);
            }
        }
    }
}

} // verus!
