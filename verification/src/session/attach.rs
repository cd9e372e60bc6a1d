//! Attaching a terminal to one session of the daemon: which session is meant,
//! what of the stream goes to the terminal, and which key leaves again.
//!
//! The buffer that seeds the terminal and the live stream overlap: the daemon
//! subscribes a client before it takes the snapshot. The snapshot's output
//! cursor is where the stream goes on, and what is at or before it was painted
//! already.

use crate::session::decode::{cut_part, decode_utf8_streaming, whole_part};
use crate::session::proto::{frame_views, ClientMsg, ClientView, DaemonMsg, DaemonView, EventView,
    SessionEvent, SessionMeta};
use crate::text::{bytes_of, chars_of, find_chars, find_text, has_prefix, hex, hexadecimal,
    lossy_text, owned, same, starts_with, string_of, to_lower, to_upper, trim, trimmed};
use vstd::prelude::*;
use vstd::string::*;
use vstd::utf8::*;

verus! {

/// How long an answer of the daemon is waited for, in milliseconds.
pub const REQUEST_TIMEOUT_MS: u64 = 5000;

/// Whether an attached client may resize the session it looks at.
#[derive(Debug, Clone, Copy, PartialEq, Eq, Structural)]
pub enum ResizePolicy {
    /// Look on at the size the session has. The default.
    Observe,
    /// Ask for the client's own size.
    Request,
}

impl Default for ResizePolicy {
    fn default() -> (r: ResizePolicy)
        ensures
            r == ResizePolicy::Observe,
    {
        ResizePolicy::Observe
    }
}

/// Why an attachment ended.
#[derive(Debug, Clone, Copy, PartialEq, Eq, Structural)]
pub enum PumpEnd {
    /// The session's child exited with this code.
    Exited(i32),
    /// The connection closed.
    Disconnected,
}

// ---------------------------------------------------------------------------
// Which session
// ---------------------------------------------------------------------------

/// How a query matches the live sessions.
#[derive(Debug, Clone, PartialEq, Eq)]
pub enum UidMatch {
    /// One session matches; this is its uid.
    One(String),
    /// No session matches.
    Nothing,
    /// These all match.
    Ambiguous(Vec<String>),
}

/// How a query matches the live sessions.
pub enum MatchView {
    One(Seq<char>),
    Nothing,
    Ambiguous(Seq<Seq<char>>),
}

impl View for UidMatch {
    type V = MatchView;

    open spec fn view(&self) -> MatchView {
        match self {
            UidMatch::One(u) => MatchView::One(u@),
            UidMatch::Nothing => MatchView::Nothing,
            UidMatch::Ambiguous(v) => MatchView::Ambiguous(crate::text::views(v@)),
        }
    }
}

/// The uids of sessions.
pub open spec fn uids_of(v: Seq<SessionMeta>) -> Seq<Seq<char>> {
    Seq::new(v.len(), |i: int| v[i].uid@)
}

/// Whether a uid matches a query: exactly, by its beginning, or anywhere.
pub open spec fn rung_holds(rung: int, uid: Seq<char>, q: Seq<char>) -> bool {
    if rung == 0 {
        uid == q
    } else if rung == 1 {
        has_prefix(uid, q)
    } else {
        find_text(uid, q) is Some
    }
}

/// The uids that match a query in one of the ways.
pub open spec fn hits(rung: int, uids: Seq<Seq<char>>, q: Seq<char>) -> Seq<Seq<char>>
    decreases uids.len(),
{
    if uids.len() == 0 {
        uids
    } else if rung_holds(rung, uids.last(), q) {
        hits(rung, uids.drop_last(), q).push(uids.last())
    } else {
        hits(rung, uids.drop_last(), q)
    }
}

/// The match of the first way, from `rung` on, that matches anything.
pub open spec fn climb(rung: int, uids: Seq<Seq<char>>, q: Seq<char>) -> MatchView
    decreases 3 - rung,
{
    if rung >= 3 {
        MatchView::Nothing
    } else {
        let h = hits(rung, uids, q);
        if h.len() == 0 {
            climb(rung + 1, uids, q)
        } else if h.len() == 1 {
            MatchView::One(h[0])
        } else {
            MatchView::Ambiguous(h)
        }
    }
}

/// How a query matches uids. White space around it does not count, and a query
/// of nothing matches nothing.
pub open spec fn uid_match(uids: Seq<Seq<char>>, query: Seq<char>) -> MatchView {
    let q = trim(query);
    if q.len() == 0 {
        MatchView::Nothing
    } else {
        climb(0, uids, q)
    }
}

fn rung_matches(rung: u8, uid: &str, q: &str) -> (r: bool)
    ensures
        r == rung_holds(rung as int, uid@, q@),
{
    if rung == 0 {
        return same(uid, q);
    }
    let u = chars_of(uid);
    let p = chars_of(q);
    if rung == 1 {
        starts_with(u.as_slice(), p.as_slice())
    } else {
        find_chars(u.as_slice(), p.as_slice()).is_some()
    }
}

fn collect_hits(rung: u8, sessions: &[SessionMeta], q: &str) -> (r: Vec<String>)
    ensures
        crate::text::views(r@) == hits(rung as int, uids_of(sessions@), q@),
{
    let ghost uids = uids_of(sessions@);
    let mut out: Vec<String> = Vec::new();
    let mut i: usize = 0;
    assert(uids.take(0) =~= Seq::<Seq<char>>::empty());
    assert(crate::text::views(out@) =~= Seq::<Seq<char>>::empty());
    while i < sessions.len()
        invariant
            i <= sessions@.len(),
            uids == uids_of(sessions@),
            crate::text::views(out@) == hits(rung as int, uids.take(i as int), q@),
        decreases sessions.len() - i,
    {
        let ghost before = crate::text::views(out@);
        assert(uids.take(i + 1).drop_last() =~= uids.take(i as int));
        assert(uids.take(i + 1).last() == sessions@[i as int].uid@);
        if rung_matches(rung, sessions[i].uid.as_str(), q) {
            out.push(sessions[i].uid.clone());
            assert(crate::text::views(out@) =~= before.push(sessions@[i as int].uid@));
        }
        i = i + 1;
    }
    assert(uids.take(i as int) =~= uids);
    out
}

/// Which live session a query means: the one with that uid, else the one whose
/// uid begins with it, else the one whose uid holds it. Where several match in
/// the first way that matches any, none is picked.
pub fn resolve_uid(sessions: &[SessionMeta], query: &str) -> (r: UidMatch)
    ensures
        r@ == uid_match(uids_of(sessions@), query@),
{
    let chars = chars_of(query);
    let t = trimmed(chars.as_slice());
    if t.len() == 0 {
        return UidMatch::Nothing;
    }
    let q = string_of(t);
    let mut rung: u8 = 0;
    while rung < 3
        invariant
            rung <= 3,
            q@.len() > 0,
            uid_match(uids_of(sessions@), query@) == climb(rung as int, uids_of(sessions@), q@),
        decreases 3 - rung,
    {
        let mut h = collect_hits(rung, sessions, q.as_str());
        if h.len() == 1 {
            let u = h[0].clone();
            return UidMatch::One(u);
        }
        if h.len() > 1 {
            return UidMatch::Ambiguous(h);
        }
        rung = rung + 1;
    }
    UidMatch::Nothing
}

proof fn lemma_hits_of_absent(rung: int, uids: Seq<Seq<char>>, q: Seq<char>)
    ensures
        hits(rung, uids, q).len() == 0 <==> forall|i: int|
            0 <= i < uids.len() ==> !rung_holds(rung, #[trigger] uids[i], q),
        forall|i: int|
            0 <= i < hits(rung, uids, q).len() ==> rung_holds(
                rung,
                #[trigger] hits(rung, uids, q)[i],
                q,
            ) && uids.contains(hits(rung, uids, q)[i]),
    decreases uids.len(),
{
    if uids.len() > 0 {
        let d = uids.drop_last();
        lemma_hits_of_absent(rung, d, q);
        let h = hits(rung, uids, q);
        let g = hits(rung, d, q);
        assert(uids[uids.len() - 1] == uids.last());
        if h.len() == 0 {
            assert forall|i: int| 0 <= i < uids.len() implies !rung_holds(
                rung,
                #[trigger] uids[i],
                q,
            ) by {
                if i < d.len() {
                    assert(d[i] == uids[i]);
                }
            }
        } else if forall|i: int| 0 <= i < uids.len() ==> !rung_holds(rung, #[trigger] uids[i], q) {
            assert forall|i: int| 0 <= i < d.len() implies !rung_holds(rung, #[trigger] d[i], q) by {
                assert(d[i] == uids[i]);
            }
        }
        assert forall|i: int| 0 <= i < h.len() implies rung_holds(rung, #[trigger] h[i], q)
            && uids.contains(h[i]) by {
            if i < g.len() {
                assert(h[i] == g[i]);
                let m = choose|m: int| 0 <= m < d.len() && d[m] == g[i];
                assert(uids[m] == g[i]);
            }
        }
    }
}

/// A uid that is given in full is never taken for part of another: where one
/// session has it, that session is meant.
pub proof fn law_exact_uid_is_never_ambiguous(uids: Seq<Seq<char>>, query: Seq<char>, i: int)
    requires
        0 <= i < uids.len(),
        trim(query).len() > 0,
        uids[i] == trim(query),
        forall|j: int| 0 <= j < uids.len() && j != i ==> #[trigger] uids[j] != uids[i],
    ensures
        uid_match(uids, query) == MatchView::One(uids[i]),
{
    lemma_one_hit(uids, trim(query), i);
}

proof fn lemma_one_hit(uids: Seq<Seq<char>>, q: Seq<char>, i: int)
    requires
        0 <= i < uids.len(),
        uids[i] == q,
        forall|j: int| 0 <= j < uids.len() && j != i ==> #[trigger] uids[j] != q,
    ensures
        hits(0, uids, q) == seq![q],
    decreases uids.len(),
{
    let d = uids.drop_last();
    if i == uids.len() - 1 {
        assert forall|j: int| 0 <= j < d.len() implies !rung_holds(0, #[trigger] d[j], q) by {
            assert(d[j] == uids[j]);
        }
        lemma_hits_of_absent(0, d, q);
        assert(hits(0, uids, q) =~= seq![q]);
    } else {
        assert(d[i] == uids[i]);
        assert forall|j: int| 0 <= j < d.len() && j != i implies #[trigger] d[j] != q by {
            assert(d[j] == uids[j]);
        }
        lemma_one_hit(d, q, i);
        assert(uids[uids.len() - 1] != q);
    }
}

/// What a query is found to mean is a live session.
pub proof fn law_resolved_uid_is_live(uids: Seq<Seq<char>>, query: Seq<char>)
    ensures
        uid_match(uids, query) matches MatchView::One(u) ==> uids.contains(u),
{
    let q = trim(query);
    lemma_hits_of_absent(0, uids, q);
    lemma_hits_of_absent(1, uids, q);
    lemma_hits_of_absent(2, uids, q);
    reveal_with_fuel(climb, 4);
}

/// Whether a terminal can show a session's grid without clipping; not known,
/// where the grid is not.
pub fn fits(terminal: (u16, u16), session: (Option<u16>, Option<u16>)) -> (r: Option<bool>)
    ensures
        r == (match session {
            (Some(cols), Some(rows)) => Some(terminal.0 >= cols && terminal.1 >= rows),
            _ => None,
        }),
{
    match session {
        (Some(cols), Some(rows)) => Some(terminal.0 >= cols && terminal.1 >= rows),
        _ => None,
    }
}

// ---------------------------------------------------------------------------
// The output
// ---------------------------------------------------------------------------

/// An attachment to one session.
#[verifier::ext_equal]
pub struct AttachmentView {
    pub uid: Seq<char>,
    /// The output cursor up to which the terminal was painted.
    pub seed_cursor: u64,
    /// What is written before a repaint.
    pub repaint_prefix: Seq<u8>,
    /// Events that came before the seed.
    pub pending: Seq<EventView>,
}

/// What is to be done with a frame or an event: bytes to write, and whether the
/// attachment is over.
#[derive(Debug, Clone, PartialEq, Eq)]
pub struct Output {
    pub bytes: Vec<u8>,
    pub end: Option<PumpEnd>,
}

/// The bytes and the end of an output.
pub open spec fn output_view(o: Output) -> (Seq<u8>, Option<PumpEnd>) {
    (o.bytes@, o.end)
}

/// Nothing to do.
pub open spec fn silence() -> (Seq<u8>, Option<PumpEnd>) {
    (Seq::empty(), None)
}

/// What an event of the session gives: its output, unless that was painted
/// already, or the end. A chunk without a cursor is never taken for painted.
pub open spec fn event_output(a: AttachmentView, ev: EventView) -> (Seq<u8>, Option<PumpEnd>) {
    match ev {
        EventView::Data { uid, data, cursor } => if uid != a.uid || (cursor != 0 && cursor
            <= a.seed_cursor) {
            silence()
        } else {
            (encode_utf8(data), None)
        },
        EventView::Exit { uid, code } => if uid != a.uid {
            silence()
        } else {
            (Seq::empty(), Some(PumpEnd::Exited(code)))
        },
        _ => silence(),
    }
}

/// What a frame gives: an event's output, or a repaint of the session.
pub open spec fn frame_output(a: AttachmentView, frame: DaemonView) -> (
    Seq<u8>,
    Option<PumpEnd>,
) {
    match frame {
        DaemonView::Event(ev) => event_output(a, ev),
        DaemonView::Replay { uid, data, cursor } => if uid == a.uid {
            (a.repaint_prefix + encode_utf8(data), None)
        } else {
            silence()
        },
        _ => silence(),
    }
}

/// The attachment after a frame: a repaint moves the painted cursor on, never
/// back.
pub open spec fn after_frame(a: AttachmentView, frame: DaemonView) -> AttachmentView {
    match frame {
        DaemonView::Replay { uid, data, cursor } => if uid == a.uid && cursor > a.seed_cursor {
            AttachmentView { seed_cursor: cursor, ..a }
        } else {
            a
        },
        _ => a,
    }
}

/// Output that is inside the seed is not painted again.
pub proof fn law_seeded_output_is_not_painted_twice(
    a: AttachmentView,
    uid: Seq<char>,
    data: Seq<char>,
    cursor: u64,
)
    requires
        cursor != 0,
        cursor <= a.seed_cursor,
    ensures
        event_output(a, EventView::Data { uid, data, cursor }) == silence(),
{
}

/// Output past the seed, and output without a cursor, is painted in full.
pub proof fn law_fresh_output_is_painted(a: AttachmentView, data: Seq<char>, cursor: u64)
    requires
        cursor == 0 || cursor > a.seed_cursor,
    ensures
        event_output(a, EventView::Data { uid: a.uid, data, cursor }) == (
            encode_utf8(data),
            None::<PumpEnd>,
        ),
{
}

/// The painted cursor never goes back, and a frame changes nothing else.
pub proof fn law_painted_cursor_never_goes_back(a: AttachmentView, frame: DaemonView)
    ensures
        after_frame(a, frame).seed_cursor >= a.seed_cursor,
        after_frame(a, frame).uid == a.uid,
        after_frame(a, frame).repaint_prefix == a.repaint_prefix,
        after_frame(a, frame).pending == a.pending,
{
}

/// Another session's traffic never reaches the terminal.
pub proof fn law_other_sessions_are_silent(a: AttachmentView, ev: EventView)
    requires
        crate::session::proto::uid_of(ev) != a.uid,
    ensures
        event_output(a, ev) == silence(),
{
}

/// An attachment to one session.
pub struct Attachment {
    uid: String,
    seed_cursor: u64,
    repaint_prefix: Vec<u8>,
    pending: Vec<SessionEvent>,
}

/// The events of a list.
pub open spec fn event_views(v: Seq<SessionEvent>) -> Seq<EventView> {
    Seq::new(v.len(), |i: int| v[i]@)
}

impl View for Attachment {
    type V = AttachmentView;

    closed spec fn view(&self) -> AttachmentView {
        AttachmentView {
            uid: self.uid@,
            seed_cursor: self.seed_cursor,
            repaint_prefix: self.repaint_prefix@,
            pending: event_views(self.pending@),
        }
    }
}

/// What a frame before the seed means: an event is kept for later, the
/// session's own replay is the seed, and anything else is passed over.
pub open spec fn opening_seed(uid: Seq<char>, frame: DaemonView) -> Option<(Seq<char>, u64)> {
    match frame {
        DaemonView::Replay { uid: got, data, cursor } => if got == uid {
            Some((data, cursor))
        } else {
            None
        },
        _ => None,
    }
}

/// An attachment that waits for its seed.
pub struct Opening {
    uid: String,
    pending: Vec<SessionEvent>,
}

impl Opening {
    /// The session that is attached to.
    pub closed spec fn uid(self) -> Seq<char> {
        self.uid@
    }

    /// The events that came so far.
    pub closed spec fn pending(self) -> Seq<EventView> {
        event_views(self.pending@)
    }

    /// Starts to attach to `uid`. Returns the request to send.
    pub fn new(uid: &str) -> (r: (Opening, ClientMsg))
        ensures
            r.0.uid() == uid@,
            r.0.pending() == Seq::<EventView>::empty(),
            r.1@ == (ClientView::Attach { uid: uid@ }),
    {
        let o = Opening { uid: owned(uid), pending: Vec::new() };
        assert(o.pending() =~= Seq::<EventView>::empty());
        (o, ClientMsg::Attach { uid: owned(uid) })
    }

    /// Takes a frame in. Returns the seed and its cursor, where the frame is
    /// the answer; an event is kept, to be written after the seed.
    pub fn receive(&mut self, frame: DaemonMsg) -> (r: Option<(String, u64)>)
        ensures
            final(self).uid() == old(self).uid(),
            match r {
                Some((d, c)) => opening_seed(old(self).uid(), frame@) == Some((d@, c)),
                None => opening_seed(old(self).uid(), frame@) is None,
            },
            final(self).pending() == (match frame@ {
                DaemonView::Event(ev) => old(self).pending().push(ev),
                _ => old(self).pending(),
            }),
    {
        match frame {
            DaemonMsg::Replay { uid, data, cursor } => {
                if same(uid.as_str(), self.uid.as_str()) {
                    Some((data, cursor))
                } else {
                    None
                }
            },
            DaemonMsg::Event(ev) => {
                let ghost before = self.pending();
                let ghost v = ev@;
                self.pending.push(ev);
                assert(self.pending() =~= before.push(v));
                None
            },
            _ => None,
        }
    }

    /// The attachment, once the seed has come with its cursor.
    pub fn attached(self, cursor: u64) -> (r: Attachment)
        ensures
            r@ == (AttachmentView {
                uid: self.uid(),
                seed_cursor: cursor,
                repaint_prefix: Seq::empty(),
                pending: self.pending(),
            }),
    {
        let r = Attachment {
            uid: self.uid,
            seed_cursor: cursor,
            repaint_prefix: Vec::new(),
            pending: self.pending,
        };
        assert(r@.repaint_prefix =~= Seq::<u8>::empty());
        r
    }

    /// What is said where no seed comes in time.
    pub fn timeout_error(&self) -> (r: String)
        ensures
            r@ == "the session daemon did not answer Attach for '"@ + self.uid() + "'"@,
    {
        let mut s = owned("the session daemon did not answer Attach for '");
        s.append(self.uid.as_str());
        s.append("'");
        s
    }
}

impl Attachment {
    /// The session that is followed.
    pub fn uid(&self) -> (r: &str)
        ensures
            r@ == self@.uid,
    {
        self.uid.as_str()
    }

    /// Sets what is written before a repaint.
    pub fn set_repaint_prefix(&mut self, prefix: Vec<u8>)
        ensures
            final(self)@ == (AttachmentView { repaint_prefix: prefix@, ..old(self)@ }),
    {
        self.repaint_prefix = prefix;
    }

    /// The next event that came before the seed.
    pub fn next_pending(&mut self) -> (r: Option<SessionEvent>)
        ensures
            match r {
                Some(ev) => old(self)@.pending.len() > 0 && ev@ == old(self)@.pending[0]
                    && final(self)@ == (AttachmentView {
                    pending: old(self)@.pending.skip(1),
                    ..old(self)@
                }),
                None => old(self)@.pending.len() == 0 && final(self)@ == old(self)@,
            },
    {
        if self.pending.len() == 0 {
            return None;
        }
        let ghost before = self@;
        let ev = self.pending.remove(0);
        assert(self@.pending =~= before.pending.skip(1));
        Some(ev)
    }

    /// What an event of the session gives.
    pub fn write_event(&self, ev: &SessionEvent) -> (r: Output)
        ensures
            output_view(r) == event_output(self@, ev@),
    {
        match ev {
            SessionEvent::Data { uid, data, cursor } => {
                if !same(uid.as_str(), self.uid.as_str()) {
                    return Output { bytes: Vec::new(), end: None };
                }
                if *cursor != 0 && *cursor <= self.seed_cursor {
                    return Output { bytes: Vec::new(), end: None };
                }
                Output { bytes: bytes_of(data.as_str()), end: None }
            },
            SessionEvent::Exit { uid, code } => {
                if !same(uid.as_str(), self.uid.as_str()) {
                    return Output { bytes: Vec::new(), end: None };
                }
                Output { bytes: Vec::new(), end: Some(PumpEnd::Exited(*code)) }
            },
            _ => Output { bytes: Vec::new(), end: None },
        }
    }

    /// Takes a frame in. Returns what is to be written, and whether the
    /// attachment is over.
    pub fn receive(&mut self, frame: &DaemonMsg) -> (r: Output)
        ensures
            output_view(r) == frame_output(old(self)@, frame@),
            final(self)@ == after_frame(old(self)@, frame@),
    {
        match frame {
            DaemonMsg::Event(ev) => self.write_event(ev),
            DaemonMsg::Replay { uid, data, cursor } => {
                if !same(uid.as_str(), self.uid.as_str()) {
                    return Output { bytes: Vec::new(), end: None };
                }
                let mut bytes = vstd::slice::slice_to_vec(self.repaint_prefix.as_slice());
                let mut seed = bytes_of(data.as_str());
                bytes.append(&mut seed);
                if *cursor > self.seed_cursor {
                    self.seed_cursor = *cursor;
                }
                Output { bytes, end: None }
            },
            _ => Output { bytes: Vec::new(), end: None },
        }
    }

    /// The handle for the input direction.
    pub fn writer(&self) -> (r: AttachWriter)
        ensures
            r.uid@ == self@.uid,
    {
        AttachWriter { uid: self.uid.clone() }
    }
}

// ---------------------------------------------------------------------------
// Conversations
// ---------------------------------------------------------------------------

/// What is said where no daemon listens at an endpoint.
pub fn no_daemon_error(endpoint: &str) -> (r: String)
    ensures
        r@ == "no hyperpanes session daemon is running for this install ("@ + endpoint@
            + "). Start hyperpanes, or check HYPERPANES_USER_DATA_DIR."@,
{
    quoted(
        "no hyperpanes session daemon is running for this install (",
        endpoint,
        "). Start hyperpanes, or check HYPERPANES_USER_DATA_DIR.",
    )
}

/// The version of the first answer to a greeting among frames.
pub open spec fn greeted(frames: Seq<DaemonView>) -> Option<u32>
    decreases frames.len(),
{
    if frames.len() == 0 {
        None
    } else {
        match frames[0] {
            DaemonView::Hello { proto_ver, daemon_pid, conn_id, build_id } => Some(proto_ver),
            _ => greeted(frames.skip(1)),
        }
    }
}

/// The protocol version of the daemon, by the frames that came after a
/// greeting. Frames that are not the answer are passed over, and another
/// version than ours is nothing to act on.
pub fn handshake(frames: &[DaemonMsg]) -> (r: Option<u32>)
    ensures
        r == greeted(frame_views(frames@)),
{
    let ghost fs = frame_views(frames@);
    let mut i: usize = 0;
    assert(fs.skip(0) =~= fs);
    while i < frames.len()
        invariant
            i <= frames@.len(),
            fs == frame_views(frames@),
            greeted(fs) == greeted(fs.skip(i as int)),
        decreases frames.len() - i,
    {
        assert(fs.skip(i as int)[0] == frames@[i as int]@);
        assert(fs.skip(i as int).skip(1) =~= fs.skip(i + 1));
        if let DaemonMsg::Hello { proto_ver, .. } = &frames[i] {
            return Some(*proto_ver);
        }
        i = i + 1;
    }
    None
}

/// An attachment and what it has given so far.
#[verifier::ext_equal]
pub struct Pumped {
    pub attachment: AttachmentView,
    pub bytes: Seq<u8>,
    pub end: Option<PumpEnd>,
}

/// One event more. After the end nothing counts.
pub open spec fn pump_event(p: Pumped, ev: EventView) -> Pumped {
    if p.end is Some {
        p
    } else {
        let (bytes, end) = event_output(p.attachment, ev);
        Pumped { attachment: p.attachment, bytes: p.bytes + bytes, end }
    }
}

/// One frame more. After the end nothing counts.
pub open spec fn pump_frame(p: Pumped, frame: DaemonView) -> Pumped {
    if p.end is Some {
        p
    } else {
        let (bytes, end) = frame_output(p.attachment, frame);
        Pumped { attachment: after_frame(p.attachment, frame), bytes: p.bytes + bytes, end }
    }
}

/// The events that came before the seed, in turn, each gone once it counted.
pub open spec fn pump_pending(p: Pumped) -> Pumped
    decreases p.attachment.pending.len(),
{
    if p.end is Some || p.attachment.pending.len() == 0 {
        p
    } else {
        let rest = AttachmentView { pending: p.attachment.pending.skip(1), ..p.attachment };
        pump_pending(
            pump_event(Pumped { attachment: rest, ..p }, p.attachment.pending[0]),
        )
    }
}

/// Frames, in turn.
pub open spec fn pump_frames(p: Pumped, frames: Seq<DaemonView>) -> Pumped
    decreases frames.len(),
{
    if frames.len() == 0 {
        p
    } else {
        pump_frame(pump_frames(p, frames.drop_last()), frames.last())
    }
}

/// What an attachment gives before anything comes.
pub open spec fn unpumped(a: AttachmentView) -> Pumped {
    Pumped { attachment: a, bytes: Seq::empty(), end: None }
}

proof fn lemma_pump_ended(p: Pumped, frames: Seq<DaemonView>)
    requires
        p.end is Some,
    ensures
        pump_frames(p, frames) == p,
    decreases frames.len(),
{
    if frames.len() > 0 {
        lemma_pump_ended(p, frames.drop_last());
    }
}

proof fn lemma_pump_concat(p: Pumped, a: Seq<DaemonView>, b: Seq<DaemonView>)
    ensures
        pump_frames(p, a + b) == pump_frames(pump_frames(p, a), b),
    decreases b.len(),
{
    if b.len() == 0 {
        assert(a + b =~= a);
    } else {
        lemma_pump_concat(p, a, b.drop_last());
        assert((a + b).drop_last() =~= a + b.drop_last());
        assert((a + b).last() == b.last());
    }
}

impl Attachment {
    /// Attaches to a session, by the frames that came after the request: the
    /// seed, and the events before it, which count after it. `None` where the
    /// seed is not among them; frames behind it are not looked at.
    pub fn open(uid: &str, frames: Vec<DaemonMsg>) -> (r: Option<(Attachment, String)>)
        ensures
            match r {
                Some((a, seed)) => exists|k: int|
                    0 <= k < frames@.len() && (#[trigger] opening_seed(uid@, frames@[k]@)) == Some(
                        (seed@, a@.seed_cursor),
                    ) && (forall|j: int|
                        0 <= j < k ==> (#[trigger] opening_seed(uid@, frames@[j]@)) is None)
                        && a@.uid == uid@ && a@.repaint_prefix.len() == 0 && a@.pending
                        == events_in(frame_views(frames@).take(k)),
                None => forall|j: int|
                    0 <= j < frames@.len() ==> (#[trigger] opening_seed(
                        uid@,
                        frames@[j]@,
                    )) is None,
            },
    {
        let ghost fs = frame_views(frames@);
        let ghost all = frames@;
        let (mut opening, _) = Opening::new(uid);
        let mut left = frames;
        let ghost mut k: int = 0;
        assert(fs.take(0) =~= Seq::<DaemonView>::empty());
        while left.len() > 0
            invariant
                all == frames@,
                fs == frame_views(all),
                0 <= k <= all.len(),
                left@ == all.skip(k),
                opening.uid() == uid@,
                opening.pending() == events_in(fs.take(k)),
                forall|j: int|
                    0 <= j < k ==> (#[trigger] opening_seed(uid@, all[j]@)) is None,
            decreases left.len(),
        {
            let frame = left.remove(0);
            proof {
                assert(frame == all[k]);
                assert(left@ =~= all.skip(k + 1));
                assert(fs.take(k + 1).drop_last() =~= fs.take(k));
                assert(fs.take(k + 1).last() == frame@);
            }
            if let Some((seed, cursor)) = opening.receive(frame) {
                assert(opening_seed(uid@, all[k]@) == Some((seed@, cursor)));
                return Some((opening.attached(cursor), seed));
            }
            proof {
                k = k + 1;
            }
        }
        assert(k == all.len());
        None
    }

    /// Takes what came since the last time in: first the events from before the
    /// seed, then the frames. Returns all that is to be written, and whether
    /// the attachment is over; what comes after the end does not count.
    pub fn pump_output(&mut self, frames: &[DaemonMsg]) -> (r: Output)
        ensures
            ({
                let p = pump_frames(pump_pending(unpumped(old(self)@)), frame_views(frames@));
                final(self)@ == p.attachment && r.bytes@ == p.bytes && r.end == p.end
            }),
    {
        let ghost start = pump_pending(unpumped(self@));
        let mut bytes: Vec<u8> = Vec::new();
        let mut end: Option<PumpEnd> = None;
        assert(bytes@ =~= Seq::<u8>::empty());
        while self.pending.len() > 0 && end.is_none()
            invariant
                start == pump_pending(unpumped(old(self)@)),
                start == pump_pending(
                    (Pumped { attachment: self@, bytes: bytes@, end }),
                ),
            decreases self.pending.len(),
        {
            let ghost before = self@;
            match self.next_pending() {
                Some(ev) => {
                    let mut out = self.write_event(&ev);
                    bytes.append(&mut out.bytes);
                    end = out.end;
                },
                None => {},
            }
        }
        let ghost fs = frame_views(frames@);
        let mut i: usize = 0;
        assert(fs.take(0) =~= Seq::<DaemonView>::empty());
        assert(start =~= (Pumped { attachment: self@, bytes: bytes@, end }));
        while i < frames.len() && end.is_none()
            invariant
                i <= frames@.len(),
                fs == frame_views(frames@),
                pump_frames(start, fs.take(i as int)) == (Pumped {
                    attachment: self@,
                    bytes: bytes@,
                    end,
                }),
            decreases frames.len() - i,
        {
            assert(fs.take(i + 1).drop_last() =~= fs.take(i as int));
            assert(fs.take(i + 1).last() == frames@[i as int]@);
            let mut out = self.receive(&frames[i]);
            bytes.append(&mut out.bytes);
            end = out.end;
            i = i + 1;
        }
        proof {
            let p = pump_frames(start, fs.take(i as int));
            assert(fs.take(i as int) + fs.skip(i as int) =~= fs);
            lemma_pump_concat(start, fs.take(i as int), fs.skip(i as int));
            if end is Some {
                lemma_pump_ended(p, fs.skip(i as int));
            } else {
                assert(fs.skip(i as int) =~= Seq::<DaemonView>::empty());
            }
        }
        Output { bytes, end }
    }
}

/// The events among frames, in order.
pub open spec fn events_in(frames: Seq<DaemonView>) -> Seq<EventView>
    decreases frames.len(),
{
    if frames.len() == 0 {
        Seq::empty()
    } else {
        match frames.last() {
            DaemonView::Event(ev) => events_in(frames.drop_last()).push(ev),
            _ => events_in(frames.drop_last()),
        }
    }
}

/// What a read or a write came to, where it failed.
#[derive(Debug, Clone, Copy, PartialEq, Eq, Structural)]
pub enum Fault {
    ConnectionReset,
    ConnectionAborted,
    BrokenPipe,
    NotConnected,
    UnexpectedEof,
    Interrupted,
    Other,
}

/// Whether a fault only says that the connection is gone.
pub fn is_disconnect(e: Fault) -> (r: bool)
    ensures
        r == (e != Fault::Interrupted && e != Fault::Other),
{
    match e {
        Fault::ConnectionReset => true,
        Fault::ConnectionAborted => true,
        Fault::BrokenPipe => true,
        Fault::NotConnected => true,
        Fault::UnexpectedEof => true,
        Fault::Interrupted => false,
        Fault::Other => false,
    }
}

/// What the input direction of an attachment sends. It never kills a session
/// and never shuts the daemon down.
#[derive(Debug, Clone, PartialEq, Eq)]
pub struct AttachWriter {
    pub uid: String,
}

impl AttachWriter {
    /// The request that forwards typed text; none, where there is no text.
    pub fn send_input(&self, data: &str) -> (r: Option<ClientMsg>)
        ensures
            match r {
                Some(m) => data@.len() > 0 && m@ == (ClientView::Write {
                    uid: self.uid@,
                    data: data@,
                }),
                None => data@.len() == 0,
            },
    {
        if data.is_empty() {
            None
        } else {
            Some(ClientMsg::Write { uid: self.uid.clone(), data: owned(data) })
        }
    }

    /// The request to resize the session, under [`ResizePolicy::Request`] only.
    pub fn request_resize(&self, cols: u16, rows: u16) -> (r: ClientMsg)
        ensures
            r@ == (ClientView::Resize { uid: self.uid@, cols, rows }),
    {
        ClientMsg::Resize { uid: self.uid.clone(), cols, rows }
    }

    /// The request to send the session's buffer again.
    pub fn request_repaint(&self) -> (r: ClientMsg)
        ensures
            r@ == (ClientView::Attach { uid: self.uid@ }),
    {
        ClientMsg::Attach { uid: self.uid.clone() }
    }

    /// What is sent when the local terminal changes its size: only a client
    /// that asks for its own size resizes the session, and any other redraws
    /// what the session holds.
    pub fn terminal_resized(&self, policy: ResizePolicy, cols: u16, rows: u16) -> (r: ClientMsg)
        ensures
            r@ == (match policy {
                ResizePolicy::Observe => ClientView::Attach { uid: self.uid@ },
                ResizePolicy::Request => ClientView::Resize { uid: self.uid@, cols, rows },
            }),
    {
        match policy {
            ResizePolicy::Observe => self.request_repaint(),
            ResizePolicy::Request => self.request_resize(cols, rows),
        }
    }
}

// ---------------------------------------------------------------------------
// The detach key
// ---------------------------------------------------------------------------

/// The control byte that leaves a session, where no other is chosen: `Ctrl-\`.
pub const DEFAULT_DETACH_PREFIX: u8 = 0x1C;

/// A string with its ASCII letters in lower case.
pub open spec fn lowered(s: Seq<char>) -> Seq<char> {
    Seq::new(s.len(), |i: int| crate::text::ascii_lower(s[i]))
}

/// What follows `Ctrl-` in the ways to write it, in lower case.
pub open spec fn after_ctrl(s: Seq<char>) -> Option<Seq<char>> {
    let l = lowered(s);
    if has_prefix(l, "ctrl-"@) {
        Some(l.skip("ctrl-"@.len() as int))
    } else if has_prefix(l, "c-"@) {
        Some(l.skip("c-"@.len() as int))
    } else if has_prefix(l, "^"@) {
        Some(l.skip("^"@.len() as int))
    } else {
        None
    }
}

/// The control byte of a key, where it has one: `@`, a letter, or one of
/// `[ \ ] ^ _`.
pub open spec fn control_of(c: char) -> Option<u8> {
    let u = crate::text::ascii_upper(c);
    if '@' <= u <= '_' {
        Some((u as u8 % 32) as u8)
    } else {
        None
    }
}

/// Whether a character is a control character.
pub open spec fn is_control(c: char) -> bool {
    c <= '\u{1f}'
}

/// The control byte that a key spec names, or why it names none.
pub open spec fn detach_key(spec: Seq<char>) -> Result<u8, Seq<char>> {
    let s = trim(spec);
    if s.len() == 0 {
        Err("empty detach key"@)
    } else {
        match after_ctrl(s) {
            None => if s.len() == 1 && is_control(s[0]) {
                Ok(s[0] as u8)
            } else {
                Err("invalid detach key '"@ + s + "' (use e.g. C-\\, C-], ctrl-o)"@)
            },
            Some(rest) => if rest.len() != 1 || rest[0] > '\u{7f}' {
                Err("invalid detach key '"@ + s + "' (name exactly one key, e.g. C-\\)"@)
            } else {
                match control_of(rest[0]) {
                    Some(b) => Ok(b),
                    None => Err(
                        "'"@ + s
                            + "' is not a control key (Ctrl- works on @, A-Z, [, \\, ], ^, _)"@,
                    ),
                }
            },
        }
    }
}

/// A control byte, or why there is none.
pub open spec fn key_result(r: Result<u8, String>) -> Result<u8, Seq<char>> {
    match r {
        Ok(b) => Ok(b),
        Err(e) => Err(e@),
    }
}

fn lower_all(s: &[char]) -> (r: Vec<char>)
    ensures
        r@ == lowered(s@),
{
    let mut out: Vec<char> = Vec::new();
    let mut i: usize = 0;
    while i < s.len()
        invariant
            i <= s@.len(),
            out@.len() == i,
            forall|j: int| 0 <= j < i ==> #[trigger] out@[j] == crate::text::ascii_lower(s@[j]),
        decreases s.len() - i,
    {
        out.push(to_lower(s[i]));
        i = i + 1;
    }
    assert(out@ =~= lowered(s@));
    out
}

fn quoted(before: &str, s: &str, after: &str) -> (r: String)
    ensures
        r@ == before@ + s@ + after@,
{
    let mut e = owned(before);
    e.append(s);
    e.append(after);
    e
}

fn strip_ctrl(s: &[char]) -> (r: Option<Vec<char>>)
    ensures
        match r {
            Some(v) => after_ctrl(s@) == Some(v@),
            None => after_ctrl(s@) is None,
        },
{
    let l = lower_all(s);
    let long = chars_of("ctrl-");
    let short = chars_of("c-");
    let caret = chars_of("^");
    let n: usize = if starts_with(l.as_slice(), long.as_slice()) {
        long.len()
    } else if starts_with(l.as_slice(), short.as_slice()) {
        short.len()
    } else if starts_with(l.as_slice(), caret.as_slice()) {
        caret.len()
    } else {
        return None;
    };
    let rest = vstd::slice::slice_subrange(l.as_slice(), n, l.len());
    assert(rest@ =~= l@.skip(n as int));
    Some(vstd::slice::slice_to_vec(rest))
}

fn control_byte(c: char) -> (r: Option<u8>)
    ensures
        r == control_of(c),
{
    let u = to_upper(c);
    if '@' <= u && u <= '_' {
        Some((u as u8) % 32)
    } else {
        None
    }
}

/// The control byte that a key spec names: `C-x`, `ctrl-x` or `^x`, or the
/// control byte itself. A key that types something is refused.
pub fn parse_detach_key(spec: &str) -> (r: Result<u8, String>)
    ensures
        key_result(r) == detach_key(spec@),
{
    let chars = chars_of(spec);
    let t = trimmed(chars.as_slice());
    if t.len() == 0 {
        return Err(owned("empty detach key"));
    }
    let s = string_of(t);
    match strip_ctrl(t) {
        None => {
            if t.len() == 1 && t[0] <= '\u{1f}' {
                let b = t[0] as u8;
                return Ok(b);
            }
            Err(quoted("invalid detach key '", s.as_str(), "' (use e.g. C-\\, C-], ctrl-o)"))
        },
        Some(rest) => {
            if rest.len() != 1 || rest[0] > '\u{7f}' {
                return Err(
                    quoted(
                        "invalid detach key '",
                        s.as_str(),
                        "' (name exactly one key, e.g. C-\\)",
                    ),
                );
            }
            match control_byte(rest[0]) {
                Some(b) => Ok(b),
                None => Err(
                    quoted(
                        "'",
                        s.as_str(),
                        "' is not a control key (Ctrl- works on @, A-Z, [, \\, ], ^, _)",
                    ),
                ),
            }
        },
    }
}

/// The spec of a control byte, to be shown; a byte that is none is shown as a
/// number.
pub open spec fn key_label(key: u8) -> Seq<char> {
    if key < 0x20 {
        "C-"@ + seq![((key + 0x40) as u8) as char]
    } else {
        "0x"@ + hex(key as nat, 2)
    }
}

/// The spec of a control byte, to be shown.
pub fn detach_key_label(key: u8) -> (r: String)
    ensures
        r@ == key_label(key),
{
    if key < 0x20 {
        let mut s = owned("C-");
        s.push((key + 0x40) as char);
        assert(s@ =~= key_label(key));
        s
    } else {
        let mut s = owned("0x");
        s.append(hexadecimal(key as u64, 2).as_str());
        s
    }
}

/// What is shown for a control byte names that byte.
pub proof fn law_label_names_the_key(key: u8)
    requires
        key < 0x20,
    ensures
        detach_key(key_label(key)) == Ok::<u8, Seq<char>>(key),
{
    let s = key_label(key);
    let c = ((key + 0x40) as u8) as char;
    reveal_strlit("C-");
    reveal_strlit("c-");
    reveal_strlit("ctrl-");
    reveal_strlit("^");
    assert(s.len() == 3 && s[0] == 'C' && s[1] == '-' && s[2] == c);
    assert('@' <= c <= '_');
    lemma_no_white_space(s);
    let l = lowered(s);
    assert(l[0] == 'c' && l[1] == '-' && l[2] == crate::text::ascii_lower(c));
    assert(!has_prefix(l, "ctrl-"@)) by {
        assert(l.len() < "ctrl-"@.len());
    }
    assert(has_prefix(l, "c-"@)) by {
        assert(l.take(2) =~= "c-"@);
    }
    assert(l.skip(2) =~= seq![crate::text::ascii_lower(c)]);
}

proof fn lemma_no_white_space(s: Seq<char>)
    requires
        s.len() > 0,
        !crate::text::is_white_space(s[0]),
        !crate::text::is_white_space(s.last()),
    ensures
        trim(s) == s,
{
}

/// What is to be done with a chunk of typed bytes.
#[derive(Debug, Clone, PartialEq, Eq)]
pub struct FilterOut {
    /// The bytes for the session.
    pub forward: Vec<u8>,
    /// The detach key was typed; what came after it is dropped.
    pub detach: bool,
}

/// What typed bytes come to: what is forwarded, whether the user detached, and
/// whether the filter waits for the key after the prefix.
#[verifier::ext_equal]
pub struct Typed {
    pub forward: Seq<u8>,
    pub detach: bool,
    pub armed: bool,
}

/// Whether a key after the prefix detaches.
pub open spec fn leaves(b: u8) -> bool {
    b == 100 || b == 68
}

/// One byte more. After a detach nothing counts.
pub open spec fn typed_byte(t: Typed, prefix: u8, b: u8) -> Typed {
    if t.detach {
        t
    } else if t.armed {
        if b != prefix && leaves(b) {
            Typed { forward: t.forward, detach: true, armed: false }
        } else {
            Typed { forward: t.forward.push(b), detach: false, armed: false }
        }
    } else if b == prefix {
        Typed { forward: t.forward, detach: false, armed: true }
    } else {
        Typed { forward: t.forward.push(b), detach: false, armed: false }
    }
}

/// What typed bytes come to, after what came before them.
pub open spec fn typed(t: Typed, prefix: u8, buf: Seq<u8>) -> Typed
    decreases buf.len(),
{
    if buf.len() == 0 {
        t
    } else {
        typed_byte(typed(t, prefix, buf.drop_last()), prefix, buf.last())
    }
}

/// The state before any byte of a chunk.
pub open spec fn nothing_typed(armed: bool) -> Typed {
    Typed { forward: Seq::empty(), detach: false, armed }
}

proof fn lemma_typed_concat(t: Typed, prefix: u8, a: Seq<u8>, b: Seq<u8>)
    ensures
        typed(t, prefix, a + b) == typed(typed(t, prefix, a), prefix, b),
    decreases b.len(),
{
    if b.len() == 0 {
        assert(a + b =~= a);
    } else {
        lemma_typed_concat(t, prefix, a, b.drop_last());
        assert((a + b).drop_last() =~= a + b.drop_last());
        assert((a + b).last() == b.last());
    }
}

proof fn lemma_typed_forward(t: Typed, prefix: u8, buf: Seq<u8>)
    requires
        !t.detach,
    ensures
        ({
            let u = typed(nothing_typed(t.armed), prefix, buf);
            typed(t, prefix, buf) == (Typed { forward: t.forward + u.forward, ..u })
        }),
    decreases buf.len(),
{
    let u = typed(nothing_typed(t.armed), prefix, buf);
    if buf.len() == 0 {
        assert(t.forward + u.forward =~= t.forward);
    } else {
        lemma_typed_forward(t, prefix, buf.drop_last());
        let v = typed(nothing_typed(t.armed), prefix, buf.drop_last());
        assert(t.forward + v.forward.push(buf.last()) =~= (t.forward + v.forward).push(buf.last()));
    }
}

/// It does not matter how typed bytes are cut into chunks: what two chunks come
/// to one after the other, they come to as one.
pub proof fn law_chunks_do_not_matter(prefix: u8, armed: bool, a: Seq<u8>, b: Seq<u8>)
    requires
        !typed(nothing_typed(armed), prefix, a).detach,
    ensures
        ({
            let first = typed(nothing_typed(armed), prefix, a);
            let second = typed(nothing_typed(first.armed), prefix, b);
            let both = typed(nothing_typed(armed), prefix, a + b);
            &&& both.forward == first.forward + second.forward
            &&& both.detach == second.detach
            &&& both.armed == second.armed
        }),
{
    lemma_typed_concat(nothing_typed(armed), prefix, a, b);
    lemma_typed_forward(typed(nothing_typed(armed), prefix, a), prefix, b);
}

/// Bytes that hold no prefix pass as they are, where none was typed before.
pub proof fn law_ordinary_keys_pass(prefix: u8, buf: Seq<u8>)
    requires
        !buf.contains(prefix),
    ensures
        typed(nothing_typed(false), prefix, buf) == (Typed {
            forward: buf,
            detach: false,
            armed: false,
        }),
    decreases buf.len(),
{
    if buf.len() > 0 {
        let d = buf.drop_last();
        assert(buf.contains(buf[buf.len() - 1]));
        assert forall|i: int| 0 <= i < d.len() implies #[trigger] d[i] != prefix by {
            assert(buf.contains(buf[i]));
        }
        law_ordinary_keys_pass(prefix, d);
        assert(buf =~= d.push(buf.last()));
    } else {
        assert(buf =~= Seq::<u8>::empty());
    }
}

/// The state machine of the detach key: the prefix and `d` leave, the prefix
/// twice is one literal prefix, and the prefix before any other key is dropped.
#[derive(Debug, Clone, Copy, PartialEq, Eq, Structural)]
pub struct DetachFilter {
    pub prefix: u8,
    pub armed: bool,
}

impl Default for DetachFilter {
    fn default() -> (r: DetachFilter)
        ensures
            r == (DetachFilter { prefix: 0, armed: false }),
    {
        DetachFilter { prefix: 0, armed: false }
    }
}

impl DetachFilter {
    /// A filter that watches for `prefix`.
    pub fn new(prefix: u8) -> (r: DetachFilter)
        ensures
            r == (DetachFilter { prefix, armed: false }),
    {
        DetachFilter { prefix, armed: false }
    }

    /// Whether the prefix was typed and the key after it is waited for.
    pub fn armed(&self) -> (r: bool)
        ensures
            r == self.armed,
    {
        self.armed
    }

    /// Takes a chunk of typed bytes in.
    pub fn feed(&mut self, buf: &[u8]) -> (r: FilterOut)
        ensures
            final(self).prefix == old(self).prefix,
            ({
                let t = typed(nothing_typed(old(self).armed), old(self).prefix, buf@);
                r.forward@ == t.forward && r.detach == t.detach && final(self).armed == t.armed
            }),
    {
        let ghost start = nothing_typed(self.armed);
        let mut forward: Vec<u8> = Vec::new();
        let mut i: usize = 0;
        assert(buf@.take(0) =~= Seq::<u8>::empty());
        while i < buf.len()
            invariant
                i <= buf@.len(),
                self.prefix == old(self).prefix,
                start == nothing_typed(old(self).armed),
                typed(start, self.prefix, buf@.take(i as int)) == (Typed {
                    forward: forward@,
                    detach: false,
                    armed: self.armed,
                }),
            decreases buf.len() - i,
        {
            let b: u8 = buf[i];
            assert(buf@.take(i + 1).drop_last() =~= buf@.take(i as int));
            assert(buf@.take(i + 1).last() == b);
            if self.armed {
                self.armed = false;
                if b != self.prefix && (b == 100 || b == 68) {
                    proof {
                        let first = buf@.take(i + 1);
                        let rest = buf@.skip(i + 1);
                        assert(first + rest =~= buf@);
                        lemma_typed_concat(start, self.prefix, first, rest);
                        lemma_left_for_good(typed(start, self.prefix, first), self.prefix, rest);
                    }
                    return FilterOut { forward, detach: true };
                }
                forward.push(b);
            } else if b == self.prefix {
                self.armed = true;
            } else {
                forward.push(b);
            }
            i = i + 1;
        }
        assert(buf@.take(i as int) =~= buf@);
        FilterOut { forward, detach: false }
    }
}

proof fn lemma_left_for_good(t: Typed, prefix: u8, buf: Seq<u8>)
    requires
        t.detach,
    ensures
        typed(t, prefix, buf) == t,
    decreases buf.len(),
{
    if buf.len() > 0 {
        lemma_left_for_good(t, prefix, buf.drop_last());
    }
}

/// Takes a chunk of typed bytes in. Returns the request to send, where there is
/// text to forward, and whether the user detached. A character that a chunk
/// boundary cuts in two is sent as a whole.
pub fn pump_input(
    buf: &[u8],
    carry: &mut Vec<u8>,
    writer: &AttachWriter,
    filter: &mut DetachFilter,
) -> (r: (Option<ClientMsg>, bool))
    ensures
        ({
            let t = typed(nothing_typed(old(filter).armed), old(filter).prefix, buf@);
            let all = old(carry)@ + t.forward;
            let text = lossy_text(whole_part(all));
            &&& final(filter).prefix == old(filter).prefix
            &&& final(filter).armed == t.armed
            &&& final(carry)@ == cut_part(all)
            &&& valid_utf8(whole_part(all)) ==> text == decode_utf8(whole_part(all))
            &&& r.1 == t.detach
            &&& match r.0 {
                Some(m) => text.len() > 0 && m@ == (ClientView::Write {
                    uid: writer.uid@,
                    data: text,
                }),
                None => text.len() == 0,
            }
        }),
{
    let out = filter.feed(buf);
    let text = decode_utf8_streaming(carry, out.forward.as_slice());
    (writer.send_input(text.as_str()), out.detach)
}

} // verus!
