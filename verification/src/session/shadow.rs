//! What a client of the daemon knows of each session, so that it can answer
//! without asking: kept up from the events that the daemon sends and from its
//! snapshots.

use crate::assoc::{assoc_get, assoc_kept, assoc_ordered, assoc_put, assoc_remove,
    law_assoc_kept_get, law_assoc_put_get, law_assoc_remove_get, law_assoc_stays_ordered,
    lemma_assoc_equal, lemma_assoc_kept_ordered, StrMap};
use crate::session::proto::{meta_views, EventView, MetaView, SessionEvent, SessionMeta};
use crate::session::replay::{retained, tail_units, utf16_tail, Replay};
use crate::text::{opt_copy, opt_view, owned, same, utf16_count, utf16_len};
use vstd::prelude::*;

verus! {

/// What is known of one session.
#[derive(Debug, Clone, PartialEq, Eq)]
pub struct Shadow {
    /// A mirror of the recent output.
    pub replay: Replay,
    /// The output cursor, in UTF-16 code units.
    pub output_bytes: u64,
    /// When output last came, in milliseconds since the epoch.
    pub last_output_at: Option<u64>,
    /// The directory that the shell reported last.
    pub cwd: Option<String>,
    /// What runs in the foreground, where the daemon knows.
    pub foreground: Option<String>,
    /// Where that is.
    pub fg_cwd: Option<String>,
    /// The grid, where the daemon knows.
    pub dims: Option<(u16, u16)>,
    /// The session was asked for here, and no snapshot has shown it yet.
    pub pending: bool,
}

/// What is known of one session.
#[verifier::ext_equal]
pub struct ShadowView {
    pub replay: Seq<char>,
    pub output_bytes: u64,
    pub last_output_at: Option<u64>,
    pub cwd: Option<Seq<char>>,
    pub foreground: Option<Seq<char>>,
    pub fg_cwd: Option<Seq<char>>,
    pub dims: Option<(u16, u16)>,
    pub pending: bool,
}

impl View for Shadow {
    type V = ShadowView;

    open spec fn view(&self) -> ShadowView {
        ShadowView {
            replay: self.replay@,
            output_bytes: self.output_bytes,
            last_output_at: self.last_output_at,
            cwd: opt_view(self.cwd),
            foreground: opt_view(self.foreground),
            fg_cwd: opt_view(self.fg_cwd),
            dims: self.dims,
            pending: self.pending,
        }
    }
}

/// What is known of the sessions.
pub type Shadows = Seq<(Seq<char>, ShadowView)>;

/// A session of which nothing is known.
pub open spec fn blank_shadow() -> ShadowView {
    ShadowView {
        replay: Seq::empty(),
        output_bytes: 0,
        last_output_at: None,
        cwd: None,
        foreground: None,
        fg_cwd: None,
        dims: None,
        pending: false,
    }
}

/// What is known of a session; nothing, where it is new.
pub open spec fn shadow_or_blank(s: Shadows, uid: Seq<char>) -> ShadowView {
    match assoc_get(s, uid) {
        Some(sh) => sh,
        None => blank_shadow(),
    }
}

impl Shadow {
    /// A session of which nothing is known.
    pub fn new() -> (r: Shadow)
        ensures
            r@ == blank_shadow(),
    {
        Shadow {
            replay: Replay::new(),
            output_bytes: 0,
            last_output_at: None,
            cwd: None,
            foreground: None,
            fg_cwd: None,
            dims: None,
            pending: false,
        }
    }

    /// A session that was asked for and has not been confirmed.
    pub fn new_pending() -> (r: Shadow)
        ensures
            r@ == (ShadowView { pending: true, ..blank_shadow() }),
    {
        let mut s = Shadow::new();
        s.pending = true;
        s
    }

    /// A copy.
    pub fn copy(&self) -> (r: Shadow)
        ensures
            r@ == self@,
    {
        Shadow {
            replay: self.replay.copy(),
            output_bytes: self.output_bytes,
            last_output_at: self.last_output_at,
            cwd: opt_copy(&self.cwd),
            foreground: opt_copy(&self.foreground),
            fg_cwd: opt_copy(&self.fg_cwd),
            dims: self.dims,
            pending: self.pending,
        }
    }
}

fn copy_or_blank(shadows: &StrMap<Shadow>, uid: &str) -> (r: Shadow)
    ensures
        r@ == shadow_or_blank(shadows@, uid@),
{
    match shadows.get(uid) {
        Some(s) => s.copy(),
        None => Shadow::new(),
    }
}

pub open spec fn larger(a: u64, b: u64) -> u64 {
    if a >= b {
        a
    } else {
        b
    }
}

// ---------------------------------------------------------------------------
// The replay
// ---------------------------------------------------------------------------

/// The mirror after a replay that ends at `cursor`: the replay, followed by
/// what the mirror holds past the cursor, which came live and ran ahead.
pub open spec fn spliced(sh: ShadowView, cursor: u64, data: Seq<char>) -> ShadowView {
    let tail = if sh.output_bytes > cursor {
        tail_units(sh.replay, (sh.output_bytes - cursor) as nat)
    } else {
        Seq::empty()
    };
    ShadowView {
        replay: retained(retained(data) + tail),
        output_bytes: larger(sh.output_bytes, cursor),
        ..sh
    }
}

/// Seeds a mirror from a replay whose text ends at the output cursor `cursor`.
pub fn splice_replay(shadow: &mut Shadow, cursor: u64, data: &str)
    ensures
        final(shadow)@ == spliced(old(shadow)@, cursor, data@),
{
    let tail = if shadow.output_bytes > cursor {
        utf16_tail(shadow.replay.get(), shadow.output_bytes - cursor)
    } else {
        String::new()
    };
    let mut merged = Replay::new();
    merged.append(data);
    assert(Seq::<char>::empty() + data@ =~= data@);
    merged.append(tail.as_str());
    shadow.replay = merged;
    if cursor > shadow.output_bytes {
        shadow.output_bytes = cursor;
    }
}

/// A replay never takes the cursor back, touches nothing but the mirror and the
/// cursor, and where the mirror holds nothing past it, is the mirror.
pub proof fn law_splice_keeps_the_cursor(sh: ShadowView, cursor: u64, data: Seq<char>)
    requires
        utf16_len(data) <= crate::session::replay::REPLAY_MAX,
    ensures
        spliced(sh, cursor, data).output_bytes >= sh.output_bytes,
        spliced(sh, cursor, data).output_bytes >= cursor,
        sh.output_bytes <= cursor ==> spliced(sh, cursor, data).replay == data,
        spliced(sh, cursor, data).cwd == sh.cwd,
        spliced(sh, cursor, data).pending == sh.pending,
{
    crate::session::replay::law_tail_is_an_end(
        data,
        crate::session::replay::REPLAY_MAX as nat,
    );
    assert(data + Seq::<char>::empty() =~= data);
}

/// A chunk that ran ahead of the replay is neither lost nor doubled: where the
/// mirror is the output from some point to its cursor, and the replay is the
/// output up to a point no earlier than that, the mirror is then all of the
/// output.
pub proof fn law_splice_joins_the_output(
    sh: ShadowView,
    before: Seq<char>,
    shared: Seq<char>,
    ahead: Seq<char>,
    cursor: u64,
)
    requires
        sh.replay == shared + ahead,
        sh.output_bytes == cursor + utf16_len(ahead),
        utf16_len(before + shared + ahead) <= crate::session::replay::REPLAY_MAX,
    ensures
        spliced(sh, cursor, before + shared).replay == before + shared + ahead,
        spliced(sh, cursor, before + shared).output_bytes == sh.output_bytes,
{
    let max = crate::session::replay::REPLAY_MAX as nat;
    crate::text::lemma_utf16_concat(before + shared, ahead);
    crate::session::replay::law_tail_is_an_end(before + shared, max);
    crate::session::replay::law_tail_is_an_end(before + shared + ahead, max);
    lemma_tail_of_concat(shared, ahead);
    if sh.output_bytes <= cursor {
        lemma_no_units(ahead);
        assert(ahead =~= Seq::<char>::empty());
    }
}

proof fn lemma_no_units(s: Seq<char>)
    requires
        utf16_len(s) == 0,
    ensures
        s.len() == 0,
{
    crate::text::lemma_utf16_fits(s);
}

proof fn lemma_tail_of_concat(a: Seq<char>, b: Seq<char>)
    ensures
        tail_units(a + b, utf16_len(b)) == b,
    decreases b.len(),
{
    let s = a + b;
    if b.len() == 0 {
        if s.len() > 0 {
            assert(crate::text::units(s.last()) > 0);
        }
        assert(tail_units(s, 0) =~= b);
    } else {
        assert(s.last() == b.last());
        assert(s.drop_last() =~= a + b.drop_last());
        lemma_tail_of_concat(a, b.drop_last());
        assert(tail_units(s, utf16_len(b)) =~= b);
    }
}

// ---------------------------------------------------------------------------
// Snapshots
// ---------------------------------------------------------------------------

/// Both, or none.
pub open spec fn both(cols: Option<u16>, rows: Option<u16>) -> Option<(u16, u16)> {
    match (cols, rows) {
        (Some(c), Some(r)) => Some((c, r)),
        _ => None,
    }
}

/// The first, where there is one, else the second.
pub open spec fn either<T>(a: Option<T>, b: Option<T>) -> Option<T> {
    match a {
        Some(x) => Some(x),
        None => b,
    }
}

/// What is known of a session after a snapshot shows it. The cursor never goes
/// back; what runs in the foreground and the grid are as the snapshot says,
/// nothing included; the mirror is not touched.
pub open spec fn refreshed(sh: ShadowView, m: MetaView) -> ShadowView {
    ShadowView {
        replay: sh.replay,
        output_bytes: larger(sh.output_bytes, m.output_bytes),
        last_output_at: either(m.last_output_at, sh.last_output_at),
        cwd: either(m.cwd, sh.cwd),
        foreground: m.foreground,
        fg_cwd: m.fg_cwd,
        dims: both(m.cols, m.rows),
        pending: false,
    }
}

/// Whether a snapshot shows a session.
pub open spec fn shows(metas: Seq<MetaView>, uid: Seq<char>) -> bool {
    exists|i: int| 0 <= i < metas.len() && (#[trigger] metas[i]).uid == uid
}

/// Whether a session outlives a snapshot: it is shown, or not confirmed yet.
pub open spec fn outlives(metas: Seq<MetaView>) -> spec_fn(Seq<char>, ShadowView) -> bool {
    |uid: Seq<char>, sh: ShadowView| shows(metas, uid) || sh.pending
}

/// The sessions with each that is shown refreshed, in turn.
pub open spec fn all_refreshed(s: Shadows, metas: Seq<MetaView>) -> Shadows
    decreases metas.len(),
{
    if metas.len() == 0 {
        s
    } else {
        let before = all_refreshed(s, metas.drop_last());
        let m = metas.last();
        assoc_put(before, m.uid, refreshed(shadow_or_blank(before, m.uid), m))
    }
}

/// What is known after a snapshot of all sessions.
pub open spec fn reconciled(s: Shadows, metas: Seq<MetaView>) -> Shadows {
    all_refreshed(assoc_kept(s, outlives(metas)), metas)
}

fn is_shown(metas: &[SessionMeta], uid: &str) -> (r: bool)
    ensures
        r == shows(meta_views(metas@), uid@),
{
    let ghost ms = meta_views(metas@);
    let mut i: usize = 0;
    while i < metas.len()
        invariant
            i <= metas@.len(),
            ms == meta_views(metas@),
            forall|j: int| 0 <= j < i ==> (#[trigger] ms[j]).uid != uid@,
        decreases metas.len() - i,
    {
        assert(ms[i as int].uid == metas@[i as int].uid@);
        if same(metas[i].uid.as_str(), uid) {
            return true;
        }
        i = i + 1;
    }
    false
}

fn both_of(cols: Option<u16>, rows: Option<u16>) -> (r: Option<(u16, u16)>)
    ensures
        r == both(cols, rows),
{
    match (cols, rows) {
        (Some(c), Some(r)) => Some((c, r)),
        _ => None,
    }
}

fn refresh(sh: &mut Shadow, m: &SessionMeta)
    ensures
        final(sh)@ == refreshed(old(sh)@, m@),
{
    sh.pending = false;
    if m.output_bytes > sh.output_bytes {
        sh.output_bytes = m.output_bytes;
    }
    if m.last_output_at.is_some() {
        sh.last_output_at = m.last_output_at;
    }
    if m.cwd.is_some() {
        sh.cwd = opt_copy(&m.cwd);
    }
    sh.foreground = opt_copy(&m.foreground);
    sh.fg_cwd = opt_copy(&m.fg_cwd);
    sh.dims = both_of(m.cols, m.rows);
}

/// Folds a snapshot of all sessions in. A session that it does not show is
/// forgotten, unless it was asked for here and not confirmed yet.
pub fn reconcile_snapshot(shadows: &mut StrMap<Shadow>, metas: &[SessionMeta])
    requires
        assoc_ordered(old(shadows)@),
    ensures
        final(shadows)@ == reconciled(old(shadows)@, meta_views(metas@)),
        assoc_ordered(final(shadows)@),
{
    let ghost s = shadows@;
    let ghost ms = meta_views(metas@);
    let ghost keep = outlives(ms);
    let mut kept: StrMap<Shadow> = StrMap::new();
    let mut i: usize = 0;
    assert(s.take(0) =~= Seq::<(Seq<char>, ShadowView)>::empty());
    while i < shadows.entries.len()
        invariant
            i <= shadows.entries@.len(),
            s == shadows@,
            ms == meta_views(metas@),
            keep == outlives(ms),
            kept@ == assoc_kept(s.take(i as int), keep),
        decreases shadows.entries.len() - i,
    {
        let ghost before = kept@;
        assert(s.take(i + 1).drop_last() =~= s.take(i as int));
        assert(s.take(i + 1).last() == s[i as int]);
        let uid = shadows.entries[i].0.as_str();
        assert(s[i as int] == (uid@, shadows.entries@[i as int].1@));
        assert(keep(s[i as int].0, s[i as int].1) == (shows(ms, uid@)
            || shadows.entries@[i as int].1.pending));
        if shadows.entries[i].1.pending || is_shown(metas, uid) {
            kept.entries.push((owned(uid), shadows.entries[i].1.copy()));
            assert(kept@ =~= before.push(s[i as int]));
        }
        i = i + 1;
    }
    proof {
        assert(s.take(i as int) =~= s);
        lemma_assoc_kept_ordered(s, keep);
    }
    let ghost base = kept@;
    let mut j: usize = 0;
    assert(ms.take(0) =~= Seq::<MetaView>::empty());
    while j < metas.len()
        invariant
            j <= metas@.len(),
            ms == meta_views(metas@),
            kept@ == all_refreshed(base, ms.take(j as int)),
            assoc_ordered(kept@),
        decreases metas.len() - j,
    {
        assert(ms.take(j + 1).drop_last() =~= ms.take(j as int));
        assert(ms.take(j + 1).last() == metas@[j as int]@);
        let uid = metas[j].uid.as_str();
        let mut sh = copy_or_blank(&kept, uid);
        refresh(&mut sh, &metas[j]);
        kept.insert(uid, sh);
        j = j + 1;
    }
    assert(ms.take(j as int) =~= ms);
    *shadows = kept;
}

// ---------------------------------------------------------------------------
// Laws of snapshots
// ---------------------------------------------------------------------------

/// What a snapshot makes of one session, by what was known of it.
pub open spec fn folded(
    o: Option<ShadowView>,
    metas: Seq<MetaView>,
    uid: Seq<char>,
) -> Option<ShadowView>
    decreases metas.len(),
{
    if metas.len() == 0 {
        o
    } else {
        let before = folded(o, metas.drop_last(), uid);
        if metas.last().uid == uid {
            Some(
                refreshed(
                    match before {
                        Some(sh) => sh,
                        None => blank_shadow(),
                    },
                    metas.last(),
                ),
            )
        } else {
            before
        }
    }
}

proof fn lemma_refreshed_get(s: Shadows, metas: Seq<MetaView>, uid: Seq<char>)
    requires
        assoc_ordered(s),
    ensures
        assoc_get(all_refreshed(s, metas), uid) == folded(assoc_get(s, uid), metas, uid),
        assoc_ordered(all_refreshed(s, metas)),
    decreases metas.len(),
{
    if metas.len() > 0 {
        let d = metas.drop_last();
        lemma_refreshed_get(s, d, uid);
        let before = all_refreshed(s, d);
        let m = metas.last();
        let v = refreshed(shadow_or_blank(before, m.uid), m);
        law_assoc_put_get(before, m.uid, v, uid);
        law_assoc_stays_ordered(before, m.uid, v);
    }
}

proof fn lemma_reconciled_get(s: Shadows, metas: Seq<MetaView>, uid: Seq<char>)
    requires
        assoc_ordered(s),
    ensures
        assoc_ordered(reconciled(s, metas)),
        assoc_get(reconciled(s, metas), uid) == folded(
            match assoc_get(s, uid) {
                Some(sh) => if shows(metas, uid) || sh.pending {
                    Some(sh)
                } else {
                    None
                },
                None => None,
            },
            metas,
            uid,
        ),
{
    let keep = outlives(metas);
    lemma_assoc_kept_ordered(s, keep);
    law_assoc_kept_get(s, keep, uid);
    lemma_refreshed_get(assoc_kept(s, keep), metas, uid);
}

proof fn lemma_not_shown(o: Option<ShadowView>, metas: Seq<MetaView>, uid: Seq<char>)
    requires
        !shows(metas, uid),
    ensures
        folded(o, metas, uid) == o,
    decreases metas.len(),
{
    if metas.len() > 0 {
        let d = metas.drop_last();
        assert(metas[metas.len() - 1].uid != uid);
        assert forall|i: int| 0 <= i < d.len() implies (#[trigger] d[i]).uid != uid by {
            assert(metas[i].uid != uid);
        }
        lemma_not_shown(o, d, uid);
    }
}

/// A session that the daemon does not show is forgotten; one that was asked for
/// here and is not confirmed stays.
pub proof fn law_unconfirmed_session_outlives_a_snapshot(
    s: Shadows,
    metas: Seq<MetaView>,
    uid: Seq<char>,
)
    requires
        assoc_ordered(s),
        !shows(metas, uid),
    ensures
        assoc_get(reconciled(s, metas), uid) == (match assoc_get(s, uid) {
            Some(sh) => if sh.pending {
                Some(sh)
            } else {
                None
            },
            None => None,
        }),
{
    lemma_reconciled_get(s, metas, uid);
    let o = match assoc_get(s, uid) {
        Some(sh) => if shows(metas, uid) || sh.pending {
            Some(sh)
        } else {
            None
        },
        None => None,
    };
    lemma_not_shown(o, metas, uid);
}

proof fn lemma_shown(o: Option<ShadowView>, metas: Seq<MetaView>, uid: Seq<char>)
    requires
        shows(metas, uid),
    ensures
        folded(o, metas, uid) matches Some(t) && !t.pending && t.output_bytes >= (match o {
            Some(sh) => sh.output_bytes,
            None => 0,
        }) && t.replay == (match o {
            Some(sh) => sh.replay,
            None => Seq::<char>::empty(),
        }),
    decreases metas.len(),
{
    let d = metas.drop_last();
    let k = choose|i: int| 0 <= i < metas.len() && (#[trigger] metas[i]).uid == uid;
    if metas.last().uid == uid {
        if shows(d, uid) {
            lemma_shown(o, d, uid);
        } else {
            lemma_not_shown(o, d, uid);
        }
    } else {
        assert(k < d.len());
        assert(d[k].uid == uid);
        lemma_shown(o, d, uid);
    }
}

/// A snapshot never takes the cursor of a session back and never touches its
/// mirror. A session that it shows is confirmed.
pub proof fn law_snapshot_keeps_cursor_and_mirror(
    s: Shadows,
    metas: Seq<MetaView>,
    uid: Seq<char>,
)
    requires
        assoc_ordered(s),
        shows(metas, uid),
    ensures
        assoc_get(reconciled(s, metas), uid) matches Some(t) && !t.pending && t.output_bytes
            >= shadow_or_blank(s, uid).output_bytes && t.replay == shadow_or_blank(s, uid).replay,
{
    lemma_reconciled_get(s, metas, uid);
    lemma_shown(assoc_get(s, uid), metas, uid);
}

/// What the metas of one session say together: the largest cursor, the last
/// time and directory that any gives, and what the last says of the rest.
#[verifier::ext_equal]
struct Summary {
    pub output_bytes: u64,
    pub last_output_at: Option<u64>,
    pub cwd: Option<Seq<char>>,
    pub foreground: Option<Seq<char>>,
    pub fg_cwd: Option<Seq<char>>,
    pub dims: Option<(u16, u16)>,
}

spec fn summed(metas: Seq<MetaView>, uid: Seq<char>) -> Summary
    decreases metas.len(),
{
    if metas.len() == 0 {
        Summary {
            output_bytes: 0,
            last_output_at: None,
            cwd: None,
            foreground: None,
            fg_cwd: None,
            dims: None,
        }
    } else {
        let b = summed(metas.drop_last(), uid);
        let m = metas.last();
        if m.uid == uid {
            Summary {
                output_bytes: larger(b.output_bytes, m.output_bytes),
                last_output_at: either(m.last_output_at, b.last_output_at),
                cwd: either(m.cwd, b.cwd),
                foreground: m.foreground,
                fg_cwd: m.fg_cwd,
                dims: both(m.cols, m.rows),
            }
        } else {
            b
        }
    }
}

spec fn applied(o: Option<ShadowView>, t: Summary) -> ShadowView {
    let sh = match o {
        Some(sh) => sh,
        None => blank_shadow(),
    };
    ShadowView {
        replay: sh.replay,
        output_bytes: larger(sh.output_bytes, t.output_bytes),
        last_output_at: either(t.last_output_at, sh.last_output_at),
        cwd: either(t.cwd, sh.cwd),
        foreground: t.foreground,
        fg_cwd: t.fg_cwd,
        dims: t.dims,
        pending: false,
    }
}

proof fn lemma_folded_is_applied(o: Option<ShadowView>, metas: Seq<MetaView>, uid: Seq<char>)
    ensures
        shows(metas, uid) ==> folded(o, metas, uid) == Some(applied(o, summed(metas, uid))),
        !shows(metas, uid) ==> summed(metas, uid) == summed(Seq::empty(), uid),
    decreases metas.len(),
{
    if metas.len() > 0 {
        let d = metas.drop_last();
        lemma_folded_is_applied(o, d, uid);
        assert(metas[metas.len() - 1] == metas.last());
        if metas.last().uid != uid && shows(metas, uid) {
            let k = choose|i: int| 0 <= i < metas.len() && (#[trigger] metas[i]).uid == uid;
            assert(d[k].uid == uid);
        }
        if shows(d, uid) {
            let k = choose|i: int| 0 <= i < d.len() && (#[trigger] d[i]).uid == uid;
            assert(metas[k].uid == uid);
        } else {
            lemma_not_shown(o, d, uid);
        }
    } else {
        assert(metas =~= Seq::<MetaView>::empty());
    }
}

/// Folding a snapshot in a second time changes nothing.
pub proof fn law_snapshot_is_idempotent(s: Shadows, metas: Seq<MetaView>)
    requires
        assoc_ordered(s),
    ensures
        reconciled(reconciled(s, metas), metas) == reconciled(s, metas),
{
    let t = reconciled(s, metas);
    let u = reconciled(t, metas);
    lemma_reconciled_get(s, metas, Seq::empty());
    lemma_reconciled_get(t, metas, Seq::empty());
    assert forall|k: Seq<char>| #[trigger] assoc_get(u, k) == assoc_get(t, k) by {
        lemma_reconciled_get(s, metas, k);
        lemma_reconciled_get(t, metas, k);
        if shows(metas, k) {
            let o = assoc_get(s, k);
            lemma_folded_is_applied(o, metas, k);
            lemma_folded_is_applied(assoc_get(t, k), metas, k);
        } else {
            law_unconfirmed_session_outlives_a_snapshot(s, metas, k);
            law_unconfirmed_session_outlives_a_snapshot(t, metas, k);
        }
    }
    lemma_assoc_equal(u, t);
}

// ---------------------------------------------------------------------------
// The first list
// ---------------------------------------------------------------------------

/// What is known of a session that the first list shows: its counters are taken
/// as they are.
pub open spec fn seeded_from(sh: ShadowView, m: MetaView) -> ShadowView {
    ShadowView {
        output_bytes: m.output_bytes,
        last_output_at: m.last_output_at,
        cwd: either(m.cwd, sh.cwd),
        foreground: m.foreground,
        fg_cwd: m.fg_cwd,
        dims: both(m.cols, m.rows),
        ..sh
    }
}

/// The sessions with each that the first list shows taken in, in turn.
pub open spec fn all_seeded(s: Shadows, metas: Seq<MetaView>) -> Shadows
    decreases metas.len(),
{
    if metas.len() == 0 {
        s
    } else {
        let before = all_seeded(s, metas.drop_last());
        let m = metas.last();
        assoc_put(before, m.uid, seeded_from(shadow_or_blank(before, m.uid), m))
    }
}

/// Takes in the list of sessions that answers the first request.
pub fn seed_snapshot(shadows: &mut StrMap<Shadow>, metas: &[SessionMeta])
    requires
        assoc_ordered(old(shadows)@),
    ensures
        final(shadows)@ == all_seeded(old(shadows)@, meta_views(metas@)),
        assoc_ordered(final(shadows)@),
{
    let ghost s = shadows@;
    let ghost ms = meta_views(metas@);
    let mut j: usize = 0;
    assert(ms.take(0) =~= Seq::<MetaView>::empty());
    while j < metas.len()
        invariant
            j <= metas@.len(),
            s == old(shadows)@,
            ms == meta_views(metas@),
            shadows@ == all_seeded(s, ms.take(j as int)),
            assoc_ordered(shadows@),
        decreases metas.len() - j,
    {
        assert(ms.take(j + 1).drop_last() =~= ms.take(j as int));
        assert(ms.take(j + 1).last() == metas@[j as int]@);
        let m = &metas[j];
        let uid = m.uid.as_str();
        let mut sh = copy_or_blank(shadows, uid);
        sh.output_bytes = m.output_bytes;
        sh.last_output_at = m.last_output_at;
        if m.cwd.is_some() {
            sh.cwd = opt_copy(&m.cwd);
        }
        sh.foreground = opt_copy(&m.foreground);
        sh.fg_cwd = opt_copy(&m.fg_cwd);
        sh.dims = both_of(m.cols, m.rows);
        shadows.insert(uid, sh);
        j = j + 1;
    }
    assert(ms.take(j as int) =~= ms);
}

// ---------------------------------------------------------------------------
// Events
// ---------------------------------------------------------------------------

/// What is known of a session after output of it.
pub open spec fn with_output(sh: ShadowView, data: Seq<char>, now: u64) -> ShadowView {
    ShadowView {
        replay: retained(sh.replay + data),
        output_bytes: (sh.output_bytes + utf16_len(data)) as u64,
        last_output_at: Some(now),
        ..sh
    }
}

/// What is known after an event: output grows the mirror and the cursor, a
/// directory is remembered, and a session that exited is forgotten.
pub open spec fn after_event(s: Shadows, ev: EventView, now: u64) -> Shadows {
    match ev {
        EventView::Data { uid, data, cursor } => assoc_put(
            s,
            uid,
            with_output(shadow_or_blank(s, uid), data, now),
        ),
        EventView::Cwd { uid, cwd } => assoc_put(
            s,
            uid,
            (ShadowView { cwd: Some(cwd), ..shadow_or_blank(s, uid) }),
        ),
        EventView::Exit { uid, code } => assoc_remove(s, uid),
        _ => s,
    }
}

/// Whether the cursor that an event gives a session can be counted.
pub open spec fn countable(s: Shadows, ev: EventView) -> bool {
    ev matches EventView::Data { uid, data, cursor } ==> shadow_or_blank(s, uid).output_bytes
        + utf16_len(data) <= u64::MAX
}

/// Folds one event in. `now_ms` is the time at which it came.
pub fn apply_event_to_shadow(shadows: &mut StrMap<Shadow>, ev: &SessionEvent, now_ms: u64)
    requires
        assoc_ordered(old(shadows)@),
        countable(old(shadows)@, ev@),
    ensures
        final(shadows)@ == after_event(old(shadows)@, ev@, now_ms),
        assoc_ordered(final(shadows)@),
{
    match ev {
        SessionEvent::Data { uid, data, cursor } => {
            let mut sh = copy_or_blank(shadows, uid.as_str());
            sh.replay.append(data.as_str());
            sh.output_bytes = sh.output_bytes + utf16_count(data.as_str()) as u64;
            sh.last_output_at = Some(now_ms);
            shadows.insert(uid.as_str(), sh);
        },
        SessionEvent::Cwd { uid, cwd } => {
            let mut sh = copy_or_blank(shadows, uid.as_str());
            sh.cwd = Some(cwd.clone());
            shadows.insert(uid.as_str(), sh);
        },
        SessionEvent::Exit { uid, code } => {
            let _ = shadows.remove(uid.as_str());
        },
        SessionEvent::CommandStart { uid } => {},
        SessionEvent::CommandEnd { uid, code } => {},
        SessionEvent::PromptReady { uid } => {},
        SessionEvent::AgentState { uid, state } => {},
    }
}

/// An event changes what is known of its own session alone; output moves the
/// cursor on by its length, and a session that exited is gone.
pub proof fn law_event_touches_one_session(s: Shadows, ev: EventView, now: u64, other: Seq<char>)
    requires
        assoc_ordered(s),
        countable(s, ev),
    ensures
        other != crate::session::proto::uid_of(ev) ==> assoc_get(after_event(s, ev, now), other)
            == assoc_get(s, other),
        ev matches EventView::Data { uid, data, cursor } ==> (assoc_get(
            after_event(s, ev, now),
            uid,
        ) matches Some(sh) && sh.output_bytes == shadow_or_blank(s, uid).output_bytes + utf16_len(
            data,
        )),
        ev matches EventView::Exit { uid, code } ==> assoc_get(after_event(s, ev, now), uid) is None,
{
    match ev {
        EventView::Data { uid, data, cursor } => {
            let v = with_output(shadow_or_blank(s, uid), data, now);
            law_assoc_put_get(s, uid, v, other);
        },
        EventView::Cwd { uid, cwd } => {
            let v = ShadowView { cwd: Some(cwd), ..shadow_or_blank(s, uid) };
            law_assoc_put_get(s, uid, v, other);
        },
        EventView::Exit { uid, code } => {
            law_assoc_remove_get(s, uid, other);
        },
        _ => {},
    }
}

} // verus!
