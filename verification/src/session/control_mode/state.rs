//! The state of the control server: the panes it publishes, what the client
//! has selected, stored and asked for.

use crate::session::attach::ResizePolicy;
use crate::session::control_mode::clock::Clock;
use crate::session::control_mode::ids::{assign, id_of, law_ids_unique_and_bounded, uid_of, IdMap,
    ID_COUNT};
use crate::session::control_mode::options::{ordered, OptionStore, OptionView};
use crate::session::control_mode::pane::{line_views, pane_views, uids_of, ControlMode, PaneInfo,
    PaneView};
use crate::session::control_mode::wire::{pane_layout, single_pane_layout, Line};
use crate::text::{chars_of, lemma_position, lemma_position_unique, lemma_sorted_count,
    lemma_sorted_unique, opt_copy, opt_is, opt_owned, opt_view, owned, parse_number, parse_uint,
    position, same, sorted, string_of, trim, trim_char, trimmed, trimmed_char, views};
use vstd::prelude::*;
use vstd::slice::*;
use vstd::string::*;

verus! {

/// The number of the one session that is published, the `0` in `$0`.
pub const SESSION_ID: u32 = 0;

/// The state of a control server.
#[verifier::ext_equal]
pub struct ServerView {
    pub session_name: Seq<char>,
    pub mode: ControlMode,
    pub policy: ResizePolicy,
    pub clock: Clock,
    /// The panes, in order of their uids.
    pub panes: Seq<PaneView>,
    /// The uid the client last selected.
    pub active: Option<Seq<char>>,
    /// The number of the next command block.
    pub next_command: u32,
    /// How many command blocks are open.
    pub depth: u32,
    /// Notifications that wait for the open block to close.
    pub deferred: Seq<Seq<u8>>,
    pub options: Seq<OptionView>,
    pub client_size: (u16, u16),
    pub client_name: Seq<char>,
    pub pid: u32,
}

impl ServerView {
    /// The published uids, in order.
    pub open spec fn uids(self) -> Seq<Seq<char>> {
        uids_of(self.panes)
    }

    /// Whether `uid` is published.
    pub open spec fn has(self, uid: Seq<char>) -> bool {
        self.uids().contains(uid)
    }

    /// The pane `uid`, where it is published.
    pub open spec fn pane(self, uid: Seq<char>) -> Option<PaneView> {
        if self.has(uid) {
            Some(self.panes[position(self.uids(), uid)])
        } else {
            None
        }
    }

    /// The tmux pane id of `uid`.
    pub open spec fn pane_id(self, uid: Seq<char>) -> Option<u32> {
        id_of(self.uids(), assign("pane"@, self.uids()), uid)
    }

    /// The tmux window id of `uid`.
    pub open spec fn window_id(self, uid: Seq<char>) -> Option<u32> {
        id_of(self.uids(), assign("window"@, self.uids()), uid)
    }

    /// The panes are in order of their uids, the active one is one of them and
    /// there is one unless there is no pane; the options are in order.
    pub open spec fn ok(self) -> bool {
        &&& sorted(self.uids())
        &&& self.panes.len() <= ID_COUNT
        &&& (self.active is None <==> self.panes.len() == 0)
        &&& (self.active matches Some(u) ==> self.has(u))
        &&& ordered(self.options)
    }

    /// No block is open and no notification waits.
    pub open spec fn idle(self) -> bool {
        self.depth == 0 && self.deferred.len() == 0
    }

    /// The layout string of the window of `uid`.
    pub open spec fn layout_for(self, uid: Seq<char>) -> Seq<char> {
        pane_layout(
            self.pane(uid)->0.width() as nat,
            self.pane(uid)->0.height() as nat,
            self.pane_id(uid)->0 as nat,
        )
    }

    /// `*` marks the active window.
    pub open spec fn window_flags(self, uid: Seq<char>) -> Seq<char> {
        if self.active == Some(uid) {
            "*"@
        } else {
            Seq::empty()
        }
    }

    /// The place of the window of `uid`, or 0 where there is none.
    pub open spec fn window_index(self, uid: Seq<char>) -> nat {
        if self.has(uid) {
            position(self.uids(), uid) as nat
        } else {
            0
        }
    }

    /// The uid that a `-t` target names: `%n` a pane, `@n` a window, `$` the
    /// active pane, then a uid itself, then a window index.
    pub open spec fn resolve(self, target: Seq<char>) -> Option<Seq<char>> {
        let t = trim_char(trim_char(trim(target), '"'), '\'');
        if t.len() > 0 && t[0] == '%' {
            match parse_number(t.skip(1), 10, u32::MAX as nat) {
                Some(n) => uid_of(self.uids(), assign("pane"@, self.uids()), n as u32),
                None => None,
            }
        } else if t.len() > 0 && t[0] == '@' {
            match parse_number(t.skip(1), 10, u32::MAX as nat) {
                Some(n) => uid_of(self.uids(), assign("window"@, self.uids()), n as u32),
                None => None,
            }
        } else if t.len() > 0 && t[0] == '$' {
            self.active
        } else if self.has(t) {
            Some(t)
        } else {
            match parse_number(t, 10, usize::MAX as nat) {
                Some(n) => if n < self.panes.len() {
                    Some(self.panes[n as int].uid)
                } else {
                    None
                },
                None => None,
            }
        }
    }
}

/// What a published pane is known by.
pub proof fn lemma_published(v: ServerView, uid: Seq<char>)
    requires
        v.ok(),
        v.has(uid),
    ensures
        v.pane(uid) matches Some(p) && p.uid == uid && v.panes.contains(p),
        v.pane_id(uid) is Some,
        v.window_id(uid) is Some,
{
    lemma_position(v.uids(), uid);
}

/// A target only ever resolves to a published pane.
pub proof fn law_target_is_published(v: ServerView, target: Seq<char>)
    requires
        v.ok(),
    ensures
        v.resolve(target) matches Some(u) ==> v.has(u),
{
    let t = trim_char(trim_char(trim(target), '"'), '\'');
    law_ids_unique_and_bounded("pane"@, v.uids());
    law_ids_unique_and_bounded("window"@, v.uids());
    if t.len() > 0 && (t[0] == '%' || t[0] == '@') {
        if let Some(n) = parse_number(t.skip(1), 10, u32::MAX as nat) {
            lemma_position(assign("pane"@, v.uids()), n as u32);
            lemma_position(assign("window"@, v.uids()), n as u32);
        }
    } else if let Some(n) = parse_number(t, 10, usize::MAX as nat) {
        if n < v.panes.len() {
            assert(v.uids()[n as int] == v.panes[n as int].uid);
        }
    }
}

/// The state of a control server.
pub struct ServerState {
    pub session_name: String,
    pub mode: ControlMode,
    pub policy: ResizePolicy,
    pub clock: Clock,
    pub ids: IdMap,
    pub panes: Vec<PaneInfo>,
    pub active: Option<String>,
    pub next_command: u32,
    pub guard_depth: u32,
    pub deferred: Vec<Line>,
    pub options: OptionStore,
    pub client_size: (u16, u16),
    pub client_name: String,
    pub pid: u32,
}

impl View for ServerState {
    type V = ServerView;

    open spec fn view(&self) -> ServerView {
        ServerView {
            session_name: self.session_name@,
            mode: self.mode,
            policy: self.policy,
            clock: self.clock,
            panes: pane_views(self.panes@),
            active: opt_view(self.active),
            next_command: self.next_command,
            depth: self.guard_depth,
            deferred: line_views(self.deferred@),
            options: self.options@,
            client_size: self.client_size,
            client_name: self.client_name@,
            pid: self.pid,
        }
    }
}

impl ServerState {
    /// The state is consistent, and its ids are those of its panes.
    pub open spec fn wf(self) -> bool {
        &&& self@.ok()
        &&& self.ids.wf()
        &&& self.ids.uids() == self@.uids()
    }

    /// The place of `uid` among the panes.
    pub fn find_pane(&self, uid: &str) -> (r: Option<usize>)
        ensures
            match r {
                Some(i) => i < self.panes@.len() && i == position(self@.uids(), uid@) && self@.has(
                    uid@,
                ) && self.panes@[i as int].uid@ == uid@,
                None => !self@.has(uid@),
            },
    {
        let mut i: usize = 0;
        while i < self.panes.len() && !same(self.panes[i].uid.as_str(), uid)
            invariant
                i <= self.panes.len(),
                forall|k: int| 0 <= k < i ==> self@.uids()[k] != uid@,
            decreases self.panes.len() - i,
        {
            assert(self@.uids()[i as int] == self.panes@[i as int].uid@);
            i = i + 1;
        }
        proof {
            if i < self.panes@.len() {
                assert(self@.uids()[i as int] == self.panes@[i as int].uid@);
            }
            lemma_position_unique(self@.uids(), uid@, i as int);
            lemma_position(self@.uids(), uid@);
        }
        if i < self.panes.len() {
            Some(i)
        } else {
            None
        }
    }

    /// Every published uid, in order.
    pub fn uids(&self) -> (r: Vec<String>)
        ensures
            views(r@) == self@.uids(),
            r@.len() == self.panes@.len(),
    {
        let mut out: Vec<String> = Vec::new();
        let mut i: usize = 0;
        while i < self.panes.len()
            invariant
                i <= self.panes.len(),
                out@.len() == i,
                forall|k: int| 0 <= k < i ==> (#[trigger] out@[k])@ == self.panes@[k].uid@,
            decreases self.panes.len() - i,
        {
            out.push(self.panes[i].uid.clone());
            i = i + 1;
        }
        assert(views(out@) =~= self@.uids());
        out
    }

    /// Derives the ids anew from the published panes.
    pub fn reindex(&mut self)
        requires
            sorted(old(self)@.uids()),
            old(self)@.panes.len() <= ID_COUNT,
        ensures
            final(self)@ == old(self)@,
            final(self).ids.wf(),
            final(self).ids.uids() == old(self)@.uids(),
    {
        let uids = self.uids();
        proof {
            lemma_sorted_count(views(uids@), views(uids@));
        }
        let ids = IdMap::rebuild(uids.as_slice());
        proof {
            ids.lemma_wf();
            lemma_sorted_unique(ids.uids(), views(uids@));
        }
        self.ids = ids;
    }

    /// The layout string of the window of `uid`.
    pub fn layout_for(&self, uid: &str) -> (r: String)
        requires
            self.wf(),
            self@.has(uid@),
        ensures
            r@ == self@.layout_for(uid@),
    {
        proof {
            lemma_published(self@, uid@);
        }
        let id: u32 = match self.ids.pane_id(uid) {
            Some(id) => id,
            None => 0,
        };
        match self.find_pane(uid) {
            Some(i) => {
                let p = &self.panes[i];
                assert(self@.panes[i as int] == p@);
                single_pane_layout(p.width(), p.height(), id)
            },
            None => String::new(),
        }
    }

    /// `*` marks the active window.
    pub fn window_flags(&self, uid: &str) -> (r: String)
        ensures
            r@ == self@.window_flags(uid@),
    {
        if opt_is(&self.active, uid) {
            owned("*")
        } else {
            String::new()
        }
    }

    /// The place of the window of `uid`, or 0 where there is none.
    pub fn window_index(&self, uid: &str) -> (r: usize)
        ensures
            r == self@.window_index(uid@),
    {
        match self.find_pane(uid) {
            Some(i) => i,
            None => 0,
        }
    }

    /// Resolves a `-t` target to a uid.
    pub fn resolve_target(&self, target: &str) -> (r: Option<String>)
        requires
            self.wf(),
        ensures
            opt_view(r) == self@.resolve(target@),
            opt_view(r) matches Some(u) ==> self@.has(u),
    {
        proof {
            law_target_is_published(self@, target@);
        }
        let chars = chars_of(target);
        let t = trimmed_char(trimmed_char(trimmed(chars.as_slice()), '"'), '\'');
        if t.len() > 0 && (t[0] == '%' || t[0] == '@') {
            let rest = slice_subrange(t, 1, t.len());
            assert(rest@ =~= t@.skip(1));
            return match parse_uint(rest, 10, u32::MAX as u64) {
                Some(n) => {
                    if t[0] == '%' {
                        opt_owned(self.ids.uid_for_pane(n as u32))
                    } else {
                        opt_owned(self.ids.uid_for_window(n as u32))
                    }
                },
                None => None,
            };
        }
        if t.len() > 0 && t[0] == '$' {
            return opt_copy(&self.active);
        }
        let name = string_of(t);
        if self.find_pane(name.as_str()).is_some() {
            return Some(name);
        }
        match parse_uint(t, 10, usize::MAX as u64) {
            Some(n) => {
                let i: usize = n as usize;
                if i < self.panes.len() {
                    assert(self@.panes[i as int] == self.panes@[i as int]@);
                    Some(self.panes[i].uid.clone())
                } else {
                    None
                }
            },
            None => None,
        }
    }
}

} // verus!
