//! What the control server knows of a pane, and what it asks its driver to do.

use crate::session::control_mode::wire::Line;
use crate::text::{chars_of, find, find_char, has_prefix, opt_copy, opt_view, owned, starts_with,
    string_of, trim, trimmed};
use vstd::prelude::*;
use vstd::slice::*;

verus! {

/// Whether to wrap the stream in the `-CC` envelope.
#[derive(Debug, Clone, Copy, PartialEq, Eq, Structural)]
pub enum ControlMode {
    /// `tmux -C`: bare lines.
    Plain,
    /// `tmux -CC`: the opening DCS before the first line and the closing ST
    /// after `%exit`. The default.
    Wrapped,
}

impl Default for ControlMode {
    fn default() -> (r: ControlMode)
        ensures
            r == ControlMode::Wrapped,
    {
        ControlMode::Wrapped
    }
}

/// A pane: its uid, its grid, its directory, its title and its screen.
#[verifier::ext_equal]
pub struct PaneView {
    pub uid: Seq<char>,
    pub cols: Option<u16>,
    pub rows: Option<u16>,
    pub cwd: Option<Seq<char>>,
    pub title: Option<Seq<char>>,
    pub screen: Option<Seq<char>>,
}

impl PaneView {
    /// Grid width, 80 where the grid is unknown, at least 1.
    pub open spec fn width(self) -> u16 {
        match self.cols {
            Some(c) => if c < 1 {
                1
            } else {
                c
            },
            None => 80,
        }
    }

    /// Grid height, 24 where the grid is unknown, at least 1.
    pub open spec fn height(self) -> u16 {
        match self.rows {
            Some(r) => if r < 1 {
                1
            } else {
                r
            },
            None => 24,
        }
    }

    /// The window name a client shows: the title, or, where that is blank, the
    /// first segment of the uid.
    pub open spec fn name(self) -> Seq<char> {
        match self.title {
            Some(t) => if trim(t).len() > 0 {
                t
            } else {
                short_uid(self.uid)
            },
            None => short_uid(self.uid),
        }
    }
}

/// What stands before the first dash of a uid, its `pane-` left out.
pub open spec fn short_uid(uid: Seq<char>) -> Seq<char> {
    let s = if has_prefix(uid, "pane-"@) {
        uid.skip("pane-"@.len() as int)
    } else {
        uid
    };
    s.take(find(s, '-'))
}

/// What the control server needs to know about one pane.
#[derive(Debug, Clone, PartialEq, Eq)]
pub struct PaneInfo {
    /// The durable uid, `pane-<uuid>`.
    pub uid: String,
    /// Grid width, or `None` if it is unknown.
    pub cols: Option<u16>,
    /// Grid height, or `None` if it is unknown.
    pub rows: Option<u16>,
    /// Last known working directory.
    pub cwd: Option<String>,
    /// The title.
    pub title: Option<String>,
    /// Plain-text screen mirror, if the driver has refreshed it.
    pub screen: Option<String>,
}

impl View for PaneInfo {
    type V = PaneView;

    open spec fn view(&self) -> PaneView {
        PaneView {
            uid: self.uid@,
            cols: self.cols,
            rows: self.rows,
            cwd: opt_view(self.cwd),
            title: opt_view(self.title),
            screen: opt_view(self.screen),
        }
    }
}

/// A pane of which only the uid is known.
pub open spec fn bare_pane(uid: Seq<char>) -> PaneView {
    PaneView { uid, cols: None, rows: None, cwd: None, title: None, screen: None }
}

impl PaneInfo {
    /// A pane with nothing known but its uid.
    pub fn new(uid: &str) -> (r: PaneInfo)
        ensures
            r@ == bare_pane(uid@),
    {
        PaneInfo { uid: owned(uid), cols: None, rows: None, cwd: None, title: None, screen: None }
    }

    /// Grid width, 80 where the grid is unknown, at least 1.
    pub fn width(&self) -> (r: u16)
        ensures
            r == self@.width(),
    {
        match self.cols {
            Some(c) => if c < 1 {
                1
            } else {
                c
            },
            None => 80,
        }
    }

    /// Grid height, 24 where the grid is unknown, at least 1.
    pub fn height(&self) -> (r: u16)
        ensures
            r == self@.height(),
    {
        match self.rows {
            Some(c) => if c < 1 {
                1
            } else {
                c
            },
            None => 24,
        }
    }

    /// The window name a client shows on the tab.
    pub fn name(&self) -> (r: String)
        ensures
            r@ == self@.name(),
    {
        if let Some(t) = &self.title {
            let chars = chars_of(t.as_str());
            if trimmed(chars.as_slice()).len() > 0 {
                return t.clone();
            }
        }
        let uid = chars_of(self.uid.as_str());
        let prefix = chars_of("pane-");
        let start: usize = if starts_with(uid.as_slice(), prefix.as_slice()) {
            prefix.len()
        } else {
            0
        };
        let short = slice_subrange(uid.as_slice(), start, uid.len());
        proof {
            assert(uid@.skip(0) =~= uid@);
            assert(uid@.subrange(start as int, uid@.len() as int) =~= uid@.skip(start as int));
        }
        let k: usize = find_char(short, '-');
        let first = slice_subrange(short, 0, k);
        assert(first@ =~= short@.take(k as int));
        string_of(first)
    }
}

/// A copy of a pane.
pub fn pane_copy(p: &PaneInfo) -> (r: PaneInfo)
    ensures
        r@ == p@,
{
    PaneInfo {
        uid: p.uid.clone(),
        cols: p.cols,
        rows: p.rows,
        cwd: opt_copy(&p.cwd),
        title: opt_copy(&p.title),
        screen: opt_copy(&p.screen),
    }
}

/// Something the driver has to do, because it needs the daemon.
pub enum ActionView {
    Write { uid: Seq<char>, data: Seq<u8> },
    Resize { uid: Seq<char>, cols: u16, rows: u16 },
    Detach,
}

/// Something the driver must do on the server's behalf, because it needs the
/// daemon.
#[derive(Debug, Clone, PartialEq, Eq)]
pub enum Action {
    /// Forward these bytes to the pane's pty.
    Write { uid: String, data: Vec<u8> },
    /// Resize the pane. Only produced where the policy is to request it.
    Resize { uid: String, cols: u16, rows: u16 },
    /// The client asked to leave.
    Detach,
}

impl View for Action {
    type V = ActionView;

    open spec fn view(&self) -> ActionView {
        match self {
            Action::Write { uid, data } => ActionView::Write { uid: uid@, data: data@ },
            Action::Resize { uid, cols, rows } => ActionView::Resize {
                uid: uid@,
                cols: *cols,
                rows: *rows,
            },
            Action::Detach => ActionView::Detach,
        }
    }
}

/// The actions of a list.
pub open spec fn action_views(v: Seq<Action>) -> Seq<ActionView> {
    Seq::new(v.len(), |i: int| v[i]@)
}

/// The bytes of each line of a list.
pub open spec fn line_views(v: Seq<Line>) -> Seq<Seq<u8>> {
    Seq::new(v.len(), |i: int| v[i]@)
}

/// One command's complete effect: the lines to write, and the work to hand on.
#[derive(Debug, Clone, Default, PartialEq, Eq)]
pub struct Reaction {
    /// Lines to write to the client, in order.
    pub lines: Vec<Line>,
    /// Side effects for the driver to perform.
    pub actions: Vec<Action>,
}

/// The uids of a list of panes.
pub open spec fn uids_of(panes: Seq<PaneView>) -> Seq<Seq<char>> {
    Seq::new(panes.len(), |i: int| panes[i].uid)
}

/// The panes of a list.
pub open spec fn pane_views(v: Seq<PaneInfo>) -> Seq<PaneView> {
    Seq::new(v.len(), |i: int| v[i]@)
}

} // verus!
