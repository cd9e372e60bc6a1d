//! That what contracts speak of is what the messages and records hold.

use crate::session::control_mode::pane::{Action as PaneAction, ActionView as PaneActionView,
    PaneInfo};
use crate::session::daemon::{Action, ActionView};
use crate::session::proto::{ClientMsg, ClientView, DaemonMsg, DaemonView, EventView, SessionEvent,
    SessionMeta, SpawnOptions, SpawnSpec};
use crate::text::{opt_view, views};
use vstd::prelude::*;

verus! {

/// A request for a size holds its columns as columns and its rows as rows,
/// whoever makes it.
pub proof fn law_sizes_are_columns_and_rows(uid: String, cols: u16, rows: u16)
    ensures
        (ClientMsg::Resize { uid, cols, rows })@ == (ClientView::Resize { uid: uid@, cols, rows }),
        (Action::Resize { uid, cols, rows })@ == (ActionView::Resize { uid: uid@, cols, rows }),
        (PaneAction::Resize { uid, cols, rows })@ == (PaneActionView::Resize {
            uid: uid@,
            cols,
            rows,
        }),
{
}

/// What is known of a session or a pane is known under its own name.
pub proof fn law_records_hold_their_fields(m: SessionMeta, p: PaneInfo)
    ensures
        m@.uid == m.uid@ && m@.cols == m.cols && m@.rows == m.rows,
        m@.cwd == opt_view(m.cwd) && m@.fg_cwd == opt_view(m.fg_cwd),
        m@.foreground == opt_view(m.foreground) && m@.alive == m.alive,
        m@.output_bytes == m.output_bytes && m@.last_output_at == m.last_output_at,
        p@.uid == p.uid@ && p@.cols == p.cols && p@.rows == p.rows,
        p@.cwd == opt_view(p.cwd) && p@.title == opt_view(p.title),
        p@.screen == opt_view(p.screen),
{
}

/// What is asked of a spawn is asked under its own name, by a client and by the
/// daemon alike.
pub proof fn law_spawns_hold_their_fields(s: SpawnSpec, o: SpawnOptions)
    ensures
        s@.uid == opt_view(s.uid) && o@.uid == o.uid@,
        s@.launch.cols == s.cols && s@.launch.rows == s.rows,
        o@.launch.cols == o.cols && o@.launch.rows == o.rows,
        s@.launch.shell == opt_view(s.shell) && o@.launch.shell == opt_view(o.shell),
        s@.launch.command == opt_view(s.command) && o@.launch.command == opt_view(o.command),
        s@.launch.cwd == opt_view(s.cwd) && o@.launch.cwd == opt_view(o.cwd),
        s@.launch.pane_id == opt_view(s.pane_id) && o@.launch.pane_id == opt_view(o.pane_id),
        s@.launch.control_file == opt_view(s.control_file),
        o@.launch.control_file == opt_view(o.control_file),
        s.args matches Some(a) ==> s@.launch.args == Some(views(a@)),
        o.args matches Some(a) ==> o@.launch.args == Some(views(a@)),
        s.args is None ==> s@.launch.args is None,
        s.env matches Some(e) ==> s@.launch.env == Some(e@),
        o.env matches Some(e) ==> o@.launch.env == Some(e@),
        s@.integration.args == views(s.integration_args@),
        s@.integration.env == s.integration_env@,
{
}

/// What is written, replayed or announced is what the message holds, of the
/// session that it names.
pub proof fn law_messages_hold_their_data(uid: String, data: String, bytes: Vec<u8>, n: u64)
    ensures
        (DaemonMsg::Replay { uid, data, cursor: n })@ == (DaemonView::Replay {
            uid: uid@,
            data: data@,
            cursor: n,
        }),
        (DaemonMsg::Event(SessionEvent::Data { uid, data, cursor: n }))@ == DaemonView::Event(
            EventView::Data { uid: uid@, data: data@, cursor: n },
        ),
        (DaemonMsg::Event(SessionEvent::Cwd { uid, cwd: data }))@ == DaemonView::Event(
            EventView::Cwd { uid: uid@, cwd: data@ },
        ),
        (DaemonMsg::Screen { uid, text: Some(data) })@ == (DaemonView::Screen {
            uid: uid@,
            text: Some(data@),
        }),
        (DaemonMsg::ClaimResult { uid, granted: true, owner: Some(n) })@ == (
        DaemonView::ClaimResult { uid: uid@, granted: true, owner: Some(n) }),
        (PaneAction::Write { uid, data: bytes })@ == (PaneActionView::Write {
            uid: uid@,
            data: bytes@,
        }),
{
}

} // verus!
