//! Which command each name stands for.

use crate::session::control_mode::commands::{answers, capture_pane, changes_lifetime,
    display_message, has_session, list_clients, list_panes, list_sessions, list_windows,
    refresh_client, resize, run, select, send_keys, set_option, show_options, silent, NOT_OURS};
use crate::session::control_mode::laws::implemented;
use crate::session::control_mode::pane::ActionView;
use crate::session::control_mode::state::ServerView;
use vstd::prelude::*;

verus! {

/// Each command answers to its long name and to its short ones.
#[verifier::rlimit(100)]
pub proof fn law_names_stand_for_their_commands(v: ServerView, args: Seq<Seq<char>>)
    ensures
        run(v, "list-sessions"@, args) == answers(v, list_sessions(v, args)),
        run(v, "ls"@, args) == answers(v, list_sessions(v, args)),
        run(v, "list-windows"@, args) == answers(v, list_windows(v, args)),
        run(v, "lsw"@, args) == answers(v, list_windows(v, args)),
        run(v, "list-panes"@, args) == answers(v, list_panes(v, args)),
        run(v, "lsp"@, args) == answers(v, list_panes(v, args)),
        run(v, "list-clients"@, args) == answers(v, list_clients(v, args)),
        run(v, "lsc"@, args) == answers(v, list_clients(v, args)),
        run(v, "display-message"@, args) == answers(v, display_message(v, args)),
        run(v, "display"@, args) == answers(v, display_message(v, args)),
        run(v, "displayp"@, args) == answers(v, display_message(v, args)),
        run(v, "send-keys"@, args) == send_keys(v, args),
        run(v, "send"@, args) == send_keys(v, args),
        run(v, "refresh-client"@, args) == refresh_client(v, args),
        run(v, "refresh"@, args) == refresh_client(v, args),
        run(v, "resize-window"@, args) == resize(v, args),
        run(v, "resizew"@, args) == resize(v, args),
        run(v, "resize-pane"@, args) == resize(v, args),
        run(v, "resizep"@, args) == resize(v, args),
        run(v, "capture-pane"@, args) == answers(v, capture_pane(v, args)),
        run(v, "capturep"@, args) == answers(v, capture_pane(v, args)),
        run(v, "select-pane"@, args) == select(v, args),
        run(v, "selectp"@, args) == select(v, args),
        run(v, "select-window"@, args) == select(v, args),
        run(v, "selectw"@, args) == select(v, args),
        run(v, "show-options"@, args) == answers(v, show_options(v, args, false)),
        run(v, "show"@, args) == answers(v, show_options(v, args, false)),
        run(v, "show-window-options"@, args) == answers(v, show_options(v, args, true)),
        run(v, "showw"@, args) == answers(v, show_options(v, args, true)),
        run(v, "set-option"@, args) == set_option(v, args, false),
        run(v, "set"@, args) == set_option(v, args, false),
        run(v, "set-window-option"@, args) == set_option(v, args, true),
        run(v, "setw"@, args) == set_option(v, args, true),
        run(v, "has-session"@, args) == answers(v, has_session(v, args)),
        run(v, "has"@, args) == answers(v, has_session(v, args)),
        run(v, "detach-client"@, args).actions == seq![ActionView::Detach],
        run(v, "detach-client"@, args).body == silent(),
        run(v, "detach-client"@, args).state == v,
        run(v, "detach"@, args).actions == seq![ActionView::Detach],
        run(v, "detach"@, args).body == silent(),
        run(v, "detach"@, args).state == v,
{
    reveal(run);
    reveal_strlit("list-sessions");
    reveal_strlit("ls");
    reveal_strlit("list-windows");
    reveal_strlit("lsw");
    reveal_strlit("list-panes");
    reveal_strlit("lsp");
    reveal_strlit("list-clients");
    reveal_strlit("lsc");
    reveal_strlit("display-message");
    reveal_strlit("display");
    reveal_strlit("displayp");
    reveal_strlit("send-keys");
    reveal_strlit("send");
    reveal_strlit("refresh-client");
    reveal_strlit("refresh");
    reveal_strlit("resize-window");
    reveal_strlit("resizew");
    reveal_strlit("resize-pane");
    reveal_strlit("resizep");
    reveal_strlit("capture-pane");
    reveal_strlit("capturep");
    reveal_strlit("select-pane");
    reveal_strlit("selectp");
    reveal_strlit("select-window");
    reveal_strlit("selectw");
    reveal_strlit("show-options");
    reveal_strlit("show");
    reveal_strlit("show-window-options");
    reveal_strlit("showw");
    reveal_strlit("set-option");
    reveal_strlit("set");
    reveal_strlit("set-window-option");
    reveal_strlit("setw");
    reveal_strlit("has-session");
    reveal_strlit("has");
    reveal_strlit("detach-client");
    reveal_strlit("detach");
    assert("list-sessions"@.len() == 13);
    assert("ls"@.len() == 2);
    assert("list-windows"@.len() == 12);
    assert("lsw"@.len() == 3);
    assert("list-panes"@.len() == 10);
    assert("lsp"@.len() == 3);
    assert("list-clients"@.len() == 12);
    assert("lsc"@.len() == 3);
    assert("display-message"@.len() == 15);
    assert("display"@.len() == 7);
    assert("displayp"@.len() == 8);
    assert("send-keys"@.len() == 9);
    assert("send"@.len() == 4);
    assert("refresh-client"@.len() == 14);
    assert("refresh"@.len() == 7);
    assert("resize-window"@.len() == 13);
    assert("resizew"@.len() == 7);
    assert("resize-pane"@.len() == 11);
    assert("resizep"@.len() == 7);
    assert("capture-pane"@.len() == 12);
    assert("capturep"@.len() == 8);
    assert("select-pane"@.len() == 11);
    assert("selectp"@.len() == 7);
    assert("select-window"@.len() == 13);
    assert("selectw"@.len() == 7);
    assert("show-options"@.len() == 12);
    assert("show"@.len() == 4);
    assert("show-window-options"@.len() == 19);
    assert("showw"@.len() == 5);
    assert("set-option"@.len() == 10);
    assert("set"@.len() == 3);
    assert("set-window-option"@.len() == 17);
    assert("setw"@.len() == 4);
    assert("has-session"@.len() == 11);
    assert("has"@.len() == 3);
    assert("detach-client"@.len() == 13);
    assert("detach"@.len() == 6);
    assert("lsw"@[2] == 'w');
    assert("lsp"@[2] == 'p');
    assert("lsc"@[2] == 'c');
    assert("set"@[2] == 't');
    assert("has"@[2] == 's');
    assert("send"@[2] == 'n');
    assert("show"@[2] == 'o');
    assert("setw"@[2] == 't');
    assert("display"@[0] == 'd' && "display"@[6] == 'y');
    assert("refresh"@[0] == 'r' && "refresh"@[6] == 'h');
    assert("resizew"@[0] == 'r' && "resizew"@[6] == 'w');
    assert("resizep"@[0] == 'r' && "resizep"@[6] == 'p');
    assert("selectp"@[0] == 's' && "selectp"@[6] == 'p');
    assert("selectw"@[0] == 's' && "selectw"@[6] == 'w');
    assert("displayp"@[0] == 'd');
    assert("capturep"@[0] == 'c');
    assert("list-panes"@[0] == 'l');
    assert("set-option"@[0] == 's');
    assert("resize-pane"@[0] == 'r');
    assert("select-pane"@[0] == 's');
    assert("has-session"@[0] == 'h');
    assert("list-windows"@[5] == 'w');
    assert("list-clients"@[5] == 'c');
    assert("capture-pane"@[5] == 'r');
    assert("show-options"@[5] == 'o');
    assert("list-sessions"@[0] == 'l');
    assert("resize-window"@[0] == 'r');
    assert("select-window"@[0] == 's');
    assert("detach-client"@[0] == 'd');
}

/// A command that would make, end or rearrange panes or windows is refused by
/// its name, and does nothing.
pub proof fn law_lifetimes_are_not_the_clients(v: ServerView, name: Seq<char>, args: Seq<Seq<char>>)
    ensures
        changes_lifetime("kill-pane"@),
        changes_lifetime("killp"@),
        changes_lifetime("kill-window"@),
        changes_lifetime("killw"@),
        changes_lifetime("kill-session"@),
        changes_lifetime("kill-server"@),
        changes_lifetime("new-window"@),
        changes_lifetime("neww"@),
        changes_lifetime("new-session"@),
        changes_lifetime("new"@),
        changes_lifetime("split-window"@),
        changes_lifetime("splitw"@),
        changes_lifetime("break-pane"@),
        changes_lifetime("breakp"@),
        changes_lifetime("join-pane"@),
        changes_lifetime("joinp"@),
        changes_lifetime("move-window"@),
        changes_lifetime("movew"@),
        changes_lifetime("swap-pane"@),
        changes_lifetime("swapp"@),
        changes_lifetime("swap-window"@),
        changes_lifetime("swapw"@),
        changes_lifetime("link-window"@),
        changes_lifetime("linkw"@),
        changes_lifetime("unlink-window"@),
        changes_lifetime("unlinkw"@),
        changes_lifetime("respawn-pane"@),
        changes_lifetime("respawnp"@),
        changes_lifetime("respawn-window"@),
        changes_lifetime("rename-window"@),
        changes_lifetime("renamew"@),
        changes_lifetime("rename-session"@),
        changes_lifetime("rename"@),
        changes_lifetime(name) && !implemented(name) ==> {
            &&& run(v, name, args).body == Err::<Seq<Seq<char>>, _>(name + NOT_OURS@)
            &&& run(v, name, args).state == v
            &&& run(v, name, args).actions.len() == 0
        },
{
    reveal(run);
}

} // verus!
