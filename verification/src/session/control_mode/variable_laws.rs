//! What holds of the variables of format templates.

use crate::session::control_mode::command_laws::law_targets_name_their_pane;
use crate::session::control_mode::format::{server_variable, variable};
use crate::session::control_mode::pane::PaneView;
use crate::session::control_mode::state::{lemma_published, ServerView, SESSION_ID};
use crate::text::{dec, lemma_position, parse_number, position, trim};
use crate::text_laws::law_number_reads_back;
use vstd::prelude::*;

verus! {

/// The names of panes' and windows' own variables are not those of the server.
#[verifier::rlimit(60)]
proof fn lemma_pane_names(v: ServerView)
    ensures
        server_variable(v, "window_id"@) is None,
        server_variable(v, "pane_id"@) is None,
        server_variable(v, "window_index"@) is None,
        server_variable(v, "window_flags"@) is None,
        server_variable(v, "window_raw_flags"@) is None,
        server_variable(v, "window_layout"@) is None,
        server_variable(v, "window_visible_layout"@) is None,
        server_variable(v, "window_name"@) is None,
        server_variable(v, "pane_title"@) is None,
        server_variable(v, "window_width"@) is None,
        server_variable(v, "pane_width"@) is None,
        server_variable(v, "window_height"@) is None,
        server_variable(v, "pane_height"@) is None,
        server_variable(v, "scroll_region_lower"@) is None,
        server_variable(v, "pane_current_path"@) is None,
        server_variable(v, "window_active"@) is None,
        server_variable(v, "pane_active"@) is None,
{
    reveal_strlit("alternate_on");
    reveal_strlit("alternate_saved_x");
    reveal_strlit("alternate_saved_y");
    reveal_strlit("bracket_paste_flag");
    reveal_strlit("client_control_mode");
    reveal_strlit("client_height");
    reveal_strlit("client_name");
    reveal_strlit("client_width");
    reveal_strlit("cursor_flag");
    reveal_strlit("cursor_x");
    reveal_strlit("cursor_y");
    reveal_strlit("history_bytes");
    reveal_strlit("history_limit");
    reveal_strlit("history_size");
    reveal_strlit("insert_flag");
    reveal_strlit("keypad_cursor_flag");
    reveal_strlit("keypad_flag");
    reveal_strlit("mouse_any_flag");
    reveal_strlit("mouse_button_flag");
    reveal_strlit("mouse_sgr_flag");
    reveal_strlit("mouse_standard_flag");
    reveal_strlit("mouse_utf8_flag");
    reveal_strlit("pane_active");
    reveal_strlit("pane_current_path");
    reveal_strlit("pane_dead");
    reveal_strlit("pane_height");
    reveal_strlit("pane_id");
    reveal_strlit("pane_in_mode");
    reveal_strlit("pane_index");
    reveal_strlit("pane_key_mode");
    reveal_strlit("pane_pipe");
    reveal_strlit("pane_synchronized");
    reveal_strlit("pane_title");
    reveal_strlit("pane_width");
    reveal_strlit("pid");
    reveal_strlit("scroll_region_lower");
    reveal_strlit("scroll_region_upper");
    reveal_strlit("session_attached");
    reveal_strlit("session_id");
    reveal_strlit("session_name");
    reveal_strlit("session_windows");
    reveal_strlit("version");
    reveal_strlit("window_active");
    reveal_strlit("window_flags");
    reveal_strlit("window_height");
    reveal_strlit("window_id");
    reveal_strlit("window_index");
    reveal_strlit("window_layout");
    reveal_strlit("window_name");
    reveal_strlit("window_panes");
    reveal_strlit("window_raw_flags");
    reveal_strlit("window_visible_layout");
    reveal_strlit("window_width");
    reveal_strlit("window_zoomed_flag");
    reveal_strlit("wrap_flag");
    assert("alternate_on"@.len() == 12);
    assert("alternate_saved_x"@.len() == 17);
    assert("alternate_saved_y"@.len() == 17);
    assert("bracket_paste_flag"@.len() == 18);
    assert("client_control_mode"@.len() == 19);
    assert("client_height"@.len() == 13);
    assert("client_name"@.len() == 11);
    assert("client_width"@.len() == 12);
    assert("cursor_flag"@.len() == 11);
    assert("cursor_x"@.len() == 8);
    assert("cursor_y"@.len() == 8);
    assert("history_bytes"@.len() == 13);
    assert("history_limit"@.len() == 13);
    assert("history_size"@.len() == 12);
    assert("insert_flag"@.len() == 11);
    assert("keypad_cursor_flag"@.len() == 18);
    assert("keypad_flag"@.len() == 11);
    assert("mouse_any_flag"@.len() == 14);
    assert("mouse_button_flag"@.len() == 17);
    assert("mouse_sgr_flag"@.len() == 14);
    assert("mouse_standard_flag"@.len() == 19);
    assert("mouse_utf8_flag"@.len() == 15);
    assert("pane_active"@.len() == 11);
    assert("pane_current_path"@.len() == 17);
    assert("pane_dead"@.len() == 9);
    assert("pane_height"@.len() == 11);
    assert("pane_id"@.len() == 7);
    assert("pane_in_mode"@.len() == 12);
    assert("pane_index"@.len() == 10);
    assert("pane_key_mode"@.len() == 13);
    assert("pane_pipe"@.len() == 9);
    assert("pane_synchronized"@.len() == 17);
    assert("pane_title"@.len() == 10);
    assert("pane_width"@.len() == 10);
    assert("pid"@.len() == 3);
    assert("scroll_region_lower"@.len() == 19);
    assert("scroll_region_upper"@.len() == 19);
    assert("session_attached"@.len() == 16);
    assert("session_id"@.len() == 10);
    assert("session_name"@.len() == 12);
    assert("session_windows"@.len() == 15);
    assert("version"@.len() == 7);
    assert("window_active"@.len() == 13);
    assert("window_flags"@.len() == 12);
    assert("window_height"@.len() == 13);
    assert("window_id"@.len() == 9);
    assert("window_index"@.len() == 12);
    assert("window_layout"@.len() == 13);
    assert("window_name"@.len() == 11);
    assert("window_panes"@.len() == 12);
    assert("window_raw_flags"@.len() == 16);
    assert("window_visible_layout"@.len() == 21);
    assert("window_width"@.len() == 12);
    assert("window_zoomed_flag"@.len() == 18);
    assert("wrap_flag"@.len() == 9);
    assert("pane_id"@[0] == 'p');
    assert("version"@[0] == 'v');
    assert("cursor_x"@[7] == 'x');
    assert("cursor_y"@[7] == 'y');
    assert("pane_dead"@[5] == 'd');
    assert("pane_pipe"@[5] == 'p');
    assert("window_id"@[5] == 'w');
    assert("wrap_flag"@[5] == 'f');
    assert("pane_index"@[5] == 'i');
    assert("pane_title"@[5] == 't');
    assert("pane_width"@[5] == 'w');
    assert("session_id"@[5] == 'o');
    assert("client_name"@[0] == 'c' && "client_name"@[5] == 't');
    assert("cursor_flag"@[0] == 'c' && "cursor_flag"@[5] == 'r');
    assert("insert_flag"@[0] == 'i' && "insert_flag"@[5] == 't');
    assert("keypad_flag"@[0] == 'k' && "keypad_flag"@[5] == 'd');
    assert("pane_active"@[0] == 'p' && "pane_active"@[5] == 'a');
    assert("pane_height"@[0] == 'p' && "pane_height"@[5] == 'h');
    assert("window_name"@[0] == 'w' && "window_name"@[5] == 'w');
    assert("alternate_on"@[0] == 'a' && "alternate_on"@[7] == 't');
    assert("client_width"@[0] == 'c' && "client_width"@[7] == 'w');
    assert("history_size"@[0] == 'h' && "history_size"@[7] == '_');
    assert("pane_in_mode"@[0] == 'p' && "pane_in_mode"@[7] == '_');
    assert("session_name"@[0] == 's' && "session_name"@[7] == '_');
    assert("window_flags"@[0] == 'w' && "window_flags"@[7] == 'f');
    assert("window_index"@[0] == 'w' && "window_index"@[7] == 'i');
    assert("window_panes"@[0] == 'w' && "window_panes"@[7] == 'p');
    assert("window_width"@[0] == 'w' && "window_width"@[7] == 'w');
    assert("client_height"@[0] == 'c' && "client_height"@[8] == 'e');
    assert("history_bytes"@[0] == 'h' && "history_bytes"@[8] == 'b');
    assert("history_limit"@[0] == 'h' && "history_limit"@[8] == 'l');
    assert("pane_key_mode"@[0] == 'p' && "pane_key_mode"@[8] == '_');
    assert("window_active"@[0] == 'w' && "window_active"@[8] == 'c');
    assert("window_height"@[0] == 'w' && "window_height"@[8] == 'e');
    assert("window_layout"@[0] == 'w' && "window_layout"@[8] == 'a');
    assert("mouse_any_flag"@[6] == 'a');
    assert("mouse_sgr_flag"@[6] == 's');
    assert("mouse_utf8_flag"@[0] == 'm');
    assert("session_windows"@[0] == 's');
    assert("session_attached"@[0] == 's');
    assert("window_raw_flags"@[0] == 'w');
    assert("alternate_saved_x"@[16] == 'x');
    assert("alternate_saved_y"@[16] == 'y');
    assert("mouse_button_flag"@[16] == 'g');
    assert("pane_current_path"@[16] == 'h');
    assert("pane_synchronized"@[16] == 'd');
    assert("bracket_paste_flag"@[0] == 'b');
    assert("keypad_cursor_flag"@[0] == 'k');
    assert("window_zoomed_flag"@[0] == 'w');
    assert("client_control_mode"@[15] == 'm');
    assert("mouse_standard_flag"@[15] == 'f');
    assert("scroll_region_lower"@[15] == 'o');
    assert("scroll_region_upper"@[15] == 'p');
}

/// What the ids of a pane show names the pane again, and its window's number is
/// its place among the panes.
pub proof fn law_shown_ids_name_their_pane(v: ServerView, uid: Seq<char>)
    requires
        v.ok(),
        v.has(uid),
    ensures
        v.resolve(variable(v, "pane_id"@, Some(uid))) == Some(uid),
        v.resolve(variable(v, "window_id"@, Some(uid))) == Some(uid),
        parse_number(variable(v, "window_index"@, Some(uid)), 10, usize::MAX as nat) matches Some(n)
            && n < v.panes.len() && v.panes[n as int].uid == uid,
{
    lemma_pane_names(v);
    lemma_pane_choice(v, uid);
    lemma_published(v, uid);
    law_targets_name_their_pane(v, uid, uid);
    lemma_position(v.uids(), uid);
    reveal_strlit("%");
    reveal_strlit("@");
    assert("%"@ =~= seq!['%']);
    assert("@"@ =~= seq!['@']);
    law_number_reads_back(v.window_index(uid), usize::MAX as nat);
    assert(v.uids()[position(v.uids(), uid)] == v.panes[position(v.uids(), uid)].uid);
}

/// What the size of a pane shows is its columns and its rows, what its name and
/// its directory show is its own, and the active pane alone is marked.
pub proof fn law_shown_values_are_the_panes_own(v: ServerView, uid: Seq<char>)
    requires
        v.ok(),
        v.has(uid),
    ensures
        ({
            let p = v.pane(uid)->0;
            let shows = |n: Seq<char>| variable(v, n, Some(uid));
            &&& parse_number(shows("pane_width"@), 10, 0xffff) == Some(p.width() as nat)
            &&& parse_number(shows("pane_height"@), 10, 0xffff) == Some(p.height() as nat)
            &&& shows("window_width"@) == shows("pane_width"@)
            &&& shows("window_height"@) == shows("pane_height"@)
            &&& parse_number(shows("scroll_region_lower"@), 10, 0xffff) == Some(
                (p.height() - 1) as nat,
            )
            &&& shows("window_name"@) == p.name()
            &&& shows("pane_title"@) == p.name()
            &&& shows("pane_current_path"@) == (match p.cwd {
                Some(c) => c,
                None => Seq::empty(),
            })
            &&& shows("window_active"@) == (if v.active == Some(uid) {
                seq!['1']
            } else {
                seq!['0']
            })
            &&& shows("pane_active"@) == shows("window_active"@)
            &&& shows("window_flags"@) == (if v.active == Some(uid) {
                seq!['*']
            } else {
                Seq::empty()
            })
            &&& shows("window_raw_flags"@) == shows("window_flags"@)
            &&& shows("window_layout"@) == v.layout_for(uid)
            &&& shows("window_visible_layout"@) == v.layout_for(uid)
        }),
{
    let p = v.pane(uid)->0;
    lemma_pane_names(v);
    lemma_pane_choice(v, uid);
    lemma_published(v, uid);
    law_number_reads_back(p.width() as nat, 0xffff);
    law_number_reads_back(p.height() as nat, 0xffff);
    law_number_reads_back((p.height() - 1) as nat, 0xffff);
    reveal_strlit("0");
    reveal_strlit("1");
    reveal_strlit("*");
    assert("0"@ =~= seq!['0']);
    assert("1"@ =~= seq!['1']);
    assert("*"@ =~= seq!['*']);
}

#[verifier::rlimit(60)]
proof fn lemma_pane_choice(v: ServerView, uid: Seq<char>)
    requires
        v.ok(),
        v.has(uid),
    ensures
        ({
            let p = v.pane(uid)->0;
            &&& variable(v, "pane_id"@, Some(uid)) == "%"@ + dec(v.pane_id(uid)->0 as nat)
            &&& variable(v, "window_id"@, Some(uid)) == "@"@ + dec(v.window_id(uid)->0 as nat)
            &&& variable(v, "window_index"@, Some(uid)) == dec(v.window_index(uid))
            &&& variable(v, "window_flags"@, Some(uid)) == v.window_flags(uid)
            &&& variable(v, "window_raw_flags"@, Some(uid)) == v.window_flags(uid)
            &&& variable(v, "window_layout"@, Some(uid)) == v.layout_for(uid)
            &&& variable(v, "window_visible_layout"@, Some(uid)) == v.layout_for(uid)
            &&& variable(v, "window_name"@, Some(uid)) == p.name()
            &&& variable(v, "pane_title"@, Some(uid)) == p.name()
            &&& variable(v, "window_width"@, Some(uid)) == dec(p.width() as nat)
            &&& variable(v, "pane_width"@, Some(uid)) == dec(p.width() as nat)
            &&& variable(v, "window_height"@, Some(uid)) == dec(p.height() as nat)
            &&& variable(v, "pane_height"@, Some(uid)) == dec(p.height() as nat)
            &&& variable(v, "scroll_region_lower"@, Some(uid)) == dec((p.height() - 1) as nat)
            &&& variable(v, "pane_current_path"@, Some(uid)) == (match p.cwd {
                Some(c) => c,
                None => Seq::empty(),
            })
        }),
{
    lemma_published(v, uid);
    lemma_pane_names(v);
    reveal_strlit("window_id");
    reveal_strlit("pane_id");
    reveal_strlit("window_index");
    reveal_strlit("window_flags");
    reveal_strlit("window_raw_flags");
    reveal_strlit("window_layout");
    reveal_strlit("window_visible_layout");
    reveal_strlit("window_name");
    reveal_strlit("pane_title");
    reveal_strlit("window_width");
    reveal_strlit("pane_width");
    reveal_strlit("window_height");
    reveal_strlit("pane_height");
    reveal_strlit("scroll_region_lower");
    reveal_strlit("pane_current_path");
    reveal_strlit("window_active");
    reveal_strlit("pane_active");
    assert("window_id"@.len() == 9);
    assert("pane_id"@.len() == 7);
    assert("window_index"@.len() == 12);
    assert("window_flags"@.len() == 12);
    assert("window_raw_flags"@.len() == 16);
    assert("window_layout"@.len() == 13);
    assert("window_visible_layout"@.len() == 21);
    assert("window_name"@.len() == 11);
    assert("pane_title"@.len() == 10);
    assert("window_width"@.len() == 12);
    assert("pane_width"@.len() == 10);
    assert("window_height"@.len() == 13);
    assert("pane_height"@.len() == 11);
    assert("scroll_region_lower"@.len() == 19);
    assert("pane_current_path"@.len() == 17);
    assert("window_active"@.len() == 13);
    assert("pane_active"@.len() == 11);
    assert("pane_title"@[5] == 't');
    assert("pane_width"@[5] == 'w');
    assert("window_name"@[5] == 'w');
    assert("pane_height"@[5] == 'h');
    assert("pane_active"@[5] == 'a');
    assert("window_index"@[7] == 'i');
    assert("window_flags"@[7] == 'f');
    assert("window_width"@[7] == 'w');
    assert("window_layout"@[7] == 'l');
    assert("window_height"@[7] == 'h');
    assert("window_active"@[7] == 'a');
}

/// What the server, the session and the client show is the same whatever pane is
/// meant: the process, the session's name and how many windows it has, and the
/// client's name, its columns and its rows.
#[verifier::rlimit(60)]
pub proof fn law_server_shows_itself(v: ServerView, uid: Option<Seq<char>>)
    ensures
        ({
            let shows = |n: Seq<char>| variable(v, n, uid);
            &&& parse_number(shows("pid"@), 10, u32::MAX as nat) == Some(v.pid as nat)
            &&& shows("session_name"@) == v.session_name
            &&& parse_number(shows("session_windows"@), 10, v.panes.len()) == Some(v.panes.len())
            &&& shows("session_id"@) == seq!['$'] + dec(SESSION_ID as nat)
            &&& shows("client_name"@) == v.client_name
            &&& parse_number(shows("client_width"@), 10, 0xffff) == Some(v.client_size.0 as nat)
            &&& parse_number(shows("client_height"@), 10, 0xffff) == Some(v.client_size.1 as nat)
        }),
{
    law_number_reads_back(v.pid as nat, u32::MAX as nat);
    law_number_reads_back(v.panes.len(), v.panes.len());
    law_number_reads_back(v.client_size.0 as nat, 0xffff);
    law_number_reads_back(v.client_size.1 as nat, 0xffff);
    reveal_strlit("$");
    assert("$"@ =~= seq!['$']);
    reveal_strlit("version");
    reveal_strlit("pid");
    reveal_strlit("client_name");
    reveal_strlit("client_width");
    reveal_strlit("client_height");
    reveal_strlit("session_id");
    reveal_strlit("session_name");
    reveal_strlit("session_windows");
    assert("version"@.len() == 7);
    assert("pid"@.len() == 3);
    assert("client_name"@.len() == 11);
    assert("client_width"@.len() == 12);
    assert("client_height"@.len() == 13);
    assert("session_id"@.len() == 10);
    assert("session_name"@.len() == 12);
    assert("session_windows"@.len() == 15);
    assert("client_width"@[0] == 'c');
    assert("session_name"@[0] == 's');
}

/// Of what there is none here, such as a second pane in a window, a mode, a
/// scrolled history or a mouse, nothing is shown but a `0`; and of what there is
/// always one, a `1`.
#[verifier::rlimit(60)]
pub proof fn law_fixed_variables(v: ServerView, uid: Option<Seq<char>>)
    ensures
        ({
            let shows = |n: Seq<char>| variable(v, n, uid);
            &&& shows("window_zoomed_flag"@) == "0"@
            &&& shows("pane_index"@) == "0"@
            &&& shows("pane_dead"@) == "0"@
            &&& shows("pane_in_mode"@) == "0"@
            &&& shows("pane_synchronized"@) == "0"@
            &&& shows("pane_pipe"@) == "0"@
            &&& shows("cursor_x"@) == "0"@
            &&& shows("cursor_y"@) == "0"@
            &&& shows("scroll_region_upper"@) == "0"@
            &&& shows("alternate_on"@) == "0"@
            &&& shows("alternate_saved_x"@) == "0"@
            &&& shows("alternate_saved_y"@) == "0"@
            &&& shows("insert_flag"@) == "0"@
            &&& shows("keypad_cursor_flag"@) == "0"@
            &&& shows("keypad_flag"@) == "0"@
            &&& shows("mouse_standard_flag"@) == "0"@
            &&& shows("mouse_button_flag"@) == "0"@
            &&& shows("mouse_any_flag"@) == "0"@
            &&& shows("mouse_utf8_flag"@) == "0"@
            &&& shows("mouse_sgr_flag"@) == "0"@
            &&& shows("bracket_paste_flag"@) == "0"@
            &&& shows("pane_key_mode"@) == "0"@
            &&& shows("history_size"@) == "0"@
            &&& shows("history_bytes"@) == "0"@
            &&& shows("client_control_mode"@) == "1"@
            &&& shows("session_attached"@) == "1"@
            &&& shows("window_panes"@) == "1"@
            &&& shows("cursor_flag"@) == "1"@
            &&& shows("wrap_flag"@) == "1"@
        }),
{
    reveal_strlit("alternate_on");
    reveal_strlit("alternate_saved_x");
    reveal_strlit("alternate_saved_y");
    reveal_strlit("bracket_paste_flag");
    reveal_strlit("client_control_mode");
    reveal_strlit("client_height");
    reveal_strlit("client_name");
    reveal_strlit("client_width");
    reveal_strlit("cursor_flag");
    reveal_strlit("cursor_x");
    reveal_strlit("cursor_y");
    reveal_strlit("history_bytes");
    reveal_strlit("history_limit");
    reveal_strlit("history_size");
    reveal_strlit("insert_flag");
    reveal_strlit("keypad_cursor_flag");
    reveal_strlit("keypad_flag");
    reveal_strlit("mouse_any_flag");
    reveal_strlit("mouse_button_flag");
    reveal_strlit("mouse_sgr_flag");
    reveal_strlit("mouse_standard_flag");
    reveal_strlit("mouse_utf8_flag");
    reveal_strlit("pane_dead");
    reveal_strlit("pane_in_mode");
    reveal_strlit("pane_index");
    reveal_strlit("pane_key_mode");
    reveal_strlit("pane_pipe");
    reveal_strlit("pane_synchronized");
    reveal_strlit("pid");
    reveal_strlit("scroll_region_upper");
    reveal_strlit("session_attached");
    reveal_strlit("session_id");
    reveal_strlit("session_name");
    reveal_strlit("session_windows");
    reveal_strlit("version");
    reveal_strlit("window_panes");
    reveal_strlit("window_zoomed_flag");
    reveal_strlit("wrap_flag");
    assert("alternate_on"@.len() == 12);
    assert("alternate_saved_x"@.len() == 17);
    assert("alternate_saved_y"@.len() == 17);
    assert("bracket_paste_flag"@.len() == 18);
    assert("client_control_mode"@.len() == 19);
    assert("client_height"@.len() == 13);
    assert("client_name"@.len() == 11);
    assert("client_width"@.len() == 12);
    assert("cursor_flag"@.len() == 11);
    assert("cursor_x"@.len() == 8);
    assert("cursor_y"@.len() == 8);
    assert("history_bytes"@.len() == 13);
    assert("history_limit"@.len() == 13);
    assert("history_size"@.len() == 12);
    assert("insert_flag"@.len() == 11);
    assert("keypad_cursor_flag"@.len() == 18);
    assert("keypad_flag"@.len() == 11);
    assert("mouse_any_flag"@.len() == 14);
    assert("mouse_button_flag"@.len() == 17);
    assert("mouse_sgr_flag"@.len() == 14);
    assert("mouse_standard_flag"@.len() == 19);
    assert("mouse_utf8_flag"@.len() == 15);
    assert("pane_dead"@.len() == 9);
    assert("pane_in_mode"@.len() == 12);
    assert("pane_index"@.len() == 10);
    assert("pane_key_mode"@.len() == 13);
    assert("pane_pipe"@.len() == 9);
    assert("pane_synchronized"@.len() == 17);
    assert("pid"@.len() == 3);
    assert("scroll_region_upper"@.len() == 19);
    assert("session_attached"@.len() == 16);
    assert("session_id"@.len() == 10);
    assert("session_name"@.len() == 12);
    assert("session_windows"@.len() == 15);
    assert("version"@.len() == 7);
    assert("window_panes"@.len() == 12);
    assert("window_zoomed_flag"@.len() == 18);
    assert("wrap_flag"@.len() == 9);
    assert("cursor_x"@[7] == 'x');
    assert("cursor_y"@[7] == 'y');
    assert("pane_dead"@[5] == 'd');
    assert("pane_pipe"@[5] == 'p');
    assert("wrap_flag"@[5] == 'f');
    assert("pane_index"@[0] == 'p');
    assert("session_id"@[0] == 's');
    assert("client_name"@[1] == 'l');
    assert("cursor_flag"@[1] == 'u');
    assert("insert_flag"@[1] == 'n');
    assert("keypad_flag"@[1] == 'e');
    assert("alternate_on"@[0] == 'a');
    assert("client_width"@[0] == 'c');
    assert("history_size"@[0] == 'h');
    assert("pane_in_mode"@[0] == 'p');
    assert("session_name"@[0] == 's');
    assert("window_panes"@[0] == 'w');
    assert("client_height"@[8] == 'e');
    assert("history_bytes"@[8] == 'b');
    assert("history_limit"@[8] == 'l');
    assert("pane_key_mode"@[8] == '_');
    assert("mouse_any_flag"@[6] == 'a');
    assert("mouse_sgr_flag"@[6] == 's');
    assert("mouse_utf8_flag"@[0] == 'm');
    assert("session_windows"@[0] == 's');
    assert("alternate_saved_x"@[16] == 'x');
    assert("alternate_saved_y"@[16] == 'y');
    assert("mouse_button_flag"@[16] == 'g');
    assert("pane_synchronized"@[16] == 'd');
    assert("bracket_paste_flag"@[0] == 'b');
    assert("keypad_cursor_flag"@[0] == 'k');
    assert("window_zoomed_flag"@[0] == 'w');
    assert("client_control_mode"@[0] == 'c');
    assert("mouse_standard_flag"@[0] == 'm');
    assert("scroll_region_upper"@[0] == 's');
}

/// A pane's size is the one it has, 80 columns and 24 rows where it is unknown,
/// and never nothing.
pub proof fn law_pane_size_is_its_own(p: PaneView)
    ensures
        p.width() >= 1,
        p.height() >= 1,
        p.cols matches Some(c) ==> c >= 1 ==> p.width() == c,
        p.rows matches Some(r) ==> r >= 1 ==> p.height() == r,
        p.cols is None ==> p.width() == 80,
        p.rows is None ==> p.height() == 24,
{
}

/// A pane is named by its title, as it stands, unless that is blank; else by what
/// stands between `pane-` and the next dash of its uid.
pub proof fn law_pane_is_named_by_its_title(p: PaneView, a: Seq<char>, b: Seq<char>)
    requires
        !a.contains('-'),
        p.uid == "pane-"@ + a + seq!['-'] + b,
    ensures
        p.title matches Some(t) ==> trim(t).len() > 0 ==> p.name() == t,
        p.title is None || trim(p.title->0).len() == 0 ==> p.name() == a,
{
    let pre = "pane-"@;
    assert(p.uid.take(pre.len() as int) =~= pre);
    let s = p.uid.skip(pre.len() as int);
    assert(s =~= a + seq!['-'] + b);
    crate::text::lemma_find(s, '-');
    let k = crate::text::find(s, '-');
    assert(s[a.len() as int] == '-');
    if k < a.len() {
        assert(a.contains(a[k]));
    }
    assert(s.take(k) =~= a);
}

} // verus!
