//! What holds of the control server as a whole.

use crate::session::attach::ResizePolicy;
use crate::session::control_mode::args::{args_from, args_of, char_set, is_flag, takes_value,
    value_flag, ArgsView};
use crate::session::control_mode::commands::{answers, changes_lifetime, option_args, option_scope,
    run, set_option, show_options, shown, silent, Body};
use crate::session::control_mode::lex::{is_plain, lemma_first_word, lemma_one_word,
    lemma_single_quoted, words_of};
use crate::session::control_mode::options::{law_option_reads_back, law_options_stay_ordered,
    law_removed_option_is_unset, option_get, option_put};
use crate::session::control_mode::pane::ActionView;
use crate::session::control_mode::server::{answer, answer_of, block, body_lines, encode_each,
    guard_line, law_command_keeps_depth, next_number, output_line, stripped};
use crate::session::control_mode::state::{law_target_is_published, ServerView, SESSION_ID};
use crate::session::control_mode::wire::{escape, law_escaped_payload_has_no_control_byte};
use crate::text::{dec, digit, is_white_space, lemma_sorted_unique, trim};
use vstd::prelude::*;
use vstd::utf8::*;

verus! {

/// A command that is refused changes nothing and asks nothing of the driver.
pub proof fn law_refused_command_changes_nothing(
    v: ServerView,
    name: Seq<char>,
    args: Seq<Seq<char>>,
)
    ensures
        run(v, name, args).body is Err ==> {
            &&& run(v, name, args).state == v
            &&& run(v, name, args).actions.len() == 0
        },
{
    reveal(run);
}

/// Whether a command is one that the server carries out.
pub open spec fn implemented(name: Seq<char>) -> bool {
    ||| name == "list-sessions"@
    ||| name == "ls"@
    ||| name == "list-windows"@
    ||| name == "lsw"@
    ||| name == "list-panes"@
    ||| name == "lsp"@
    ||| name == "list-clients"@
    ||| name == "lsc"@
    ||| name == "display-message"@
    ||| name == "display"@
    ||| name == "displayp"@
    ||| name == "send-keys"@
    ||| name == "send"@
    ||| name == "refresh-client"@
    ||| name == "refresh"@
    ||| name == "resize-window"@
    ||| name == "resizew"@
    ||| name == "resize-pane"@
    ||| name == "resizep"@
    ||| name == "capture-pane"@
    ||| name == "capturep"@
    ||| name == "select-pane"@
    ||| name == "selectp"@
    ||| name == "select-window"@
    ||| name == "selectw"@
    ||| name == "show-options"@
    ||| name == "show"@
    ||| name == "show-window-options"@
    ||| name == "showw"@
    ||| name == "set-option"@
    ||| name == "set"@
    ||| name == "set-window-option"@
    ||| name == "setw"@
    ||| name == "has-session"@
    ||| name == "has"@
    ||| name == "detach-client"@
    ||| name == "detach"@
}

/// Every command that is not carried out is answered with an error, never with
/// a silent success.
pub proof fn law_unknown_command_is_an_error(v: ServerView, name: Seq<char>, args: Seq<Seq<char>>)
    requires
        !implemented(name),
    ensures
        run(v, name, args).body is Err,
        run(v, name, args).state == v,
        run(v, name, args).actions.len() == 0,
        !changes_lifetime(name) ==> run(v, name, args).body == Err::<Seq<Seq<char>>, Seq<char>>(
            "parse error: unknown command: "@ + name,
        ),
{
    reveal(run);
}

/// A resize is only ever asked for where the policy is to request it.
pub proof fn law_only_the_request_policy_resizes(
    v: ServerView,
    name: Seq<char>,
    args: Seq<Seq<char>>,
    i: int,
)
    requires
        v.policy == ResizePolicy::Observe,
        0 <= i < run(v, name, args).actions.len(),
    ensures
        !(run(v, name, args).actions[i] is Resize),
{
    reveal(run);
}

/// A command leaves the state consistent.
pub proof fn law_command_keeps_state_consistent(
    v: ServerView,
    name: Seq<char>,
    args: Seq<Seq<char>>,
)
    requires
        v.ok(),
    ensures
        run(v, name, args).state.ok(),
{
    reveal(run);
    let w = run(v, name, args).state;
    law_command_keeps_depth(v, name, args);
    assert(w.uids() == v.uids());
    if let Ok(a) = args_of(args, "t:"@) {
        if let Some(t) = a.value('t') {
            law_target_is_published(v, t);
        }
    }
    if let Ok(a) = option_args(args, false) {
        if a.positionals.len() > 0 {
            lemma_stay_ordered(v, option_scope(v, a), a.positionals[0]);
        }
    }
    if let Ok(a) = option_args(args, true) {
        if a.positionals.len() > 0 {
            lemma_stay_ordered(v, option_scope(v, a), a.positionals[0]);
        }
    }
}

proof fn lemma_stay_ordered(v: ServerView, scope: Seq<char>, name: Seq<char>)
    requires
        v.ok(),
    ensures
        forall|value: Seq<char>|
            crate::session::control_mode::options::ordered(
                #[trigger] crate::session::control_mode::options::option_put(
                    v.options,
                    scope,
                    name,
                    value,
                ),
            ),
        crate::session::control_mode::options::ordered(
            crate::session::control_mode::options::option_remove(v.options, scope, name),
        ),
{
    assert forall|value: Seq<char>|
        crate::session::control_mode::options::ordered(
            #[trigger] crate::session::control_mode::options::option_put(
                v.options,
                scope,
                name,
                value,
            ),
        ) by {
        law_options_stay_ordered(v.options, scope, name, value);
    }
    law_options_stay_ordered(v.options, scope, name, Seq::empty());
}

/// Whether a line of the client is answered with a block: it is not blank.
pub open spec fn gets_a_block(line: Seq<char>) -> bool {
    trim(stripped(line)).len() > 0 && !(words_of(stripped(line)) matches Ok(ws) && ws.len() == 0)
}

/// What a line is answered.
pub open spec fn body_of(v: ServerView, line: Seq<char>) -> Body {
    match words_of(stripped(line)) {
        Err(e) => Err("parse error: "@ + e),
        Ok(ws) => run(v, ws[0], ws.skip(1)).body,
    }
}

/// Everything between `%begin` and its `%end` or `%error` is the body of the
/// command, and a notification only ever comes behind the block. The closing
/// line carries the time and the number of the opening one.
pub proof fn law_no_notification_inside_a_block(
    v: ServerView,
    line: Seq<char>,
    now: u64,
)
    requires
        v.ok(),
        v.idle(),
        gets_a_block(line),
    ensures
        ({
            let ls = answer(v, line, now).lines;
            let b = body_lines(body_of(v, line));
            let closer = if body_of(v, line) is Err {
                "%error"@
            } else {
                "%end"@
            };
            &&& ls.len() >= b.len() + 2
            &&& ls[0] == guard_line("%begin"@, now, v.next_command, "1"@)
            &&& forall|i: int| 0 <= i < b.len() ==> #[trigger] ls[i + 1] == encode_utf8(b[i])
            &&& ls[b.len() as int + 1] == guard_line(closer, now, v.next_command, "1"@)
        }),
{
    let ls = answer(v, line, now).lines;
    let bl = block(now, v.next_command, body_of(v, line));
    let b = body_lines(body_of(v, line));
    if let Ok(ws) = words_of(stripped(line)) {
        law_command_keeps_depth(v, ws[0], ws.skip(1));
        assert(ls == bl + run(v, ws[0], ws.skip(1)).state.deferred);
    } else {
        assert(ls == bl + v.deferred);
    }
    assert(bl.len() == b.len() + 2);
    assert forall|i: int| 0 <= i < b.len() implies #[trigger] ls[i + 1] == encode_utf8(b[i]) by {
        assert(ls[i + 1] == bl[i + 1]);
        assert(bl[i + 1] == encode_each(b)[i]);
    }
    assert(ls[0] == bl[0]);
    assert(ls[b.len() as int + 1] == bl[b.len() as int + 1]);
}

/// Each block has the number after that of the block before it, and after a
/// line no block is open, nothing waits and the state is consistent.
pub proof fn law_block_numbers_increment(v: ServerView, line: Seq<char>, now: u64)
    requires
        v.ok(),
        v.idle(),
    ensures
        answer(v, line, now).state.ok(),
        answer(v, line, now).state.idle(),
        gets_a_block(line) ==> answer(v, line, now).state.next_command == next_number(
            v.next_command,
        ),
        !gets_a_block(line) ==> {
            &&& answer(v, line, now).state == v
            &&& answer(v, line, now).lines.len() == 0
            &&& answer(v, line, now).actions == seq![ActionView::Detach]
        },
{
    if let Ok(ws) = words_of(stripped(line)) {
        if ws.len() > 0 {
            law_command_keeps_depth(v, ws[0], ws.skip(1));
            law_command_keeps_state_consistent(v, ws[0], ws.skip(1));
            assert(answer(v, line, now).state.uids() == v.uids());
        }
    }
    assert(answer(v, line, now).state.uids() == v.uids());
}

/// An option that a client sets is what it reads back, and one that it unsets
/// is unset, whatever the flags of the two commands, as long as they name the
/// same option of the same scope.
pub proof fn law_stored_option_is_shown(
    v: ServerView,
    set_args: Seq<Seq<char>>,
    set_window: bool,
    show_args: Seq<Seq<char>>,
    show_window: bool,
    a: ArgsView,
    b: ArgsView,
)
    requires
        v.ok(),
        option_args(set_args, set_window) == Ok::<ArgsView, Seq<char>>(a),
        option_args(show_args, show_window) == Ok::<ArgsView, Seq<char>>(b),
        a.positionals.len() > 0,
        b.positionals.len() > 0,
        a.positionals[0] == b.positionals[0],
        a.positionals[0].len() > 0,
        a.positionals[0][0] == '@',
        option_scope(v, a) == option_scope(v, b),
    ensures
        ({
            let scope = option_scope(v, a);
            let name = a.positionals[0];
            let given = if a.positionals.len() > 1 {
                a.positionals[1]
            } else {
                Seq::empty()
            };
            let kept = match option_get(v.options, scope, name) {
                Some(k) => k,
                None => Seq::empty(),
            };
            let value = if a.flags.contains('a') {
                kept + given
            } else {
                given
            };
            let set = set_option(v, set_args, set_window);
            let shows = show_options(set.state, show_args, show_window);
            &&& set.body == silent()
            &&& a.flags.contains('u') || a.flags.contains('U') ==> shows == (
            if b.flags.contains('q') || b.flags.contains('v') {
                silent()
            } else {
                Err("unknown option: "@ + name)
            })
            &&& !(a.flags.contains('u') || a.flags.contains('U')) ==> shows == Ok::<
                Seq<Seq<char>>,
                Seq<char>,
            >(seq![shown(name, value, b.flags.contains('v'))])
        }),
{
    let scope = option_scope(v, a);
    let name = a.positionals[0];
    let w = set_option(v, set_args, set_window).state;
    assert(w.uids() == v.uids());
    assert(option_scope(w, b) == option_scope(v, b));
    assert forall|value: Seq<char>|
        option_get(#[trigger] option_put(v.options, scope, name, value), scope, name) == Some(
            value,
        ) by {
        law_option_reads_back(v.options, scope, name, value, scope, name);
    }
    law_removed_option_is_unset(v.options, scope, name, scope, name);
}

/// The line by which a client stores an option of the session.
pub open spec fn set_line(name: Seq<char>, value: Seq<char>) -> Seq<char> {
    "set -t $0 "@ + name + " '"@ + value + "'"@
}

/// The line by which a client asks for an option of the session.
pub open spec fn show_line(name: Seq<char>) -> Seq<char> {
    "show -v -q -t $0 "@ + name
}

/// The line by which a client forgets an option of the session.
pub open spec fn unset_line(name: Seq<char>) -> Seq<char> {
    "set -u -t $0 "@ + name
}

/// What a client stores in an option of the session is what it reads back, and
/// an option that it forgets is unset: `set -t $0 @name 'value'` and then
/// `show -v -q -t $0 @name` answers the value alone, and after
/// `set -u -t $0 @name` nothing, without an error.
pub proof fn law_set_option_is_shown(
    v: ServerView,
    name: Seq<char>,
    value: Seq<char>,
    first: u64,
    second: u64,
    third: u64,
    fourth: u64,
)
    requires
        v.ok(),
        v.idle(),
        is_plain(name),
        name[0] == '@',
        !value.contains('\''),
        !is_flag(value),
    ensures
        ({
            let n = v.next_command;
            let set = answer(v, set_line(name, value), first);
            let shows = answer(set.state, show_line(name), second);
            let unset = answer(shows.state, unset_line(name), third);
            let again = answer(unset.state, show_line(name), fourth);
            &&& set.lines == block(first, n, silent())
            &&& shows.lines == block(second, next_number(n), Ok(seq![value]))
            &&& unset.lines == block(third, next_number(next_number(n)), silent())
            &&& again.lines == block(fourth, next_number(next_number(next_number(n))), silent())
        }),
{
    let set = answer(v, set_line(name, value), first);
    let shows = answer(set.state, show_line(name), second);
    let unset = answer(shows.state, unset_line(name), third);
    lemma_set_answer(v, name, value, first);
    lemma_show_answer(set.state, name, second);
    lemma_unset_answer(shows.state, name, third);
    lemma_show_answer(unset.state, name, fourth);
}

/// The scope of the session's options.
spec fn session_scope() -> Seq<char> {
    "$"@ + dec(SESSION_ID as nat)
}

/// A command leaves the state as it is between two lines.
proof fn lemma_between_lines(v: ServerView, name: Seq<char>, args: Seq<Seq<char>>, now: u64)
    requires
        v.ok(),
        v.idle(),
    ensures
        answer_of(run(v, name, args), now).state.ok(),
        answer_of(run(v, name, args), now).state.idle(),
{
    law_command_keeps_depth(v, name, args);
    law_command_keeps_state_consistent(v, name, args);
    let o = run(v, name, args);
    assert(answer_of(o, now).state.uids() == o.state.uids());
}

proof fn lemma_set_answer(v: ServerView, name: Seq<char>, value: Seq<char>, now: u64)
    requires
        v.ok(),
        v.idle(),
        is_plain(name),
        name[0] == '@',
        !value.contains('\''),
        !is_flag(value),
    ensures
        ({
            let set = answer(v, set_line(name, value), now);
            &&& set.lines == block(now, v.next_command, silent())
            &&& set.state.ok()
            &&& set.state.idle()
            &&& set.state.next_command == next_number(v.next_command)
            &&& option_get(set.state.options, session_scope(), name) == Some(value)
        }),
{
    let args = seq!["-t"@, "$0"@, name, value];
    lemma_set_line(name, value);
    lemma_option_args(name, value);
    lemma_run_options(v, args);
    lemma_between_lines(v, "set"@, args, now);
    law_option_reads_back(v.options, session_scope(), name, value, session_scope(), name);
    let o = run(v, "set"@, args);
    assert(o.body == silent());
    assert(o.state.options == option_put(v.options, session_scope(), name, value));
    assert(block(now, v.next_command, silent()) + Seq::<Seq<u8>>::empty() =~= block(
        now,
        v.next_command,
        silent(),
    ));
    assert(o.state.deferred =~= Seq::<Seq<u8>>::empty());
}

proof fn lemma_show_answer(v: ServerView, name: Seq<char>, now: u64)
    requires
        v.ok(),
        v.idle(),
        is_plain(name),
        name[0] == '@',
    ensures
        ({
            let shows = answer(v, show_line(name), now);
            &&& shows.lines == block(
                now,
                v.next_command,
                match option_get(v.options, session_scope(), name) {
                    Some(value) => Ok(seq![value]),
                    None => silent(),
                },
            )
            &&& shows.state.ok()
            &&& shows.state.idle()
            &&& shows.state.next_command == next_number(v.next_command)
            &&& shows.state.options == v.options
        }),
{
    let args = seq!["-v"@, "-q"@, "-t"@, "$0"@, name];
    lemma_show_line(name);
    lemma_option_args(name, Seq::empty());
    lemma_run_options(v, args);
    lemma_between_lines(v, "show"@, args, now);
    let o = run(v, "show"@, args);
    let body: Body = match option_get(v.options, session_scope(), name) {
        Some(value) => Ok(seq![value]),
        None => silent(),
    };
    assert(o.body == body);
    assert(block(now, v.next_command, body) + Seq::<Seq<u8>>::empty() =~= block(
        now,
        v.next_command,
        body,
    ));
    assert(o.state.deferred =~= Seq::<Seq<u8>>::empty());
}

proof fn lemma_unset_answer(v: ServerView, name: Seq<char>, now: u64)
    requires
        v.ok(),
        v.idle(),
        is_plain(name),
        name[0] == '@',
    ensures
        ({
            let unset = answer(v, unset_line(name), now);
            &&& unset.lines == block(now, v.next_command, silent())
            &&& unset.state.ok()
            &&& unset.state.idle()
            &&& unset.state.next_command == next_number(v.next_command)
            &&& option_get(unset.state.options, session_scope(), name) is None
        }),
{
    let args = seq!["-u"@, "-t"@, "$0"@, name];
    lemma_unset_line(name);
    lemma_option_args(name, Seq::empty());
    lemma_run_options(v, args);
    lemma_between_lines(v, "set"@, args, now);
    law_removed_option_is_unset(v.options, session_scope(), name, session_scope(), name);
    let o = run(v, "set"@, args);
    assert(o.body == silent());
    assert(block(now, v.next_command, silent()) + Seq::<Seq<u8>>::empty() =~= block(
        now,
        v.next_command,
        silent(),
    ));
    assert(o.state.deferred =~= Seq::<Seq<u8>>::empty());
}

proof fn lemma_run_options(v: ServerView, args: Seq<Seq<char>>)
    ensures
        run(v, "set"@, args) == set_option(v, args, false),
        run(v, "show"@, args) == answers(v, show_options(v, args, false)),
{
    reveal(run);
    reveal_strlit("list-sessions");
    reveal_strlit("ls");
    reveal_strlit("list-windows");
    reveal_strlit("lsw");
    reveal_strlit("list-panes");
    reveal_strlit("lsp");
    reveal_strlit("list-clients");
    reveal_strlit("lsc");
    reveal_strlit("display-message");
    reveal_strlit("display");
    reveal_strlit("displayp");
    reveal_strlit("send-keys");
    reveal_strlit("send");
    reveal_strlit("refresh-client");
    reveal_strlit("refresh");
    reveal_strlit("resize-window");
    reveal_strlit("resizew");
    reveal_strlit("resize-pane");
    reveal_strlit("resizep");
    reveal_strlit("capture-pane");
    reveal_strlit("capturep");
    reveal_strlit("select-pane");
    reveal_strlit("selectp");
    reveal_strlit("select-window");
    reveal_strlit("selectw");
    reveal_strlit("show-options");
    reveal_strlit("show");
    reveal_strlit("show-window-options");
    reveal_strlit("showw");
    reveal_strlit("set-option");
    reveal_strlit("set");
    assert("list-sessions"@.len() == 13);
    assert("ls"@.len() == 2);
    assert("list-windows"@.len() == 12);
    assert("lsw"@.len() == 3);
    assert("list-panes"@.len() == 10);
    assert("lsp"@.len() == 3);
    assert("list-clients"@.len() == 12);
    assert("lsc"@.len() == 3);
    assert("display-message"@.len() == 15);
    assert("display"@.len() == 7);
    assert("displayp"@.len() == 8);
    assert("send-keys"@.len() == 9);
    assert("send"@.len() == 4);
    assert("refresh-client"@.len() == 14);
    assert("refresh"@.len() == 7);
    assert("resize-window"@.len() == 13);
    assert("resizew"@.len() == 7);
    assert("resize-pane"@.len() == 11);
    assert("resizep"@.len() == 7);
    assert("capture-pane"@.len() == 12);
    assert("capturep"@.len() == 8);
    assert("select-pane"@.len() == 11);
    assert("selectp"@.len() == 7);
    assert("select-window"@.len() == 13);
    assert("selectw"@.len() == 7);
    assert("show-options"@.len() == 12);
    assert("show"@.len() == 4);
    assert("show-window-options"@.len() == 19);
    assert("showw"@.len() == 5);
    assert("set-option"@.len() == 10);
    assert("set"@.len() == 3);
    assert("set"@[0] == 's' && "show"@[1] == 'h');
    assert("lsw"@[0] == 'l' && "lsp"@[0] == 'l' && "lsc"@[0] == 'l');
    assert("send"@[1] == 'e');
}

proof fn lemma_plain_words()
    ensures
        is_plain("set"@),
        is_plain("show"@),
        is_plain("-t"@),
        is_plain("-u"@),
        is_plain("-v"@),
        is_plain("-q"@),
        is_plain("$0"@),
{
    reveal_strlit("set");
    reveal_strlit("show");
    reveal_strlit("-t");
    reveal_strlit("-u");
    reveal_strlit("-v");
    reveal_strlit("-q");
    reveal_strlit("$0");
}

/// A line that begins and ends with characters that are no white space is neither
/// blank nor shortened.
proof fn lemma_kept_line(line: Seq<char>)
    requires
        line.len() > 0,
        !is_white_space(line[0]),
        !is_white_space(line.last()),
    ensures
        stripped(line) == line,
        trim(line).len() > 0,
{
}

proof fn lemma_set_line(name: Seq<char>, value: Seq<char>)
    requires
        is_plain(name),
        !value.contains('\''),
    ensures
        words_of(stripped(set_line(name, value))) == Ok::<_, Seq<char>>(
            seq!["set"@, "-t"@, "$0"@, name, value],
        ),
        trim(stripped(set_line(name, value))).len() > 0,
        seq!["set"@, "-t"@, "$0"@, name, value].skip(1) == seq!["-t"@, "$0"@, name, value],
{
    lemma_plain_words();
    reveal_strlit("set -t $0 ");
    reveal_strlit("set");
    reveal_strlit("-t");
    reveal_strlit("$0");
    reveal_strlit(" '");
    reveal_strlit("'");
    let line = set_line(name, value);
    let e = seq!['\''] + value + seq!['\''];
    let d = name + seq![' '] + e;
    let c = "$0"@ + seq![' '] + d;
    let b = "-t"@ + seq![' '] + c;
    assert(line =~= "set"@ + seq![' '] + b);
    assert(line[0] == 's');
    assert(line.last() == '\'');
    lemma_kept_line(line);
    lemma_single_quoted(value);
    lemma_first_word(name, e);
    lemma_first_word("$0"@, d);
    lemma_first_word("-t"@, c);
    lemma_first_word("set"@, b);
    assert(seq![name] + seq![value] =~= seq![name, value]);
    assert(seq!["$0"@] + seq![name, value] =~= seq!["$0"@, name, value]);
    assert(seq!["-t"@] + seq!["$0"@, name, value] =~= seq!["-t"@, "$0"@, name, value]);
    assert(seq!["set"@] + seq!["-t"@, "$0"@, name, value] =~= seq![
        "set"@,
        "-t"@,
        "$0"@,
        name,
        value,
    ]);
    assert(seq!["set"@, "-t"@, "$0"@, name, value].skip(1) =~= seq!["-t"@, "$0"@, name, value]);
}

proof fn lemma_show_line(name: Seq<char>)
    requires
        is_plain(name),
    ensures
        words_of(stripped(show_line(name))) == Ok::<_, Seq<char>>(
            seq!["show"@, "-v"@, "-q"@, "-t"@, "$0"@, name],
        ),
        trim(stripped(show_line(name))).len() > 0,
        seq!["show"@, "-v"@, "-q"@, "-t"@, "$0"@, name].skip(1) == seq![
            "-v"@,
            "-q"@,
            "-t"@,
            "$0"@,
            name,
        ],
{
    lemma_plain_words();
    reveal_strlit("show -v -q -t $0 ");
    reveal_strlit("show");
    reveal_strlit("-v");
    reveal_strlit("-q");
    reveal_strlit("-t");
    reveal_strlit("$0");
    let line = show_line(name);
    let e = "$0"@ + seq![' '] + name;
    let d = "-t"@ + seq![' '] + e;
    let c = "-q"@ + seq![' '] + d;
    let b = "-v"@ + seq![' '] + c;
    assert(line =~= "show"@ + seq![' '] + b);
    assert(line[0] == 's');
    assert(line.last() == name.last());
    lemma_kept_line(line);
    lemma_one_word(name);
    lemma_first_word("$0"@, name);
    lemma_first_word("-t"@, e);
    lemma_first_word("-q"@, d);
    lemma_first_word("-v"@, c);
    lemma_first_word("show"@, b);
    assert(seq!["$0"@] + seq![name] =~= seq!["$0"@, name]);
    assert(seq!["-t"@] + seq!["$0"@, name] =~= seq!["-t"@, "$0"@, name]);
    assert(seq!["-q"@] + seq!["-t"@, "$0"@, name] =~= seq!["-q"@, "-t"@, "$0"@, name]);
    let args = seq!["-v"@, "-q"@, "-t"@, "$0"@, name];
    assert(seq!["-v"@] + seq!["-q"@, "-t"@, "$0"@, name] =~= args);
    let all = seq!["show"@, "-v"@, "-q"@, "-t"@, "$0"@, name];
    assert(seq!["show"@] + args =~= all);
    assert(all.skip(1) =~= args);
}

proof fn lemma_unset_line(name: Seq<char>)
    requires
        is_plain(name),
    ensures
        words_of(stripped(unset_line(name))) == Ok::<_, Seq<char>>(
            seq!["set"@, "-u"@, "-t"@, "$0"@, name],
        ),
        trim(stripped(unset_line(name))).len() > 0,
        seq!["set"@, "-u"@, "-t"@, "$0"@, name].skip(1) == seq!["-u"@, "-t"@, "$0"@, name],
{
    lemma_plain_words();
    reveal_strlit("set -u -t $0 ");
    reveal_strlit("set");
    reveal_strlit("-u");
    reveal_strlit("-t");
    reveal_strlit("$0");
    let line = unset_line(name);
    let d = "$0"@ + seq![' '] + name;
    let c = "-t"@ + seq![' '] + d;
    let b = "-u"@ + seq![' '] + c;
    assert(line =~= "set"@ + seq![' '] + b);
    assert(line[0] == 's');
    assert(line.last() == name.last());
    lemma_kept_line(line);
    lemma_one_word(name);
    lemma_first_word("$0"@, name);
    lemma_first_word("-t"@, d);
    lemma_first_word("-u"@, c);
    lemma_first_word("set"@, b);
    assert(seq!["$0"@] + seq![name] =~= seq!["$0"@, name]);
    assert(seq!["-t"@] + seq!["$0"@, name] =~= seq!["-t"@, "$0"@, name]);
    let args = seq!["-u"@, "-t"@, "$0"@, name];
    assert(seq!["-u"@] + seq!["-t"@, "$0"@, name] =~= args);
    let all = seq!["set"@, "-u"@, "-t"@, "$0"@, name];
    assert(seq!["set"@] + args =~= all);
    assert(all.skip(1) =~= args);
}

/// A flag of its own that takes no value.
proof fn lemma_switch(w: Seq<char>, c: char, rest: Seq<Seq<char>>, acc: ArgsView)
    requires
        w == seq!['-', c],
        c != 't',
        c != ':',
        !('0' <= c <= '9'),
    ensures
        args_from(seq![w] + rest, "t:"@, acc) == args_from(rest, "t:"@, acc.with_flag(c)),
{
    reveal_strlit("t:");
    let ws = seq![w] + rest;
    let cluster = w.skip(1);
    assert(ws[0] == w);
    assert(ws.skip(1) =~= rest);
    assert(cluster =~= seq![c]);
    assert(!takes_value("t:"@, c));
    assert(value_flag(cluster.skip(1), "t:"@) == 0);
    assert(value_flag(cluster, "t:"@) == 1);
    assert(cluster.take(1) =~= cluster);
    assert(cluster[0] == c);
    assert(acc.flags.union(char_set(cluster.take(1))) =~= acc.flags.insert(c)) by {
        assert forall|x: char| char_set(cluster).contains(x) <==> x == c by {
            if cluster.contains(x) {
                let k = choose|k: int| 0 <= k < cluster.len() && cluster[k] == x;
                assert(k == 0);
            }
        }
    }
}

/// A target in a word of its own.
proof fn lemma_target(t: Seq<char>, rest: Seq<Seq<char>>, acc: ArgsView)
    ensures
        args_from(seq!["-t"@, t] + rest, "t:"@, acc) == args_from(
            rest,
            "t:"@,
            ArgsView { values: acc.values.push(('t', t)), ..acc },
        ),
{
    reveal_strlit("t:");
    reveal_strlit("-t");
    let ws = seq!["-t"@, t] + rest;
    let cluster = "-t"@.skip(1);
    assert(ws[0] == "-t"@ && ws[1] == t);
    assert(ws.skip(2) =~= rest);
    assert(cluster =~= seq!['t']);
    assert(takes_value("t:"@, 't')) by {
        assert("t:"@[0] == 't' && "t:"@[1] == ':');
    }
    assert(value_flag(cluster, "t:"@) == 0);
    assert(char_set(cluster.take(0)) =~= Set::<char>::empty());
    assert(acc.flags.union(char_set(cluster.take(0))) =~= acc.flags);
}

proof fn lemma_option_args(name: Seq<char>, value: Seq<char>)
    requires
        name.len() > 0,
        name[0] == '@',
        !is_flag(value),
    ensures
        option_args(seq!["-t"@, "$0"@, name, value], false) == Ok::<ArgsView, Seq<char>>(
            ArgsView {
                values: seq![('t', "$0"@)],
                positionals: seq![name, value],
                ..ArgsView::none()
            },
        ),
        option_args(seq!["-v"@, "-q"@, "-t"@, "$0"@, name], false) == Ok::<ArgsView, Seq<char>>(
            ArgsView {
                flags: Set::empty().insert('v').insert('q'),
                values: seq![('t', "$0"@)],
                positionals: seq![name],
            },
        ),
        option_args(seq!["-u"@, "-t"@, "$0"@, name], false) == Ok::<ArgsView, Seq<char>>(
            ArgsView {
                flags: Set::empty().insert('u'),
                values: seq![('t', "$0"@)],
                positionals: seq![name],
            },
        ),
{
    reveal_strlit("-v");
    reveal_strlit("-q");
    reveal_strlit("-u");
    let none = ArgsView::none();
    let t = seq![('t', "$0"@)];
    assert(none.values.push(('t', "$0"@)) =~= t);
    lemma_rest(seq![name, value], ArgsView { values: t, ..none });
    lemma_target("$0"@, seq![name, value], none);
    assert(seq!["-t"@, "$0"@] + seq![name, value] =~= seq!["-t"@, "$0"@, name, value]);
    assert(none.positionals + seq![name, value] =~= seq![name, value]);

    assert("-v"@ =~= seq!['-', 'v']);
    assert("-q"@ =~= seq!['-', 'q']);
    assert("-u"@ =~= seq!['-', 'u']);
    assert(none.positionals + seq![name] =~= seq![name]);
    let after = seq!["-t"@, "$0"@, name];
    assert(seq!["-t"@, "$0"@] + seq![name] =~= after);
    let vq = none.with_flag('v').with_flag('q');
    lemma_switch("-v"@, 'v', seq!["-q"@] + after, none);
    lemma_switch("-q"@, 'q', after, none.with_flag('v'));
    lemma_target("$0"@, seq![name], vq);
    lemma_rest(seq![name], ArgsView { values: t, ..vq });
    assert(seq!["-v"@] + (seq!["-q"@] + after) =~= seq!["-v"@, "-q"@, "-t"@, "$0"@, name]);

    let u = none.with_flag('u');
    lemma_switch("-u"@, 'u', after, none);
    lemma_target("$0"@, seq![name], u);
    lemma_rest(seq![name], ArgsView { values: t, ..u });
    assert(seq!["-u"@] + after =~= seq!["-u"@, "-t"@, "$0"@, name]);
}

/// Words none of which is a flag.
proof fn lemma_rest(words: Seq<Seq<char>>, acc: ArgsView)
    requires
        forall|i: int| 0 <= i < words.len() ==> !is_flag(#[trigger] words[i]),
    ensures
        args_from(words, "t:"@, acc) == Ok::<ArgsView, Seq<char>>(
            ArgsView { positionals: acc.positionals + words, ..acc },
        ),
    decreases words.len(),
{
    if words.len() > 0 {
        let rest = words.skip(1);
        assert forall|i: int| 0 <= i < rest.len() implies !is_flag(#[trigger] rest[i]) by {
            assert(rest[i] == words[i + 1]);
        }
        assert(!is_flag(words[0]));
        lemma_rest(rest, ArgsView { positionals: acc.positionals.push(words[0]), ..acc });
        assert(acc.positionals.push(words[0]) + rest =~= acc.positionals + words);
    } else {
        assert(acc.positionals + words =~= acc.positionals);
    }
}

/// The digits of a numeral are ASCII and no control characters.
proof fn lemma_digits(n: nat)
    ensures
        forall|i: int| 0 <= i < dec(n).len() ==> '0' <= #[trigger] dec(n)[i] <= '9',
    decreases n,
{
    assert('0' <= digit(n % 10) <= '9');
    if n >= 10 {
        lemma_digits(n / 10);
        let d = dec(n / 10);
        assert forall|i: int| 0 <= i < dec(n).len() implies '0' <= #[trigger] dec(n)[i] <= '9' by {
            if i < d.len() {
                assert(dec(n)[i] == d[i]);
            }
        }
    }
}

/// An `%output` line holds no control byte, so no raw newline or carriage
/// return of a pane can end it early.
pub proof fn law_output_line_is_one_line(pane_id: u32, data: Seq<u8>)
    ensures
        forall|i: int|
            0 <= i < output_line(pane_id, data).len() ==> (#[trigger] output_line(
                pane_id,
                data,
            )[i]) >= 0x20,
{
    reveal_strlit("%output %");
    reveal_strlit(" ");
    let head = "%output %"@ + dec(pane_id as nat) + " "@;
    lemma_digits(pane_id as nat);
    law_escaped_payload_has_no_control_byte(data);
    assert forall|i: int| 0 <= i < head.len() implies 0x20 <= (#[trigger] head[i]) as int && (
    head[i] as int) < 0x80 by {
        let a = "%output %"@;
        let d = dec(pane_id as nat);
        if i < a.len() {
            assert(head[i] == a[i]);
        } else if i < a.len() + d.len() {
            assert(head[i] == d[i - a.len()]);
        } else {
            assert(head[i] == ' ');
        }
    }
    assert(is_ascii_chars(head));
    is_ascii_chars_encode_utf8(head);
    let h = encode_utf8(head);
    let e = escape(data);
    assert forall|i: int| 0 <= i < output_line(pane_id, data).len() implies (
    #[trigger] output_line(pane_id, data)[i]) >= 0x20 by {
        if i < h.len() {
            assert(output_line(pane_id, data)[i] == h[i]);
            assert(h[i] == head[i] as u8);
            assert(0x20 <= head[i] as int);
        } else {
            assert(output_line(pane_id, data)[i] == e[i - h.len()]);
        }
    }
}

/// Two servers that publish the same set of panes give them the same ids,
/// whatever the order they learned of them in.
pub proof fn law_reconnect_reproduces_ids(v: ServerView, w: ServerView)
    requires
        v.ok(),
        w.ok(),
        forall|u: Seq<char>| v.has(u) <==> w.has(u),
    ensures
        v.uids() == w.uids(),
        forall|u: Seq<char>| #[trigger] v.pane_id(u) == w.pane_id(u),
        forall|u: Seq<char>| #[trigger] v.window_id(u) == w.window_id(u),
{
    assert forall|u: Seq<char>| v.uids().contains(u) <==> w.uids().contains(u) by {
        assert(v.has(u) <==> w.has(u));
    }
    lemma_sorted_unique(v.uids(), w.uids());
}

} // verus!
