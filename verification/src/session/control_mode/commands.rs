//! The commands of the control client: what each answers, changes and asks of
//! the driver.

use crate::session::attach::ResizePolicy;
use crate::session::control_mode::args::{args_of, Args, ArgsView};
use crate::session::control_mode::format::{expand, tagged, FmtCtx};
use crate::session::control_mode::keys::{key_bytes, key_name_to_bytes};
use crate::session::control_mode::lex::{quote_option_value, quote_value};
use crate::session::control_mode::options::{law_options_stay_ordered, option_get, option_put,
    option_remove, OptionView};
use crate::session::control_mode::pane::{action_views, Action, ActionView};
use crate::session::control_mode::state::{lemma_published, ServerState, ServerView, SESSION_ID};
use crate::text::{bytes_of, chars_of, dec, decimal, find, find_char, find_either, find_either_char,
    has_prefix, lines, lines_of, opt_copy, opt_is, opt_view, owned, parse_number, parse_uint, same,
    starts_with, string_of, trim, trim_end, trim_start_char, trimmed, trimmed_end,
    trimmed_start_char, views};
use vstd::prelude::*;
use vstd::slice::*;
use vstd::string::*;
use vstd::utf8::*;

verus! {

/// The lines a command answers, or the message of its error.
pub type Body = Result<Seq<Seq<char>>, Seq<char>>;

/// What a command does: the state after it, what it asks of the driver, and
/// what it answers.
pub struct Outcome {
    pub state: ServerView,
    pub actions: Seq<ActionView>,
    pub body: Body,
}

/// A command that only answers.
pub open spec fn answers(v: ServerView, body: Body) -> Outcome {
    Outcome { state: v, actions: Seq::empty(), body }
}

/// A command that is refused with `message`.
pub open spec fn refused(v: ServerView, message: Seq<char>) -> Outcome {
    answers(v, Err(message))
}

/// A command that succeeds with nothing to say.
pub open spec fn silent() -> Body {
    Ok(Seq::empty())
}

/// The body that `r` stands for.
pub open spec fn body_view(r: Result<Vec<String>, String>) -> Body {
    match r {
        Ok(v) => Ok(views(v@)),
        Err(e) => Err(e@),
    }
}

/// Whether `r` is the body `b`.
pub open spec fn is_body(r: Result<Vec<String>, String>, b: Body) -> bool {
    body_view(r) == b
}

/// The pane that `-t` names, or else the active one.
pub open spec fn target_or_active(v: ServerView, a: ArgsView) -> Option<Seq<char>> {
    match a.value('t') {
        Some(t) => match v.resolve(t) {
            Some(u) => Some(u),
            None => v.active,
        },
        None => v.active,
    }
}

// ---------------------------------------------------------------------------
// Listing
// ---------------------------------------------------------------------------

/// `list-sessions`.
pub open spec fn list_sessions(v: ServerView, args: Seq<Seq<char>>) -> Body {
    match args_of(args, "F:f:"@) {
        Err(e) => Err(e),
        Ok(a) => match a.value('F') {
            None => Ok(
                seq![v.session_name + ": "@ + dec(v.panes.len()) + " windows (attached)"@],
            ),
            Some(f) => Ok(seq![expand(v, f, v.active)]),
        },
    }
}

/// The template of `list-windows` without `-F`.
pub const WINDOW_TEMPLATE: &'static str =
    "#{window_index}: #{window_name}#{window_flags} (#{window_panes} panes) [#{window_width}x#{window_height}] [layout #{window_layout}] #{window_id}#{?window_active, (active),}";

/// The template of `list-panes` without `-F`.
pub const PANE_TEMPLATE: &'static str =
    "#{pane_index}: [#{pane_width}x#{pane_height}] [history #{history_size}/#{history_limit}, #{history_bytes} bytes] #{pane_id}#{?pane_active, (active),}";

/// A template expanded for each of `uids`.
pub open spec fn expand_each(v: ServerView, t: Seq<char>, uids: Seq<Seq<char>>) -> Seq<Seq<char>> {
    Seq::new(uids.len(), |i: int| expand(v, t, Some(uids[i])))
}

/// The one pane of a list, or all of them.
pub open spec fn one_or_all(v: ServerView, one: Option<Seq<char>>) -> Seq<Seq<char>> {
    match one {
        Some(u) => seq![u],
        None => v.uids(),
    }
}

/// The window that a target narrows a list to: only a target that begins with
/// `@` does.
pub open spec fn narrowed(v: ServerView, target: Option<Seq<char>>) -> Option<Seq<char>> {
    match target {
        Some(t) => if t.len() > 0 && t[0] == '@' {
            v.resolve(t)
        } else {
            None
        },
        None => None,
    }
}

/// `list-windows`.
pub open spec fn list_windows(v: ServerView, args: Seq<Seq<char>>) -> Body {
    match args_of(args, "F:t:f:"@) {
        Err(e) => Err(e),
        Ok(a) => {
            let t = match a.value('F') {
                Some(f) => f,
                None => WINDOW_TEMPLATE@,
            };
            Ok(expand_each(v, t, one_or_all(v, narrowed(v, a.value('t')))))
        },
    }
}

/// `list-panes`: every pane under `-s` or `-a`, or where `-t` names none.
pub open spec fn list_panes(v: ServerView, args: Seq<Seq<char>>) -> Body {
    match args_of(args, "F:t:f:"@) {
        Err(e) => Err(e),
        Ok(a) => {
            let t = match a.value('F') {
                Some(f) => f,
                None => PANE_TEMPLATE@,
            };
            let one = if a.flags.contains('s') || a.flags.contains('a') {
                None
            } else {
                match a.value('t') {
                    Some(t) => v.resolve(t),
                    None => None,
                }
            };
            Ok(expand_each(v, t, one_or_all(v, one)))
        },
    }
}

/// `list-clients`.
pub open spec fn list_clients(v: ServerView, args: Seq<Seq<char>>) -> Body {
    match args_of(args, "F:t:f:"@) {
        Err(e) => Err(e),
        Ok(a) => match a.value('F') {
            Some(f) => Ok(seq![expand(v, f, v.active)]),
            None => Ok(
                seq![
                    v.client_name + ": "@ + v.session_name + " ["@ + dec(v.client_size.0 as nat)
                        + "x"@ + dec(v.client_size.1 as nat) + " control] (control mode)"@,
                ],
            ),
        },
    }
}

/// The template of `display-message` without one.
pub const MESSAGE_TEMPLATE: &'static str = "[#{session_name}] #{window_index}:#{window_name}";

/// `display-message`.
pub open spec fn display_message(v: ServerView, args: Seq<Seq<char>>) -> Body {
    match args_of(args, "t:c:F:"@) {
        Err(e) => Err(e),
        Ok(a) => {
            let t = if a.positionals.len() > 0 {
                a.positionals[0]
            } else {
                match a.value('F') {
                    Some(f) => f,
                    None => MESSAGE_TEMPLATE@,
                }
            };
            Ok(seq![expand(v, t, target_or_active(v, a))])
        },
    }
}

impl ServerState {
    /// The pane that `-t` names, or else the active one.
    fn target_or_active(&self, a: &Args) -> (r: Option<String>)
        requires
            self.wf(),
        ensures
            opt_view(r) == target_or_active(self@, a@),
            opt_view(r) matches Some(u) ==> self@.has(u),
    {
        match a.value('t') {
            Some(t) => match self.resolve_target(t) {
                Some(u) => Some(u),
                None => opt_copy(&self.active),
            },
            None => opt_copy(&self.active),
        }
    }

    /// A template expanded for each of `uids`.
    fn expand_each(&self, t: &str, uids: &Vec<String>) -> (r: Vec<String>)
        requires
            self.wf(),
            forall|i: int| 0 <= i < uids@.len() ==> self@.has((#[trigger] uids@[i])@),
        ensures
            views(r@) == expand_each(self@, t@, views(uids@)),
    {
        let mut out: Vec<String> = Vec::new();
        let mut i: usize = 0;
        while i < uids.len()
            invariant
                i <= uids@.len(),
                self.wf(),
                forall|k: int| 0 <= k < uids@.len() ==> self@.has((#[trigger] uids@[k])@),
                out@.len() == i,
                forall|k: int|
                    0 <= k < i ==> (#[trigger] out@[k])@ == expand(self@, t@, Some(uids@[k]@)),
            decreases uids.len() - i,
        {
            let ctx = FmtCtx { uid: Some(uids[i].clone()) };
            assert(self@.has(uids@[i as int]@));
            out.push(self.expand(t, &ctx));
            i = i + 1;
        }
        assert(views(out@) =~= expand_each(self@, t@, views(uids@)));
        out
    }

    /// The one pane of a list, or all of them.
    fn one_or_all(&self, one: Option<String>) -> (r: Vec<String>)
        requires
            opt_view(one) matches Some(u) ==> self@.has(u),
        ensures
            views(r@) == one_or_all(self@, opt_view(one)),
            forall|i: int| 0 <= i < r@.len() ==> self@.has((#[trigger] r@[i])@),
    {
        match one {
            Some(u) => {
                let ghost g = u@;
                let r = vec![u];
                assert(views(r@) =~= seq![g]);
                r
            },
            None => {
                let r = self.uids();
                assert forall|i: int| 0 <= i < r@.len() implies self@.has((#[trigger] r@[i])@) by {
                    assert(views(r@)[i] == r@[i]@);
                }
                r
            },
        }
    }

    fn cmd_list_sessions(&self, args: &[String]) -> (r: Result<Vec<String>, String>)
        requires
            self.wf(),
        ensures
            is_body(r, list_sessions(self@, views(args@))),
    {
        let a = match Args::parse(args, "F:f:") {
            Ok(a) => a,
            Err(e) => {
                return Err(e);
            },
        };
        let line = match a.value('F') {
            None => {
                let mut s = self.session_name.clone();
                s.append(": ");
                s.append(decimal(self.panes.len() as u64).as_str());
                s.append(" windows (attached)");
                s
            },
            Some(f) => {
                let ctx = FmtCtx { uid: opt_copy(&self.active) };
                self.expand(f, &ctx)
            },
        };
        let ghost g = line@;
        let r = vec![line];
        assert(views(r@) =~= seq![g]);
        Ok(r)
    }

    fn cmd_list_windows(&self, args: &[String]) -> (r: Result<Vec<String>, String>)
        requires
            self.wf(),
        ensures
            is_body(r, list_windows(self@, views(args@))),
    {
        let a = match Args::parse(args, "F:t:f:") {
            Ok(a) => a,
            Err(e) => {
                return Err(e);
            },
        };
        let one = match a.value('t') {
            Some(t) => {
                let chars = chars_of(t);
                if chars.len() > 0 && chars[0] == '@' {
                    self.resolve_target(t)
                } else {
                    None
                }
            },
            None => None,
        };
        let uids = self.one_or_all(one);
        let t = match a.value('F') {
            Some(f) => f,
            None => WINDOW_TEMPLATE,
        };
        Ok(self.expand_each(t, &uids))
    }

    fn cmd_list_panes(&self, args: &[String]) -> (r: Result<Vec<String>, String>)
        requires
            self.wf(),
        ensures
            is_body(r, list_panes(self@, views(args@))),
    {
        let a = match Args::parse(args, "F:t:f:") {
            Ok(a) => a,
            Err(e) => {
                return Err(e);
            },
        };
        let one = if a.flag('s') || a.flag('a') {
            None
        } else {
            match a.value('t') {
                Some(t) => self.resolve_target(t),
                None => None,
            }
        };
        let uids = self.one_or_all(one);
        let t = match a.value('F') {
            Some(f) => f,
            None => PANE_TEMPLATE,
        };
        Ok(self.expand_each(t, &uids))
    }

    fn cmd_list_clients(&self, args: &[String]) -> (r: Result<Vec<String>, String>)
        requires
            self.wf(),
        ensures
            is_body(r, list_clients(self@, views(args@))),
    {
        let a = match Args::parse(args, "F:t:f:") {
            Ok(a) => a,
            Err(e) => {
                return Err(e);
            },
        };
        let line = match a.value('F') {
            Some(f) => {
                let ctx = FmtCtx { uid: opt_copy(&self.active) };
                self.expand(f, &ctx)
            },
            None => {
                let mut s = self.client_name.clone();
                s.append(": ");
                s.append(self.session_name.as_str());
                s.append(" [");
                s.append(decimal(self.client_size.0 as u64).as_str());
                s.append("x");
                s.append(decimal(self.client_size.1 as u64).as_str());
                s.append(" control] (control mode)");
                s
            },
        };
        let ghost g = line@;
        let r = vec![line];
        assert(views(r@) =~= seq![g]);
        Ok(r)
    }

    fn cmd_display_message(&self, args: &[String]) -> (r: Result<Vec<String>, String>)
        requires
            self.wf(),
        ensures
            is_body(r, display_message(self@, views(args@))),
    {
        let a = match Args::parse(args, "t:c:F:") {
            Ok(a) => a,
            Err(e) => {
                return Err(e);
            },
        };
        let ctx = FmtCtx { uid: self.target_or_active(&a) };
        let t = if a.positionals.len() > 0 {
            a.positionals[0].as_str()
        } else {
            match a.value('F') {
                Some(f) => f,
                None => MESSAGE_TEMPLATE,
            }
        };
        let line = self.expand(t, &ctx);
        let ghost g = line@;
        let r = vec![line];
        assert(views(r@) =~= seq![g]);
        Ok(r)
    }
}

// ---------------------------------------------------------------------------
// Keys
// ---------------------------------------------------------------------------

/// A message about a word: `before`, the word in quotes.
pub open spec fn about(before: Seq<char>, w: Seq<char>) -> Seq<char> {
    before + w + "'"@
}

fn about_word(before: &str, w: &str) -> (r: String)
    ensures
        r@ == about(before@, w@),
{
    let mut s = owned(before);
    s.append(w);
    s.append("'");
    s
}

/// The bytes that words name, each in hexadecimal.
pub open spec fn hex_data(words: Seq<Seq<char>>) -> Result<Seq<u8>, Seq<char>>
    decreases words.len(),
{
    if words.len() == 0 {
        Ok(Seq::empty())
    } else {
        match parse_number(words[0], 16, 0xff) {
            None => Err(about("invalid hex byte '"@, words[0])),
            Some(n) => match hex_data(words.skip(1)) {
                Ok(rest) => Ok(seq![n as u8] + rest),
                Err(e) => Err(e),
            },
        }
    }
}

/// The bytes of words, one after the other.
pub open spec fn literal_data(words: Seq<Seq<char>>) -> Seq<u8>
    decreases words.len(),
{
    if words.len() == 0 {
        Seq::empty()
    } else {
        encode_utf8(words[0]) + literal_data(words.skip(1))
    }
}

/// The bytes of one key: a code point behind `0x`, or a key name.
pub open spec fn key_data(w: Seq<char>) -> Result<Seq<u8>, Seq<char>> {
    if has_prefix(w, "0x"@) || has_prefix(w, "0X"@) {
        match parse_number(w.skip(2), 16, u32::MAX as nat) {
            Some(n) => if is_scalar(n as u32) {
                Ok(encode_scalar(n as u32))
            } else {
                Err(about("invalid key '"@, w))
            },
            None => Err(about("invalid key '"@, w)),
        }
    } else {
        Ok(key_bytes(w))
    }
}

/// The bytes of keys, one after the other.
pub open spec fn keys_data(words: Seq<Seq<char>>) -> Result<Seq<u8>, Seq<char>>
    decreases words.len(),
{
    if words.len() == 0 {
        Ok(Seq::empty())
    } else {
        match key_data(words[0]) {
            Err(e) => Err(e),
            Ok(b) => match keys_data(words.skip(1)) {
                Ok(rest) => Ok(b + rest),
                Err(e) => Err(e),
            },
        }
    }
}

/// The bytes that `send-keys` sends: under `-H` hexadecimal bytes, under `-l`
/// literal text, else keys.
pub open spec fn sent_data(a: ArgsView) -> Result<Seq<u8>, Seq<char>> {
    if a.flags.contains('H') {
        hex_data(a.positionals)
    } else if a.flags.contains('l') {
        Ok(literal_data(a.positionals))
    } else {
        keys_data(a.positionals)
    }
}

/// `send-keys`.
pub open spec fn send_keys(v: ServerView, args: Seq<Seq<char>>) -> Outcome {
    match args_of(args, "t:N:X:"@) {
        Err(e) => refused(v, e),
        Ok(a) => match target_or_active(v, a) {
            None => refused(v, "can't find pane"@),
            Some(uid) => match sent_data(a) {
                Err(e) => refused(v, e),
                Ok(data) => Outcome {
                    state: v,
                    actions: if data.len() > 0 {
                        seq![ActionView::Write { uid, data }]
                    } else {
                        Seq::empty()
                    },
                    body: silent(),
                },
            },
        },
    }
}

/// The UTF-8 bytes of the scalar `n`.
fn scalar_bytes(n: u32) -> (r: Vec<u8>)
    requires
        is_scalar(n),
    ensures
        r@ == encode_scalar(n),
{
    if n <= 0x7f {
        vec![(n & 0x7f) as u8]
    } else if n <= 0x7ff {
        vec![0xc0 | ((n >> 6) & 0x1f) as u8, 0x80 | (n & 0x3f) as u8]
    } else if n <= 0xffff {
        vec![
            0xe0 | ((n >> 12) & 0x0f) as u8,
            0x80 | ((n >> 6) & 0x3f) as u8,
            0x80 | (n & 0x3f) as u8,
        ]
    } else {
        vec![
            0xf0 | ((n >> 18) & 0x7) as u8,
            0x80 | ((n >> 12) & 0x3f) as u8,
            0x80 | ((n >> 6) & 0x3f) as u8,
            0x80 | (n & 0x3f) as u8,
        ]
    }
}

/// The bytes of one key.
fn one_key(w: &str) -> (r: Result<Vec<u8>, String>)
    ensures
        match r {
            Ok(b) => key_data(w@) == Ok::<Seq<u8>, Seq<char>>(b@),
            Err(e) => key_data(w@) == Err::<Seq<u8>, Seq<char>>(e@),
        },
{
    let chars = chars_of(w);
    let lower = chars_of("0x");
    let upper = chars_of("0X");
    if starts_with(chars.as_slice(), lower.as_slice()) || starts_with(
        chars.as_slice(),
        upper.as_slice(),
    ) {
        proof {
            reveal_strlit("0x");
            reveal_strlit("0X");
        }
        let digits = slice_subrange(chars.as_slice(), 2, chars.len());
        assert(digits@ =~= w@.skip(2));
        if let Some(n) = parse_uint(digits, 16, u32::MAX as u64) {
            let n: u32 = n as u32;
            if n <= 0xd7ff || (0xe000 <= n && n <= 0x10ffff) {
                return Ok(scalar_bytes(n));
            }
        }
        return Err(about_word("invalid key '", w));
    }
    key_name_to_bytes(w)
}

/// The bytes that words name, each in hexadecimal.
fn hex_bytes(words: &Vec<String>) -> (r: Result<Vec<u8>, String>)
    ensures
        match r {
            Ok(b) => hex_data(views(words@)) == Ok::<Seq<u8>, Seq<char>>(b@),
            Err(e) => hex_data(views(words@)) == Err::<Seq<u8>, Seq<char>>(e@),
        },
{
    let ghost all = views(words@);
    let mut data: Vec<u8> = Vec::new();
    let mut i: usize = 0;
    proof {
        assert(all.skip(0) =~= all);
        if let Ok(rest) = hex_data(all) {
            assert(data@ + rest =~= rest);
        }
    }
    while i < words.len()
        invariant
            i <= words@.len(),
            all == views(words@),
            match hex_data(all.skip(i as int)) {
                Ok(rest) => hex_data(all) == Ok::<Seq<u8>, Seq<char>>(data@ + rest),
                Err(e) => hex_data(all) == Err::<Seq<u8>, Seq<char>>(e),
            },
        decreases words.len() - i,
    {
        let ghost before = data@;
        let ghost tail = all.skip(i as int);
        assert(tail[0] == words@[i as int]@);
        assert(tail.skip(1) =~= all.skip(i + 1));
        let chars = chars_of(words[i].as_str());
        match parse_uint(chars.as_slice(), 16, 0xff) {
            Some(n) => {
                data.push(n as u8);
                proof {
                    if let Ok(rest) = hex_data(all.skip(i + 1)) {
                        assert(before + (seq![n as u8] + rest) =~= data@ + rest);
                    }
                }
            },
            None => {
                return Err(about_word("invalid hex byte '", words[i].as_str()));
            },
        }
        i = i + 1;
    }
    assert(data@ + Seq::<u8>::empty() =~= data@);
    Ok(data)
}

/// The bytes of words, one after the other.
fn literal_bytes(words: &Vec<String>) -> (r: Vec<u8>)
    ensures
        r@ == literal_data(views(words@)),
{
    let ghost all = views(words@);
    let mut data: Vec<u8> = Vec::new();
    let mut i: usize = 0;
    proof {
        assert(all.skip(0) =~= all);
        assert(data@ + literal_data(all) =~= literal_data(all));
    }
    while i < words.len()
        invariant
            i <= words@.len(),
            all == views(words@),
            literal_data(all) == data@ + literal_data(all.skip(i as int)),
        decreases words.len() - i,
    {
        let ghost before = data@;
        let ghost tail = all.skip(i as int);
        assert(tail[0] == words@[i as int]@);
        assert(tail.skip(1) =~= all.skip(i + 1));
        let mut b = bytes_of(words[i].as_str());
        let ghost g = b@;
        data.append(&mut b);
        assert(before + (g + literal_data(tail.skip(1))) =~= data@ + literal_data(tail.skip(1)));
        i = i + 1;
    }
    assert(data@ + Seq::<u8>::empty() =~= data@);
    data
}

/// The bytes of keys, one after the other.
fn key_name_bytes(words: &Vec<String>) -> (r: Result<Vec<u8>, String>)
    ensures
        match r {
            Ok(b) => keys_data(views(words@)) == Ok::<Seq<u8>, Seq<char>>(b@),
            Err(e) => keys_data(views(words@)) == Err::<Seq<u8>, Seq<char>>(e@),
        },
{
    let ghost all = views(words@);
    let mut data: Vec<u8> = Vec::new();
    let mut i: usize = 0;
    proof {
        assert(all.skip(0) =~= all);
        if let Ok(rest) = keys_data(all) {
            assert(data@ + rest =~= rest);
        }
    }
    while i < words.len()
        invariant
            i <= words@.len(),
            all == views(words@),
            match keys_data(all.skip(i as int)) {
                Ok(rest) => keys_data(all) == Ok::<Seq<u8>, Seq<char>>(data@ + rest),
                Err(e) => keys_data(all) == Err::<Seq<u8>, Seq<char>>(e),
            },
        decreases words.len() - i,
    {
        let ghost before = data@;
        let ghost tail = all.skip(i as int);
        assert(tail[0] == words@[i as int]@);
        assert(tail.skip(1) =~= all.skip(i + 1));
        match one_key(words[i].as_str()) {
            Ok(mut b) => {
                let ghost g = b@;
                data.append(&mut b);
                proof {
                    if let Ok(rest) = keys_data(all.skip(i + 1)) {
                        assert(before + (g + rest) =~= data@ + rest);
                    }
                }
            },
            Err(e) => {
                return Err(e);
            },
        }
        i = i + 1;
    }
    assert(data@ + Seq::<u8>::empty() =~= data@);
    Ok(data)
}

/// Adds `a` to the list `actions`.
fn add_action(actions: &mut Vec<Action>, a: Action)
    ensures
        action_views(final(actions)@) == action_views(old(actions)@) + seq![a@],
{
    actions.push(a);
    assert(action_views(actions@) =~= action_views(old(actions)@) + seq![a@]);
}

/// No command asks for nothing of the driver.
proof fn lemma_no_actions(s: Seq<ActionView>)
    ensures
        s + Seq::<ActionView>::empty() == s,
{
    assert(s + Seq::<ActionView>::empty() =~= s);
}

impl ServerState {
    fn cmd_send_keys(&self, args: &[String], actions: &mut Vec<Action>) -> (r: Result<
        Vec<String>,
        String,
    >)
        requires
            self.wf(),
        ensures
            ({
                let o = send_keys(self@, views(args@));
                is_body(r, o.body) && o.state == self@ && action_views(final(actions)@)
                    == action_views(old(actions)@) + o.actions
            }),
    {
        proof {
            lemma_no_actions(action_views(actions@));
        }
        let a = match Args::parse(args, "t:N:X:") {
            Ok(a) => a,
            Err(e) => {
                return Err(e);
            },
        };
        let uid = match self.target_or_active(&a) {
            Some(u) => u,
            None => {
                return Err(owned("can't find pane"));
            },
        };
        let data = if a.flag('H') {
            match hex_bytes(&a.positionals) {
                Ok(d) => d,
                Err(e) => {
                    return Err(e);
                },
            }
        } else if a.flag('l') {
            literal_bytes(&a.positionals)
        } else {
            match key_name_bytes(&a.positionals) {
                Ok(d) => d,
                Err(e) => {
                    return Err(e);
                },
            }
        };
        if data.len() > 0 {
            add_action(actions, Action::Write { uid, data });
        }
        let r: Vec<String> = Vec::new();
        assert(views(r@) =~= Seq::<Seq<char>>::empty());
        Ok(r)
    }
}

// ---------------------------------------------------------------------------
// Sizes
// ---------------------------------------------------------------------------

/// A request to resize each of `uids`.
pub open spec fn resize_each(uids: Seq<Seq<char>>, cols: u16, rows: u16) -> Seq<ActionView> {
    Seq::new(uids.len(), |i: int| ActionView::Resize { uid: uids[i], cols, rows })
}

/// The size that `-C` gives: two numbers with a `,` or an `x` between them.
pub open spec fn parse_size(dims: Seq<char>) -> Option<(u16, u16)> {
    let k = find_either(dims, ',', 'x');
    if k < dims.len() {
        match (
            parse_number(trim(dims.take(k)), 10, 0xffff),
            parse_number(trim(dims.skip(k + 1)), 10, 0xffff),
        ) {
            (Some(w), Some(h)) => Some((w as u16, h as u16)),
            _ => None,
        }
    } else {
        None
    }
}

/// Whether a `-C` argument names a window before its size, as in `@n:WxH`.
pub open spec fn names_window(spec: Seq<char>) -> bool {
    find(spec, ':') < spec.len() && spec[0] == '@'
}

/// `refresh-client`: `-C` sets the client size, and, where the policy is to
/// request it, asks to resize the window it names or every pane. Everything
/// else is accepted and ignored.
pub open spec fn refresh_client(v: ServerView, args: Seq<Seq<char>>) -> Outcome {
    match args_of(args, "C:f:A:B:t:"@) {
        Err(e) => refused(v, e),
        Ok(a) => match a.value('C') {
            None => answers(v, silent()),
            Some(c) => {
                let k = find(c, ':');
                let dims = if names_window(c) {
                    c.skip(k + 1)
                } else {
                    c
                };
                let one = if names_window(c) {
                    v.resolve(c.take(k))
                } else {
                    None
                };
                match parse_size(dims) {
                    None => refused(v, about("bad size '"@, c)),
                    Some((w, h)) => Outcome {
                        state: ServerView { client_size: (w, h), ..v },
                        actions: if v.policy == ResizePolicy::Request {
                            resize_each(one_or_all(v, one), w, h)
                        } else {
                            Seq::empty()
                        },
                        body: silent(),
                    },
                }
            },
        },
    }
}

/// `resize-window` and `resize-pane`.
pub open spec fn resize(v: ServerView, args: Seq<Seq<char>>) -> Outcome {
    match args_of(args, "t:x:y:"@) {
        Err(e) => refused(v, e),
        Ok(a) => match target_or_active(v, a) {
            None => refused(v, "can't find pane"@),
            Some(uid) => {
                let p = v.pane(uid)->0;
                let cols = match a.value('x') {
                    Some(x) => match parse_number(x, 10, 0xffff) {
                        Some(n) => Some(n as u16),
                        None => None,
                    },
                    None => Some(p.width()),
                };
                let rows = match a.value('y') {
                    Some(y) => match parse_number(y, 10, 0xffff) {
                        Some(n) => Some(n as u16),
                        None => None,
                    },
                    None => Some(p.height()),
                };
                if cols is None {
                    refused(v, about("bad width '"@, a.value('x')->0))
                } else if rows is None {
                    refused(v, about("bad height '"@, a.value('y')->0))
                } else {
                    Outcome {
                        state: v,
                        actions: if v.policy == ResizePolicy::Request {
                            seq![ActionView::Resize { uid, cols: cols->0, rows: rows->0 }]
                        } else {
                            Seq::empty()
                        },
                        body: silent(),
                    }
                }
            },
        },
    }
}

fn parse_dims(dims: &[char]) -> (r: Option<(u16, u16)>)
    ensures
        r == parse_size(dims@),
{
    let k: usize = find_either_char(dims, ',', 'x');
    if k == dims.len() {
        return None;
    }
    let first = slice_subrange(dims, 0, k);
    let second = slice_subrange(dims, k + 1, dims.len());
    assert(first@ =~= dims@.take(k as int));
    assert(second@ =~= dims@.skip(k + 1));
    match (parse_uint(trimmed(first), 10, 0xffff), parse_uint(trimmed(second), 10, 0xffff)) {
        (Some(w), Some(h)) => Some((w as u16, h as u16)),
        _ => None,
    }
}

/// A `u16` given as the value of a flag.
fn parse_u16(s: &str) -> (r: Option<u16>)
    ensures
        match r {
            Some(n) => parse_number(s@, 10, 0xffff) == Some(n as nat),
            None => parse_number(s@, 10, 0xffff) is None,
        },
{
    let chars = chars_of(s);
    match parse_uint(chars.as_slice(), 10, 0xffff) {
        Some(n) => Some(n as u16),
        None => None,
    }
}

/// No lines.
fn no_lines() -> (r: Result<Vec<String>, String>)
    ensures
        is_body(r, silent()),
{
    let r: Vec<String> = Vec::new();
    assert(views(r@) =~= Seq::<Seq<char>>::empty());
    Ok(r)
}

impl ServerState {
    fn cmd_refresh_client(&mut self, args: &[String], actions: &mut Vec<Action>) -> (r: Result<
        Vec<String>,
        String,
    >)
        requires
            old(self).wf(),
        ensures
            final(self).wf(),
            ({
                let o = refresh_client(old(self)@, views(args@));
                is_body(r, o.body) && final(self)@ == o.state && action_views(final(actions)@)
                    == action_views(old(actions)@) + o.actions
            }),
    {
        let ghost v = self@;
        proof {
            lemma_no_actions(action_views(actions@));
        }
        let a = match Args::parse(args, "C:f:A:B:t:") {
            Ok(a) => a,
            Err(e) => {
                return Err(e);
            },
        };
        let c = match a.value('C') {
            Some(c) => c,
            None => {
                return no_lines();
            },
        };
        let chars = chars_of(c);
        let k: usize = find_char(chars.as_slice(), ':');
        let names = k < chars.len() && chars[0] == '@';
        let start: usize = if names {
            k + 1
        } else {
            0
        };
        let dims = slice_subrange(chars.as_slice(), start, chars.len());
        assert(names ==> dims@ =~= c@.skip(k + 1));
        assert(!names ==> dims@ =~= c@);
        let (w, h) = match parse_dims(dims) {
            Some(d) => d,
            None => {
                return Err(about_word("bad size '", c));
            },
        };
        self.client_size = (w, h);
        assert(self@ =~= (ServerView { client_size: (w, h), ..v }));
        if self.policy == ResizePolicy::Request {
            let one = if names {
                let target = slice_subrange(chars.as_slice(), 0, k);
                assert(target@ =~= c@.take(k as int));
                let t = string_of(target);
                assert(self@.uids() == v.uids());
                self.resolve_target(t.as_str())
            } else {
                None
            };
            let uids = self.one_or_all(one);
            let ghost before = action_views(actions@);
            let mut i: usize = 0;
            assert(before =~= before + resize_each(views(uids@).take(0), w, h));
            while i < uids.len()
                invariant
                    i <= uids@.len(),
                    action_views(actions@) == before + resize_each(
                        views(uids@).take(i as int),
                        w,
                        h,
                    ),
                decreases uids.len() - i,
            {
                add_action(actions, Action::Resize { uid: uids[i].clone(), cols: w, rows: h });
                assert(action_views(actions@) =~= before + resize_each(
                    views(uids@).take(i + 1),
                    w,
                    h,
                ));
                i = i + 1;
            }
            assert(views(uids@).take(i as int) =~= views(uids@));
        }
        no_lines()
    }

    fn cmd_resize(&self, args: &[String], actions: &mut Vec<Action>) -> (r: Result<
        Vec<String>,
        String,
    >)
        requires
            self.wf(),
        ensures
            ({
                let o = resize(self@, views(args@));
                is_body(r, o.body) && o.state == self@ && action_views(final(actions)@)
                    == action_views(old(actions)@) + o.actions
            }),
    {
        proof {
            lemma_no_actions(action_views(actions@));
        }
        let a = match Args::parse(args, "t:x:y:") {
            Ok(a) => a,
            Err(e) => {
                return Err(e);
            },
        };
        let uid = match self.target_or_active(&a) {
            Some(u) => u,
            None => {
                return Err(owned("can't find pane"));
            },
        };
        let i: usize = match self.find_pane(uid.as_str()) {
            Some(i) => i,
            None => {
                return Err(owned("can't find pane"));
            },
        };
        assert(self@.panes[i as int] == self.panes@[i as int]@);
        let cols: u16 = match a.value('x') {
            Some(x) => match parse_u16(x) {
                Some(n) => n,
                None => {
                    return Err(about_word("bad width '", x));
                },
            },
            None => self.panes[i].width(),
        };
        let rows: u16 = match a.value('y') {
            Some(y) => match parse_u16(y) {
                Some(n) => n,
                None => {
                    return Err(about_word("bad height '", y));
                },
            },
            None => self.panes[i].height(),
        };
        if self.policy == ResizePolicy::Request {
            add_action(actions, Action::Resize { uid, cols, rows });
        }
        no_lines()
    }
}

// ---------------------------------------------------------------------------
// Screens and selection
// ---------------------------------------------------------------------------

/// The lines of a screen, without the white space they end with.
pub open spec fn screen_lines(s: Seq<char>) -> Seq<Seq<char>> {
    Seq::new(lines(s).len(), |i: int| trim_end(lines(s)[i]))
}

/// `capture-pane`: the screen mirror of the pane. Under `-P`, which asks for
/// output not sent yet, there is never any.
pub open spec fn capture_pane(v: ServerView, args: Seq<Seq<char>>) -> Body {
    match args_of(args, "t:S:E:b:"@) {
        Err(e) => Err(e),
        Ok(a) => match target_or_active(v, a) {
            None => Err("can't find pane"@),
            Some(uid) => if a.flags.contains('P') {
                silent()
            } else {
                match v.pane(uid)->0.screen {
                    Some(s) => Ok(screen_lines(s)),
                    None => silent(),
                }
            },
        },
    }
}

/// The notifications of a newly selected pane.
pub open spec fn selected_notes(v: ServerView, uid: Seq<char>) -> Seq<Seq<u8>> {
    match (v.window_id(uid), v.pane_id(uid)) {
        (Some(w), Some(p)) => seq![
            encode_utf8(
                "%session-window-changed $"@ + dec(SESSION_ID as nat) + " @"@ + dec(w as nat),
            ),
            encode_utf8("%window-pane-changed @"@ + dec(w as nat) + " %"@ + dec(p as nat)),
        ],
        _ => Seq::empty(),
    }
}

/// `select-pane` and `select-window`: the target becomes the active pane, and
/// where it was not, two notifications wait for the block to close.
pub open spec fn select(v: ServerView, args: Seq<Seq<char>>) -> Outcome {
    match args_of(args, "t:"@) {
        Err(e) => refused(v, e),
        Ok(a) => {
            let target = match a.value('t') {
                Some(t) => v.resolve(t),
                None => None,
            };
            match target {
                None => refused(v, "can't find pane"@),
                Some(uid) => if v.active == Some(uid) {
                    answers(v, silent())
                } else {
                    answers(
                        ServerView {
                            active: Some(uid),
                            deferred: v.deferred + selected_notes(v, uid),
                            ..v
                        },
                        silent(),
                    )
                },
            }
        },
    }
}

impl ServerState {
    fn cmd_capture_pane(&self, args: &[String]) -> (r: Result<Vec<String>, String>)
        requires
            self.wf(),
        ensures
            is_body(r, capture_pane(self@, views(args@))),
    {
        let a = match Args::parse(args, "t:S:E:b:") {
            Ok(a) => a,
            Err(e) => {
                return Err(e);
            },
        };
        let uid = match self.target_or_active(&a) {
            Some(u) => u,
            None => {
                return Err(owned("can't find pane"));
            },
        };
        if a.flag('P') {
            return no_lines();
        }
        let i: usize = match self.find_pane(uid.as_str()) {
            Some(i) => i,
            None => {
                return no_lines();
            },
        };
        assert(self@.panes[i as int] == self.panes@[i as int]@);
        let screen = match &self.panes[i].screen {
            Some(s) => s,
            None => {
                return no_lines();
            },
        };
        let chars = chars_of(screen.as_str());
        let all = lines_of(chars.as_slice());
        let mut out: Vec<String> = Vec::new();
        let mut k: usize = 0;
        while k < all.len()
            invariant
                k <= all@.len(),
                out@.len() == k,
                forall|j: int| 0 <= j < k ==> (#[trigger] out@[j])@ == trim_end(all@[j]@),
            decreases all.len() - k,
        {
            out.push(string_of(trimmed_end(all[k].as_slice())));
            k = k + 1;
        }
        assert(views(out@) =~= screen_lines(screen@));
        Ok(out)
    }

    fn cmd_select(&mut self, args: &[String]) -> (r: Result<Vec<String>, String>)
        requires
            old(self).wf(),
        ensures
            final(self).wf(),
            ({
                let o = select(old(self)@, views(args@));
                is_body(r, o.body) && final(self)@ == o.state && o.actions == Seq::<
                    ActionView,
                >::empty()
            }),
    {
        let ghost v = self@;
        let a = match Args::parse(args, "t:") {
            Ok(a) => a,
            Err(e) => {
                return Err(e);
            },
        };
        let target = match a.value('t') {
            Some(t) => self.resolve_target(t),
            None => None,
        };
        let uid = match target {
            Some(u) => u,
            None => {
                return Err(owned("can't find pane"));
            },
        };
        if opt_is(&self.active, uid.as_str()) {
            return no_lines();
        }
        proof {
            lemma_published(v, uid@);
        }
        let window = self.ids.window_id(uid.as_str());
        let pane = self.ids.pane_id(uid.as_str());
        let ghost u = uid@;
        self.active = Some(uid);
        if let (Some(w), Some(p)) = (window, pane) {
            let mut first = tagged("%session-window-changed $", SESSION_ID);
            first.append(" @");
            first.append(decimal(w as u64).as_str());
            let mut second = tagged("%window-pane-changed @", w);
            second.append(" %");
            second.append(decimal(p as u64).as_str());
            self.deferred.push(bytes_of(first.as_str()));
            self.deferred.push(bytes_of(second.as_str()));
        }
        assert(self@.deferred =~= v.deferred + selected_notes(v, u));
        assert(self@ =~= (ServerView {
            active: Some(u),
            deferred: v.deferred + selected_notes(v, u),
            ..v
        }));
        no_lines()
    }
}

// ---------------------------------------------------------------------------
// Options
// ---------------------------------------------------------------------------

/// Which option store a `set` or `show` addresses, as a key.
pub open spec fn option_scope(v: ServerView, a: ArgsView) -> Seq<char> {
    let pane = a.flags.contains('p');
    let window = a.flags.contains('w');
    if a.flags.contains('s') {
        "server"@
    } else if a.flags.contains('g') {
        if pane {
            "global-pane"@
        } else if window {
            "global-window"@
        } else {
            "global"@
        }
    } else if pane || window {
        let tier = if pane {
            "pane"@
        } else {
            "window"@
        };
        let target = match a.value('t') {
            Some(t) => v.resolve(t),
            None => None,
        };
        match target {
            Some(uid) => tier + ":"@ + uid,
            None => "global-"@ + tier,
        }
    } else {
        "$"@ + dec(SESSION_ID as nat)
    }
}

/// The arguments of an option command; the window spellings imply `-w`.
pub open spec fn option_args(args: Seq<Seq<char>>, window_scope: bool) -> Result<
    ArgsView,
    Seq<char>,
> {
    match args_of(args, "t:"@) {
        Err(e) => Err(e),
        Ok(a) => Ok(
            if window_scope {
                a.with_flag('w')
            } else {
                a
            },
        ),
    }
}

/// Why an option that is no user option is refused.
pub const NO_SUCH_STORE: &'static str =
    " is not supported by hyperpanes control mode: only user options (@name) are stored — hyperpanes has no tmux option store behind the rest";

/// `set-option`: sets, appends to or unsets a user option.
pub open spec fn set_option(v: ServerView, args: Seq<Seq<char>>, window_scope: bool) -> Outcome {
    match option_args(args, window_scope) {
        Err(e) => refused(v, e),
        Ok(a) => if a.positionals.len() == 0 {
            refused(v, "set-option: not enough arguments"@)
        } else {
            let name = a.positionals[0];
            let scope = option_scope(v, a);
            let given = if a.positionals.len() > 1 {
                a.positionals[1]
            } else {
                Seq::empty()
            };
            let kept = match option_get(v.options, scope, name) {
                Some(k) => k,
                None => Seq::empty(),
            };
            if !(name.len() > 0 && name[0] == '@') {
                refused(v, name + NO_SUCH_STORE@)
            } else if a.flags.contains('u') || a.flags.contains('U') {
                answers(
                    ServerView { options: option_remove(v.options, scope, name), ..v },
                    silent(),
                )
            } else {
                let value = if a.flags.contains('a') {
                    kept + given
                } else {
                    given
                };
                answers(
                    ServerView { options: option_put(v.options, scope, name, value), ..v },
                    silent(),
                )
            }
        },
    }
}

/// How an option is shown: its value alone, or its name and its value.
pub open spec fn shown(name: Seq<char>, value: Seq<char>, value_only: bool) -> Seq<char> {
    if value_only {
        value
    } else {
        name + " "@ + quote_value(value)
    }
}

/// The options of `scope` as they are shown.
pub open spec fn shown_in(s: Seq<OptionView>, scope: Seq<char>, value_only: bool) -> Seq<Seq<char>>
    decreases s.len(),
{
    if s.len() == 0 {
        Seq::empty()
    } else if s[0].scope == scope {
        seq![shown(s[0].name, s[0].value, value_only)] + shown_in(s.skip(1), scope, value_only)
    } else {
        shown_in(s.skip(1), scope, value_only)
    }
}

/// `show-options`: one option, or all of a scope. An unset one is an error
/// unless `-q` or `-v` is given.
pub open spec fn show_options(v: ServerView, args: Seq<Seq<char>>, window_scope: bool) -> Body {
    match option_args(args, window_scope) {
        Err(e) => Err(e),
        Ok(a) => {
            let scope = option_scope(v, a);
            let value_only = a.flags.contains('v');
            if a.positionals.len() == 0 {
                Ok(shown_in(v.options, scope, value_only))
            } else {
                let name = a.positionals[0];
                match option_get(v.options, scope, name) {
                    Some(value) => Ok(seq![shown(name, value, value_only)]),
                    None => if a.flags.contains('q') || value_only {
                        silent()
                    } else {
                        Err("unknown option: "@ + name)
                    },
                }
            }
        },
    }
}

/// `has-session`: whether the target is the session, by its number, or names a
/// pane of it.
pub open spec fn has_session(v: ServerView, args: Seq<Seq<char>>) -> Body {
    match args_of(args, "t:"@) {
        Err(e) => Err(e),
        Ok(a) => match a.value('t') {
            None => silent(),
            Some(t) => if parse_number(trim_start_char(t, '$'), 10, u32::MAX as nat) == Some(
                SESSION_ID as nat,
            ) || v.resolve(t) is Some {
                silent()
            } else {
                Err("can't find session: "@ + t)
            },
        },
    }
}

fn shown_option(name: &str, value: &str, value_only: bool) -> (r: String)
    ensures
        r@ == shown(name@, value@, value_only),
{
    if value_only {
        owned(value)
    } else {
        let mut s = owned(name);
        s.append(" ");
        s.append(quote_option_value(value).as_str());
        s
    }
}

fn parse_option_args(args: &[String], window_scope: bool) -> (r: Result<Args, String>)
    ensures
        match r {
            Ok(a) => option_args(views(args@), window_scope) == Ok::<ArgsView, Seq<char>>(a@),
            Err(e) => option_args(views(args@), window_scope) == Err::<ArgsView, Seq<char>>(e@),
        },
{
    match Args::parse(args, "t:") {
        Ok(mut a) => {
            if window_scope {
                a.set_flag('w');
            }
            Ok(a)
        },
        Err(e) => Err(e),
    }
}

impl ServerState {
    fn option_scope(&self, a: &Args) -> (r: String)
        requires
            self.wf(),
        ensures
            r@ == option_scope(self@, a@),
    {
        if a.flag('s') {
            return owned("server");
        }
        let pane = a.flag('p');
        let window = a.flag('w');
        if a.flag('g') {
            return if pane {
                owned("global-pane")
            } else if window {
                owned("global-window")
            } else {
                owned("global")
            };
        }
        if pane || window {
            let tier = if pane {
                "pane"
            } else {
                "window"
            };
            let target = match a.value('t') {
                Some(t) => self.resolve_target(t),
                None => None,
            };
            return match target {
                Some(uid) => {
                    let mut s = owned(tier);
                    s.append(":");
                    s.append(uid.as_str());
                    s
                },
                None => {
                    let mut s = owned("global-");
                    s.append(tier);
                    s
                },
            };
        }
        tagged("$", SESSION_ID)
    }

    fn cmd_set_option(&mut self, args: &[String], window_scope: bool) -> (r: Result<
        Vec<String>,
        String,
    >)
        requires
            old(self).wf(),
        ensures
            final(self).wf(),
            ({
                let o = set_option(old(self)@, views(args@), window_scope);
                is_body(r, o.body) && final(self)@ == o.state && o.actions == Seq::<
                    ActionView,
                >::empty()
            }),
    {
        let ghost v = self@;
        let a = match parse_option_args(args, window_scope) {
            Ok(a) => a,
            Err(e) => {
                return Err(e);
            },
        };
        if a.positionals.len() == 0 {
            return Err(owned("set-option: not enough arguments"));
        }
        let name = a.positionals[0].clone();
        let chars = chars_of(name.as_str());
        if chars.len() == 0 || chars[0] != '@' {
            let mut e = name;
            e.append(NO_SUCH_STORE);
            return Err(e);
        }
        let scope = self.option_scope(&a);
        if a.flag('u') || a.flag('U') {
            self.options.remove(scope.as_str(), name.as_str());
            proof {
                law_options_stay_ordered(v.options, scope@, name@, Seq::empty());
                assert(self@ =~= (ServerView {
                    options: option_remove(v.options, scope@, name@),
                    ..v
                }));
            }
            return no_lines();
        }
        let given = if a.positionals.len() > 1 {
            a.positionals[1].clone()
        } else {
            String::new()
        };
        let value = if a.flag('a') {
            let mut kept = match self.options.get(scope.as_str(), name.as_str()) {
                Some(k) => owned(k),
                None => String::new(),
            };
            kept.append(given.as_str());
            kept
        } else {
            given
        };
        let ghost g = value@;
        self.options.put(scope.as_str(), name.as_str(), value);
        proof {
            law_options_stay_ordered(v.options, scope@, name@, g);
            assert(self@ =~= (ServerView {
                options: option_put(v.options, scope@, name@, g),
                ..v
            }));
        }
        no_lines()
    }

    fn cmd_show_options(&self, args: &[String], window_scope: bool) -> (r: Result<
        Vec<String>,
        String,
    >)
        requires
            self.wf(),
        ensures
            is_body(r, show_options(self@, views(args@), window_scope)),
    {
        let a = match parse_option_args(args, window_scope) {
            Ok(a) => a,
            Err(e) => {
                return Err(e);
            },
        };
        let scope = self.option_scope(&a);
        let value_only = a.flag('v');
        if a.positionals.len() == 0 {
            let ghost all = self.options@;
            let mut out: Vec<String> = Vec::new();
            let mut i: usize = 0;
            proof {
                assert(all.skip(0) =~= all);
                assert(views(out@) + shown_in(all, scope@, value_only) =~= shown_in(
                    all,
                    scope@,
                    value_only,
                ));
            }
            while i < self.options.entries.len()
                invariant
                    i <= self.options.entries@.len(),
                    all == self.options@,
                    shown_in(all, scope@, value_only) == views(out@) + shown_in(
                        all.skip(i as int),
                        scope@,
                        value_only,
                    ),
                decreases self.options.entries.len() - i,
            {
                let e = &self.options.entries[i];
                let ghost before = views(out@);
                let ghost tail = all.skip(i as int);
                assert(tail[0] == e@);
                assert(tail.skip(1) =~= all.skip(i + 1));
                if same(e.scope.as_str(), scope.as_str()) {
                    out.push(shown_option(e.name.as_str(), e.value.as_str(), value_only));
                    assert(views(out@) =~= before + seq![shown(e.name@, e.value@, value_only)]);
                    assert(before + (seq![shown(e.name@, e.value@, value_only)] + shown_in(
                        tail.skip(1),
                        scope@,
                        value_only,
                    )) =~= views(out@) + shown_in(tail.skip(1), scope@, value_only));
                }
                i = i + 1;
            }
            assert(views(out@) + Seq::<Seq<char>>::empty() =~= views(out@));
            return Ok(out);
        }
        let name = a.positionals[0].as_str();
        match self.options.get(scope.as_str(), name) {
            Some(value) => {
                let line = shown_option(name, value, value_only);
                let ghost g = line@;
                let r = vec![line];
                assert(views(r@) =~= seq![g]);
                Ok(r)
            },
            None => {
                if a.flag('q') || value_only {
                    no_lines()
                } else {
                    let mut e = owned("unknown option: ");
                    e.append(name);
                    Err(e)
                }
            },
        }
    }

    fn cmd_has_session(&self, args: &[String]) -> (r: Result<Vec<String>, String>)
        requires
            self.wf(),
        ensures
            is_body(r, has_session(self@, views(args@))),
    {
        let a = match Args::parse(args, "t:") {
            Ok(a) => a,
            Err(e) => {
                return Err(e);
            },
        };
        let t = match a.value('t') {
            Some(t) => t,
            None => {
                return no_lines();
            },
        };
        let chars = chars_of(t);
        let number = parse_uint(trimmed_start_char(chars.as_slice(), '$'), 10, u32::MAX as u64);
        if number == Some(SESSION_ID as u64) || self.resolve_target(t).is_some() {
            no_lines()
        } else {
            let mut e = owned("can't find session: ");
            e.append(t);
            Err(e)
        }
    }
}

// ---------------------------------------------------------------------------
// Dispatch
// ---------------------------------------------------------------------------

/// Whether a command would create, destroy or rearrange panes or windows. Pane
/// and window lifetime is not the client's to change, so these are refused.
pub open spec fn changes_lifetime(name: Seq<char>) -> bool {
    ||| name == "kill-pane"@
    ||| name == "killp"@
    ||| name == "kill-window"@
    ||| name == "killw"@
    ||| name == "kill-session"@
    ||| name == "kill-server"@
    ||| name == "new-window"@
    ||| name == "neww"@
    ||| name == "new-session"@
    ||| name == "new"@
    ||| name == "split-window"@
    ||| name == "splitw"@
    ||| name == "break-pane"@
    ||| name == "breakp"@
    ||| name == "join-pane"@
    ||| name == "joinp"@
    ||| name == "move-window"@
    ||| name == "movew"@
    ||| name == "swap-pane"@
    ||| name == "swapp"@
    ||| name == "swap-window"@
    ||| name == "swapw"@
    ||| name == "link-window"@
    ||| name == "linkw"@
    ||| name == "unlink-window"@
    ||| name == "unlinkw"@
    ||| name == "respawn-pane"@
    ||| name == "respawnp"@
    ||| name == "respawn-window"@
    ||| name == "rename-window"@
    ||| name == "renamew"@
    ||| name == "rename-session"@
    ||| name == "rename"@
}

/// Why a command that would change lifetimes is refused.
pub const NOT_OURS: &'static str =
    " is not supported by hyperpanes control mode: pane and window lifetime is owned by the hyperpanes app, not by the control client";

/// What the command `name` with `args` does. A command that is not known is
/// refused.
#[verifier::opaque]
pub open spec fn run(v: ServerView, name: Seq<char>, args: Seq<Seq<char>>) -> Outcome {
    if name == "list-sessions"@ || name == "ls"@ {
        answers(v, list_sessions(v, args))
    } else if name == "list-windows"@ || name == "lsw"@ {
        answers(v, list_windows(v, args))
    } else if name == "list-panes"@ || name == "lsp"@ {
        answers(v, list_panes(v, args))
    } else if name == "list-clients"@ || name == "lsc"@ {
        answers(v, list_clients(v, args))
    } else if name == "display-message"@ || name == "display"@ || name == "displayp"@ {
        answers(v, display_message(v, args))
    } else if name == "send-keys"@ || name == "send"@ {
        send_keys(v, args)
    } else if name == "refresh-client"@ || name == "refresh"@ {
        refresh_client(v, args)
    } else if name == "resize-window"@ || name == "resizew"@ || name == "resize-pane"@ || name
        == "resizep"@ {
        resize(v, args)
    } else if name == "capture-pane"@ || name == "capturep"@ {
        answers(v, capture_pane(v, args))
    } else if name == "select-pane"@ || name == "selectp"@ || name == "select-window"@ || name
        == "selectw"@ {
        select(v, args)
    } else if name == "show-options"@ || name == "show"@ {
        answers(v, show_options(v, args, false))
    } else if name == "show-window-options"@ || name == "showw"@ {
        answers(v, show_options(v, args, true))
    } else if name == "set-option"@ || name == "set"@ {
        set_option(v, args, false)
    } else if name == "set-window-option"@ || name == "setw"@ {
        set_option(v, args, true)
    } else if name == "has-session"@ || name == "has"@ {
        answers(v, has_session(v, args))
    } else if name == "detach-client"@ || name == "detach"@ {
        Outcome { state: v, actions: seq![ActionView::Detach], body: silent() }
    } else if changes_lifetime(name) {
        refused(v, name + NOT_OURS@)
    } else {
        refused(v, "parse error: unknown command: "@ + name)
    }
}

fn would_change_lifetime(name: &str) -> (r: bool)
    ensures
        r == changes_lifetime(name@),
{
    same(name, "kill-pane") || same(name, "killp") || same(name, "kill-window") ||
        same(name, "killw") || same(name, "kill-session") || same(name, "kill-server") ||
        same(name, "new-window") || same(name, "neww") || same(name, "new-session") ||
        same(name, "new") || same(name, "split-window") || same(name, "splitw") || same(name,
        "break-pane") || same(name, "breakp") || same(name, "join-pane") || same(name, "joinp")
        || same(name, "move-window") || same(name, "movew") || same(name, "swap-pane") ||
        same(name, "swapp") || same(name, "swap-window") || same(name, "swapw") || same(name,
        "link-window") || same(name, "linkw") || same(name, "unlink-window") || same(name,
        "unlinkw") || same(name, "respawn-pane") || same(name, "respawnp") || same(name,
        "respawn-window") || same(name, "rename-window") || same(name, "renamew") || same(name,
        "rename-session") || same(name, "rename")
}

impl ServerState {
    /// Runs one parsed command. `Ok` closes its block with `%end`, `Err` with
    /// `%error`.
    pub fn dispatch(&mut self, words: &Vec<String>, actions: &mut Vec<Action>) -> (r: Result<
        Vec<String>,
        String,
    >)
        requires
            old(self).wf(),
            words@.len() > 0,
        ensures
            final(self).wf(),
            ({
                let o = run(old(self)@, views(words@)[0], views(words@).skip(1));
                is_body(r, o.body) && final(self)@ == o.state && action_views(final(actions)@)
                    == action_views(old(actions)@) + o.actions
            }),
    {
        proof {
            reveal(run);
            lemma_no_actions(action_views(actions@));
        }
        let name = words[0].as_str();
        let args = slice_subrange(words.as_slice(), 1, words.len());
        assert(views(args@) =~= views(words@).skip(1));
        if same(name, "list-sessions") || same(name, "ls") {
            self.cmd_list_sessions(args)
        } else if same(name, "list-windows") || same(name, "lsw") {
            self.cmd_list_windows(args)
        } else if same(name, "list-panes") || same(name, "lsp") {
            self.cmd_list_panes(args)
        } else if same(name, "list-clients") || same(name, "lsc") {
            self.cmd_list_clients(args)
        } else if same(name, "display-message") || same(name, "display") || same(name, "displayp") {
            self.cmd_display_message(args)
        } else if same(name, "send-keys") || same(name, "send") {
            self.cmd_send_keys(args, actions)
        } else if same(name, "refresh-client") || same(name, "refresh") {
            self.cmd_refresh_client(args, actions)
        } else if same(name, "resize-window") || same(name, "resizew") || same(
            name,
            "resize-pane",
        ) || same(name, "resizep") {
            self.cmd_resize(args, actions)
        } else if same(name, "capture-pane") || same(name, "capturep") {
            self.cmd_capture_pane(args)
        } else if same(name, "select-pane") || same(name, "selectp") || same(name, "select-window")
            || same(name, "selectw") {
            self.cmd_select(args)
        } else if same(name, "show-options") || same(name, "show") {
            self.cmd_show_options(args, false)
        } else if same(name, "show-window-options") || same(name, "showw") {
            self.cmd_show_options(args, true)
        } else if same(name, "set-option") || same(name, "set") {
            self.cmd_set_option(args, false)
        } else if same(name, "set-window-option") || same(name, "setw") {
            self.cmd_set_option(args, true)
        } else if same(name, "has-session") || same(name, "has") {
            self.cmd_has_session(args)
        } else if same(name, "detach-client") || same(name, "detach") {
            add_action(actions, Action::Detach);
            no_lines()
        } else if would_change_lifetime(name) {
            let mut e = owned(name);
            e.append(NOT_OURS);
            Err(e)
        } else {
            let mut e = owned("parse error: unknown command: ");
            e.append(name);
            Err(e)
        }
    }
}

} // verus!
