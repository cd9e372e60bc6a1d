//! Expansion of tmux `-F` format templates.

use crate::session::control_mode::pane::PaneInfo;
use crate::session::control_mode::state::{lemma_published, ServerState, ServerView, SESSION_ID};
use crate::text::{chars_of, copied, dec, decimal, find, find_char, lemma_find, opt_is, opt_view,
    owned, same, string_of, trim, trimmed};
use vstd::prelude::*;
use vstd::slice::*;
use vstd::string::*;
use vstd::utf8::*;

verus! {

/// The tmux version we claim to be. Clients choose what they send by it.
pub const CLAIMED_VERSION: &'static str = "3.2";

/// The index of the `}` that closes the braces open at `i`, `depth` of them.
pub open spec fn brace_from(s: Seq<char>, i: int, depth: nat) -> Option<int>
    decreases s.len() - i,
{
    if i >= s.len() {
        None
    } else if s[i] == '{' {
        brace_from(s, i + 1, depth + 1)
    } else if s[i] == '}' {
        if depth <= 1 {
            Some(i)
        } else {
            brace_from(s, i + 1, (depth - 1) as nat)
        }
    } else {
        brace_from(s, i + 1, depth)
    }
}

/// A closing brace lies behind where the search began.
pub proof fn lemma_brace(s: Seq<char>, i: int, depth: nat)
    requires
        0 <= i,
    ensures
        brace_from(s, i, depth) matches Some(k) ==> i <= k < s.len() && s[k] == '}',
    decreases s.len() - i,
{
    if i < s.len() {
        if s[i] == '{' {
            lemma_brace(s, i + 1, depth + 1);
        } else if s[i] == '}' {
            if depth > 1 {
                lemma_brace(s, i + 1, (depth - 1) as nat);
            }
        } else {
            lemma_brace(s, i + 1, depth);
        }
    }
}

/// The index of the first comma of `s` that is in no brace, or the length of
/// `s`; `depth` braces are open before it.
pub open spec fn top_comma(s: Seq<char>, depth: nat) -> int
    decreases s.len(),
{
    if s.len() == 0 || (s[0] == ',' && depth == 0) {
        0
    } else if s[0] == '{' {
        1 + top_comma(s.skip(1), depth + 1)
    } else if s[0] == '}' && depth > 0 {
        1 + top_comma(s.skip(1), (depth - 1) as nat)
    } else {
        1 + top_comma(s.skip(1), depth)
    }
}

/// A top-level comma lies in the text.
pub proof fn lemma_top_comma(s: Seq<char>, depth: nat)
    ensures
        0 <= top_comma(s, depth) <= s.len(),
    decreases s.len(),
{
    if s.len() == 0 || (s[0] == ',' && depth == 0) {
    } else if s[0] == '{' {
        lemma_top_comma(s.skip(1), depth + 1);
    } else if s[0] == '}' && depth > 0 {
        lemma_top_comma(s.skip(1), (depth - 1) as nat);
    } else {
        lemma_top_comma(s.skip(1), depth);
    }
}

/// The parts of `s` between the commas that are in no brace.
pub open spec fn comma_parts(s: Seq<char>) -> Seq<Seq<char>>
    decreases s.len(),
{
    let k = top_comma(s, 0);
    proof {
        lemma_top_comma(s, 0);
    }
    if k < s.len() {
        seq![s.take(k)] + comma_parts(s.skip(k + 1))
    } else {
        seq![s]
    }
}

/// There is a part, and none is longer than the text.
pub proof fn lemma_comma_parts(s: Seq<char>)
    ensures
        comma_parts(s).len() >= 1,
        forall|i: int|
            0 <= i < comma_parts(s).len() ==> (#[trigger] comma_parts(s)[i]).len() <= s.len(),
    decreases s.len(),
{
    let k = top_comma(s, 0);
    lemma_top_comma(s, 0);
    if k < s.len() {
        lemma_comma_parts(s.skip(k + 1));
        assert forall|i: int| 0 <= i < comma_parts(s).len() implies (#[trigger] comma_parts(
            s,
        )[i]).len() <= s.len() by {
            if i > 0 {
                assert(comma_parts(s)[i] == comma_parts(s.skip(k + 1))[i - 1]);
            }
        }
    }
}

/// `1` or `0`, as tmux renders a boolean.
pub open spec fn bool_text(b: bool) -> Seq<char> {
    if b {
        "1"@
    } else {
        "0"@
    }
}

/// Whether a variable is one of those that are always `0`.
pub open spec fn zero_variable(name: Seq<char>) -> bool {
    ||| name == "window_zoomed_flag"@
    ||| name == "pane_index"@
    ||| name == "pane_dead"@
    ||| name == "pane_in_mode"@
    ||| name == "pane_synchronized"@
    ||| name == "pane_pipe"@
    ||| name == "cursor_x"@
    ||| name == "cursor_y"@
    ||| name == "scroll_region_upper"@
    ||| name == "alternate_on"@
    ||| name == "alternate_saved_x"@
    ||| name == "alternate_saved_y"@
    ||| name == "insert_flag"@
    ||| name == "keypad_cursor_flag"@
    ||| name == "keypad_flag"@
    ||| name == "mouse_standard_flag"@
    ||| name == "mouse_button_flag"@
    ||| name == "mouse_any_flag"@
    ||| name == "mouse_utf8_flag"@
    ||| name == "mouse_sgr_flag"@
    ||| name == "bracket_paste_flag"@
    ||| name == "pane_key_mode"@
    ||| name == "history_size"@
    ||| name == "history_bytes"@
}

/// Whether a variable is one of those that are always `1`.
pub open spec fn one_variable(name: Seq<char>) -> bool {
    ||| name == "client_control_mode"@
    ||| name == "session_attached"@
    ||| name == "window_panes"@
    ||| name == "cursor_flag"@
    ||| name == "wrap_flag"@
}

/// What a variable of the server, the client or the session stands for.
pub open spec fn server_variable(v: ServerView, name: Seq<char>) -> Option<Seq<char>> {
    if name == "version"@ {
        Some(CLAIMED_VERSION@)
    } else if name == "pid"@ {
        Some(dec(v.pid as nat))
    } else if name == "client_name"@ {
        Some(v.client_name)
    } else if name == "client_width"@ {
        Some(dec(v.client_size.0 as nat))
    } else if name == "client_height"@ {
        Some(dec(v.client_size.1 as nat))
    } else if name == "session_id"@ {
        Some("$"@ + dec(SESSION_ID as nat))
    } else if name == "session_name"@ {
        Some(v.session_name)
    } else if name == "session_windows"@ {
        Some(dec(v.panes.len()))
    } else if name == "history_limit"@ {
        Some("2000"@)
    } else if zero_variable(name) {
        Some("0"@)
    } else if one_variable(name) {
        Some("1"@)
    } else {
        None
    }
}

/// What a variable of the window and pane `uid` stands for.
pub open spec fn pane_variable(v: ServerView, name: Seq<char>, uid: Seq<char>) -> Seq<char> {
    let p = v.pane(uid);
    if name == "window_id"@ {
        match v.window_id(uid) {
            Some(w) => "@"@ + dec(w as nat),
            None => Seq::empty(),
        }
    } else if name == "pane_id"@ {
        match v.pane_id(uid) {
            Some(i) => "%"@ + dec(i as nat),
            None => Seq::empty(),
        }
    } else if name == "window_index"@ {
        dec(v.window_index(uid))
    } else if name == "window_flags"@ || name == "window_raw_flags"@ {
        v.window_flags(uid)
    } else if name == "window_layout"@ || name == "window_visible_layout"@ {
        v.layout_for(uid)
    } else if name == "window_name"@ || name == "pane_title"@ {
        match p {
            Some(p) => p.name(),
            None => Seq::empty(),
        }
    } else if name == "window_width"@ || name == "pane_width"@ {
        match p {
            Some(p) => dec(p.width() as nat),
            None => Seq::empty(),
        }
    } else if name == "window_height"@ || name == "pane_height"@ {
        match p {
            Some(p) => dec(p.height() as nat),
            None => Seq::empty(),
        }
    } else if name == "scroll_region_lower"@ {
        match p {
            Some(p) => dec((p.height() - 1) as nat),
            None => Seq::empty(),
        }
    } else if name == "pane_current_path"@ {
        match p {
            Some(p) => match p.cwd {
                Some(c) => c,
                None => Seq::empty(),
            },
            None => Seq::empty(),
        }
    } else {
        Seq::empty()
    }
}

/// What one `#{...}` variable stands for. An unknown one stands for nothing.
pub open spec fn variable(v: ServerView, name: Seq<char>, uid: Option<Seq<char>>) -> Seq<char> {
    match server_variable(v, name) {
        Some(s) => s,
        None => if name == "window_active"@ || name == "pane_active"@ {
            bool_text(uid is Some && v.active == uid)
        } else {
            match uid {
                Some(u) => pane_variable(v, name, u),
                None => Seq::empty(),
            }
        },
    }
}

/// Whether the `#{E:...}` form applies: at most two bytes, none of them a
/// space, before the first colon.
pub open spec fn has_modifier(inner: Seq<char>) -> bool {
    let k = find(inner, ':');
    k < inner.len() && encode_utf8(inner.take(k)).len() <= 2 && !inner.take(k).contains(' ')
}

/// Whether a condition holds: it is neither empty nor `0`.
pub open spec fn truthy(s: Seq<char>) -> bool {
    s.len() > 0 && s != "0"@
}

/// What a template stands for, for the pane `uid`: literal text, `##` for `#`,
/// and `#{...}` for what is inside. An unbalanced brace stands for itself.
pub open spec fn expand(v: ServerView, t: Seq<char>, uid: Option<Seq<char>>) -> Seq<char>
    decreases t.len(),
{
    if t.len() == 0 {
        Seq::empty()
    } else if t[0] != '#' {
        seq![t[0]] + expand(v, t.skip(1), uid)
    } else if t.len() > 1 && t[1] == '#' {
        seq!['#'] + expand(v, t.skip(2), uid)
    } else if t.len() > 1 && t[1] == '{' {
        proof {
            lemma_brace(t, 1, 0);
        }
        match brace_from(t, 1, 0) {
            Some(end) => expand_var(v, t.subrange(2, end), uid) + expand(v, t.skip(end + 1), uid),
            None => t,
        }
    } else {
        seq!['#'] + expand(v, t.skip(1), uid)
    }
}

/// What the inside of `#{...}` stands for: a conditional, a template behind a
/// modifier, or a variable.
pub open spec fn expand_var(v: ServerView, inner: Seq<char>, uid: Option<Seq<char>>) -> Seq<char>
    decreases inner.len(),
{
    if inner.len() > 0 && inner[0] == '?' {
        let parts = comma_parts(inner.skip(1));
        proof {
            lemma_comma_parts(inner.skip(1));
        }
        if parts.len() < 2 {
            Seq::empty()
        } else if truthy(expand_var(v, parts[0], uid)) {
            expand(v, parts[1], uid)
        } else if parts.len() > 2 {
            expand(v, parts[2], uid)
        } else {
            Seq::empty()
        }
    } else if has_modifier(inner) {
        proof {
            lemma_find(inner, ':');
        }
        expand(v, inner.skip(find(inner, ':') + 1), uid)
    } else {
        variable(v, trim(inner), uid)
    }
}

/// Whether a variable shows the layout of a window.
pub open spec fn is_layout(name: Seq<char>) -> bool {
    name == "window_layout"@ || name == "window_visible_layout"@
}

/// Whether a pane, where one is meant, is published.
pub open spec fn is_published(v: ServerView, uid: Option<Seq<char>>) -> bool {
    uid matches Some(u) ==> v.has(u)
}

/// Whether the expansion of a template comes to the layout of a window. A
/// branch that is not taken does not count.
pub open spec fn shows_layout(v: ServerView, t: Seq<char>, uid: Option<Seq<char>>) -> bool
    decreases t.len(),
{
    if t.len() == 0 {
        false
    } else if t[0] != '#' {
        shows_layout(v, t.skip(1), uid)
    } else if t.len() > 1 && t[1] == '#' {
        shows_layout(v, t.skip(2), uid)
    } else if t.len() > 1 && t[1] == '{' {
        proof {
            lemma_brace(t, 1, 0);
        }
        match brace_from(t, 1, 0) {
            Some(end) => var_shows_layout(v, t.subrange(2, end), uid) || shows_layout(
                v,
                t.skip(end + 1),
                uid,
            ),
            None => false,
        }
    } else {
        shows_layout(v, t.skip(1), uid)
    }
}

/// Whether the inside of `#{...}` comes to the layout of a window.
pub open spec fn var_shows_layout(
    v: ServerView,
    inner: Seq<char>,
    uid: Option<Seq<char>>,
) -> bool
    decreases inner.len(),
{
    if inner.len() > 0 && inner[0] == '?' {
        let parts = comma_parts(inner.skip(1));
        proof {
            lemma_comma_parts(inner.skip(1));
        }
        parts.len() >= 2 && (var_shows_layout(v, parts[0], uid) || (if truthy(
            expand_var(v, parts[0], uid),
        ) {
            shows_layout(v, parts[1], uid)
        } else {
            parts.len() > 2 && shows_layout(v, parts[2], uid)
        }))
    } else if has_modifier(inner) {
        proof {
            lemma_find(inner, ':');
        }
        shows_layout(v, inner.skip(find(inner, ':') + 1), uid)
    } else {
        is_layout(trim(inner))
    }
}

/// The pane a format template is expanded for.
pub struct FmtCtx {
    pub uid: Option<String>,
}

/// The index of the `}` that closes the brace at `open`.
fn matching_brace(s: &[char], open: usize) -> (r: Option<usize>)
    requires
        open < s@.len(),
        s@[open as int] == '{',
    ensures
        match r {
            Some(k) => brace_from(s@, open as int, 0) == Some(k as int) && open < k < s@.len(),
            None => brace_from(s@, open as int, 0) is None,
        },
{
    let mut depth: usize = 0;
    let mut i: usize = open;
    while i < s.len()
        invariant
            open <= i <= s@.len(),
            open < s@.len(),
            s@[open as int] == '{',
            depth <= i - open,
            i > open ==> depth >= 1,
            brace_from(s@, open as int, 0) == brace_from(s@, i as int, depth as nat),
        decreases s.len() - i,
    {
        if s[i] == '{' {
            depth = depth + 1;
        } else if s[i] == '}' {
            if depth == 1 {
                return Some(i);
            }
            depth = depth - 1;
        }
        i = i + 1;
    }
    None
}

/// The parts of `s` between the commas that are in no brace.
fn split_top_level_commas(s: &[char]) -> (r: Vec<Vec<char>>)
    ensures
        r@.len() == comma_parts(s@).len(),
        forall|i: int| 0 <= i < r@.len() ==> (#[trigger] r@[i])@ == comma_parts(s@)[i],
        r@.len() >= 1,
        forall|i: int| 0 <= i < r@.len() ==> (#[trigger] r@[i])@.len() <= s@.len(),
{
    let mut out: Vec<Vec<char>> = Vec::new();
    let mut start: usize = 0;
    let mut depth: usize = 0;
    let mut i: usize = 0;
    proof {
        assert(s@.skip(0) =~= s@);
        assert(comma_parts(s@).skip(0) =~= comma_parts(s@));
        lemma_comma_parts(s@);
        lemma_top_comma(s@, 0);
    }
    while i < s.len()
        invariant
            start <= i <= s@.len(),
            depth <= i - start,
            out@.len() < comma_parts(s@).len(),
            comma_parts(s@.skip(start as int)) == comma_parts(s@).skip(out@.len() as int),
            forall|k: int| 0 <= k < out@.len() ==> (#[trigger] out@[k])@ == comma_parts(s@)[k],
            top_comma(s@.skip(start as int), 0) == (i - start) + top_comma(
                s@.skip(i as int),
                depth as nat,
            ),
        decreases s.len() - i,
    {
        let ghost tail = s@.skip(i as int);
        assert(tail[0] == s@[i as int]);
        assert(tail.skip(1) =~= s@.skip(i + 1));
        if s[i] == '{' {
            depth = depth + 1;
        } else if s[i] == '}' {
            if depth > 0 {
                depth = depth - 1;
            }
        } else if s[i] == ',' && depth == 0 {
            let part = slice_subrange(s, start, i);
            let ghost rest = s@.skip(start as int);
            let ghost done = out@.len() as int;
            out.push(copied(part));
            proof {
                assert(part@ =~= rest.take(i - start));
                assert(rest.skip(i - start + 1) =~= s@.skip(i + 1));
                assert(comma_parts(rest)[0] == part@);
                assert(comma_parts(s@).skip(done)[0] == comma_parts(s@)[done]);
                assert(comma_parts(rest).skip(1) =~= comma_parts(s@.skip(i + 1)));
                assert(comma_parts(s@).skip(done + 1) =~= comma_parts(s@).skip(done).skip(1));
                lemma_comma_parts(s@.skip(i + 1));
            }
            start = i + 1;
        }
        i = i + 1;
    }
    let part = slice_subrange(s, start, s.len());
    proof {
        let rest = s@.skip(start as int);
        let done = out@.len() as int;
        assert(part@ =~= rest);
        assert(s@.skip(i as int).len() == 0);
        assert(comma_parts(rest) =~= seq![rest]);
        assert(comma_parts(s@).skip(done)[0] == comma_parts(s@)[done]);
    }
    out.push(copied(part));
    proof {
        lemma_comma_parts(s@);
    }
    out
}

fn bool_fmt(b: bool) -> (r: String)
    ensures
        r@ == bool_text(b),
{
    if b {
        owned("1")
    } else {
        owned("0")
    }
}

fn is_zero_variable(name: &str) -> (r: bool)
    ensures
        r == zero_variable(name@),
{
    same(name, "window_zoomed_flag") || same(name, "pane_index") || same(name, "pane_dead")
        || same(name, "pane_in_mode") || same(name, "pane_synchronized") || same(name, "pane_pipe")
        || same(name, "cursor_x") || same(name, "cursor_y") || same(name, "scroll_region_upper")
        || same(name, "alternate_on") || same(name, "alternate_saved_x")
        || same(name, "alternate_saved_y") || same(name, "insert_flag")
        || same(name, "keypad_cursor_flag") || same(name, "keypad_flag")
        || same(name, "mouse_standard_flag") || same(name, "mouse_button_flag")
        || same(name, "mouse_any_flag") || same(name, "mouse_utf8_flag")
        || same(name, "mouse_sgr_flag") || same(name, "bracket_paste_flag")
        || same(name, "pane_key_mode") || same(name, "history_size") || same(name, "history_bytes")
}

fn is_one_variable(name: &str) -> (r: bool)
    ensures
        r == one_variable(name@),
{
    same(name, "client_control_mode") || same(name, "session_attached")
        || same(name, "window_panes") || same(name, "cursor_flag") || same(name, "wrap_flag")
}

/// `sign` and then the numeral of `n`.
pub fn tagged(sign: &str, n: u32) -> (r: String)
    ensures
        r@ == sign@ + dec(n as nat),
{
    let mut s = owned(sign);
    s.append(decimal(n as u64).as_str());
    s
}

impl ServerState {
    fn server_variable(&self, name: &str) -> (r: Option<String>)
        ensures
            opt_view(r) == server_variable(self@, name@),
    {
        if same(name, "version") {
            Some(owned(CLAIMED_VERSION))
        } else if same(name, "pid") {
            Some(decimal(self.pid as u64))
        } else if same(name, "client_name") {
            Some(self.client_name.clone())
        } else if same(name, "client_width") {
            Some(decimal(self.client_size.0 as u64))
        } else if same(name, "client_height") {
            Some(decimal(self.client_size.1 as u64))
        } else if same(name, "session_id") {
            Some(tagged("$", SESSION_ID))
        } else if same(name, "session_name") {
            Some(self.session_name.clone())
        } else if same(name, "session_windows") {
            Some(decimal(self.panes.len() as u64))
        } else if same(name, "history_limit") {
            Some(owned("2000"))
        } else if is_zero_variable(name) {
            Some(owned("0"))
        } else if is_one_variable(name) {
            Some(owned("1"))
        } else {
            None
        }
    }

    fn pane_variable(&self, name: &str, uid: &str) -> (r: String)
        requires
            self.wf(),
            self@.has(uid@) || !is_layout(name@),
        ensures
            r@ == pane_variable(self@, name@, uid@),
    {
        proof {
            if self@.has(uid@) {
                lemma_published(self@, uid@);
            }
        }
        let pane: Option<&PaneInfo> = match self.find_pane(uid) {
            Some(i) => {
                assert(self@.panes[i as int] == self.panes@[i as int]@);
                Some(&self.panes[i])
            },
            None => None,
        };
        assert(match pane {
            Some(p) => self@.pane(uid@) == Some(p@),
            None => self@.pane(uid@) is None,
        });
        if same(name, "window_id") {
            match self.ids.window_id(uid) {
                Some(w) => tagged("@", w),
                None => String::new(),
            }
        } else if same(name, "pane_id") {
            match self.ids.pane_id(uid) {
                Some(i) => tagged("%", i),
                None => String::new(),
            }
        } else if same(name, "window_index") {
            decimal(self.window_index(uid) as u64)
        } else if same(name, "window_flags") || same(name, "window_raw_flags") {
            self.window_flags(uid)
        } else if same(name, "window_layout") || same(name, "window_visible_layout") {
            self.layout_for(uid)
        } else if same(name, "window_name") || same(name, "pane_title") {
            match pane {
                Some(p) => p.name(),
                None => String::new(),
            }
        } else if same(name, "window_width") || same(name, "pane_width") {
            match pane {
                Some(p) => decimal(p.width() as u64),
                None => String::new(),
            }
        } else if same(name, "window_height") || same(name, "pane_height") {
            match pane {
                Some(p) => decimal(p.height() as u64),
                None => String::new(),
            }
        } else if same(name, "scroll_region_lower") {
            match pane {
                Some(p) => decimal((p.height() - 1) as u64),
                None => String::new(),
            }
        } else if same(name, "pane_current_path") {
            match pane {
                Some(p) => match &p.cwd {
                    Some(c) => c.clone(),
                    None => String::new(),
                },
                None => String::new(),
            }
        } else {
            String::new()
        }
    }

    /// One `#{...}` variable. An unknown one is empty. A layout can be shown only
    /// of a pane that is published.
    pub fn variable(&self, name: &str, ctx: &FmtCtx) -> (r: String)
        requires
            self.wf(),
            is_published(self@, opt_view(ctx.uid)) || !is_layout(name@),
        ensures
            r@ == variable(self@, name@, opt_view(ctx.uid)),
    {
        match self.server_variable(name) {
            Some(s) => s,
            None => {
                if same(name, "window_active") || same(name, "pane_active") {
                    match &ctx.uid {
                        Some(u) => bool_fmt(opt_is(&self.active, u.as_str())),
                        None => bool_fmt(false),
                    }
                } else {
                    match &ctx.uid {
                        Some(u) => self.pane_variable(name, u.as_str()),
                        None => String::new(),
                    }
                }
            },
        }
    }

    /// Expands the inside of `#{...}`.
    pub fn expand_var(&self, inner: &[char], ctx: &FmtCtx) -> (r: String)
        requires
            self.wf(),
            is_published(self@, opt_view(ctx.uid)) || !var_shows_layout(
                self@,
                inner@,
                opt_view(ctx.uid),
            ),
        ensures
            r@ == expand_var(self@, inner@, opt_view(ctx.uid)),
        decreases inner@.len(),
    {
        if inner.len() > 0 && inner[0] == '?' {
            let cond = slice_subrange(inner, 1, inner.len());
            assert(cond@ =~= inner@.skip(1));
            let parts = split_top_level_commas(cond);
            if parts.len() < 2 {
                return String::new();
            }
            let value = self.expand_var(parts[0].as_slice(), ctx);
            if !value.as_str().is_empty() && !same(value.as_str(), "0") {
                return self.expand_chars(parts[1].as_slice(), ctx);
            }
            if parts.len() > 2 {
                return self.expand_chars(parts[2].as_slice(), ctx);
            }
            return String::new();
        }
        let k: usize = find_char(inner, ':');
        if k < inner.len() {
            let prefix = slice_subrange(inner, 0, k);
            assert(prefix@ =~= inner@.take(k as int));
            let text = string_of(prefix);
            let space: usize = find_char(prefix, ' ');
            proof {
                lemma_find(prefix@, ' ');
                if prefix@.contains(' ') {
                    let m = choose|m: int| 0 <= m < prefix@.len() && prefix@[m] == ' ';
                    assert(space <= m);
                }
            }
            if text.as_str().as_bytes().len() <= 2 && space == prefix.len() {
                let rest = slice_subrange(inner, k + 1, inner.len());
                assert(rest@ =~= inner@.skip(k + 1));
                return self.expand_chars(rest, ctx);
            }
        }
        let name = string_of(trimmed(inner));
        self.variable(name.as_str(), ctx)
    }

    /// Expands a template.
    pub fn expand_chars(&self, t: &[char], ctx: &FmtCtx) -> (r: String)
        requires
            self.wf(),
            is_published(self@, opt_view(ctx.uid)) || !shows_layout(self@, t@, opt_view(ctx.uid)),
        ensures
            r@ == expand(self@, t@, opt_view(ctx.uid)),
        decreases t@.len(),
    {
        let ghost uid = opt_view(ctx.uid);
        let mut out = String::new();
        let mut i: usize = 0;
        proof {
            assert(t@.skip(0) =~= t@);
            assert(out@ + expand(self@, t@, uid) =~= expand(self@, t@, uid));
        }
        while i < t.len()
            invariant
                i <= t@.len(),
                self.wf(),
                uid == opt_view(ctx.uid),
                is_published(self@, uid) || !shows_layout(self@, t@.skip(i as int), uid),
                out@ + expand(self@, t@.skip(i as int), uid) == expand(self@, t@, uid),
            decreases t.len() - i,
        {
            let ghost rest = t@.skip(i as int);
            let ghost before = out@;
            assert(rest[0] == t@[i as int]);
            assert(rest.skip(1) =~= t@.skip(i + 1));
            if t[i] != '#' {
                out.push(t[i]);
                assert(before + (seq![t@[i as int]] + expand(self@, rest.skip(1), uid)) =~= out@
                    + expand(self@, rest.skip(1), uid));
                i = i + 1;
                continue;
            }
            if i + 1 < t.len() && t[i + 1] == '#' {
                assert(rest[1] == '#');
                assert(rest.skip(2) =~= t@.skip(i + 2));
                out.push('#');
                assert(before + (seq!['#'] + expand(self@, rest.skip(2), uid)) =~= out@ + expand(
                    self@,
                    rest.skip(2),
                    uid,
                ));
                i = i + 2;
                continue;
            }
            if i + 1 < t.len() && t[i + 1] == '{' {
                assert(rest[1] == '{');
                let tail = slice_subrange(t, i, t.len());
                assert(tail@ =~= rest);
                match matching_brace(tail, 1) {
                    Some(end) => {
                        let inner = slice_subrange(tail, 2, end);
                        assert(inner@ =~= rest.subrange(2, end as int));
                        let value = self.expand_var(inner, ctx);
                        out.append(value.as_str());
                        proof {
                            assert(rest.skip(end + 1) =~= t@.skip(i + end + 1));
                            assert(before + (value@ + expand(self@, rest.skip(end + 1), uid)) =~= out@
                                + expand(self@, rest.skip(end + 1), uid));
                        }
                        i = i + end + 1;
                        continue;
                    },
                    None => {
                        let text = string_of(tail);
                        out.append(text.as_str());
                        return out;
                    },
                }
            }
            assert(rest.len() > 1 ==> rest[1] == t@[i + 1]);
            out.push('#');
            assert(before + (seq!['#'] + expand(self@, rest.skip(1), uid)) =~= out@ + expand(
                self@,
                rest.skip(1),
                uid,
            ));
            i = i + 1;
        }
        assert(out@ + expand(self@, t@.skip(i as int), uid) =~= out@);
        out
    }

    /// Expands a tmux `-F` template.
    pub fn expand(&self, template: &str, ctx: &FmtCtx) -> (r: String)
        requires
            self.wf(),
            is_published(self@, opt_view(ctx.uid)) || !shows_layout(
                self@,
                template@,
                opt_view(ctx.uid),
            ),
        ensures
            r@ == expand(self@, template@, opt_view(ctx.uid)),
    {
        let t = chars_of(template);
        self.expand_chars(t.as_slice(), ctx)
    }
}

} // verus!
