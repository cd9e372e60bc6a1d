//! The durable environment elsewhere: what a login shell prints.
//!
//! The dump is NUL-delimited where the shell's `env` can do that, and otherwise
//! one variable per line, where a value may run over several lines.

use crate::assoc::{assoc_get, assoc_ordered, assoc_put, law_assoc_put_get, lemma_assoc_put_last,
    StrMap};
use crate::session::env::{EnvMap, EnvView};
use crate::text::{chars_of, find, find_char, is_ascii_letter, lemma_find, less, lossy,
    lossy_text, opt_view, owned, same, split_chars, split_on, string_of};
use vstd::prelude::*;
use vstd::string::*;
use vstd::utf8::*;

verus! {

/// How long a capture may take, in milliseconds.
pub const CAPTURE_TIMEOUT_MS: u64 = 3000;

/// An environment that was captured, or none.
pub open spec fn env_view(o: Option<EnvMap>) -> Option<EnvView> {
    match o {
        Some(e) => Some(e@),
        None => None,
    }
}

// ---------------------------------------------------------------------------
// The dump
// ---------------------------------------------------------------------------

/// Whether a character may stand in a variable's name.
pub open spec fn is_name_char(c: char) -> bool {
    is_ascii_letter(c) || '0' <= c <= '9' || c == '_'
}

/// Whether a string is a variable's name: letters, digits and underscores, the
/// first no digit.
pub open spec fn is_env_name(s: Seq<char>) -> bool {
    &&& s.len() > 0
    &&& !('0' <= s[0] <= '9')
    &&& forall|i: int| 0 <= i < s.len() ==> is_name_char(#[trigger] s[i])
}

/// The variable and the value of an entry `NAME=value`, where it is one.
pub open spec fn env_entry(e: Seq<char>) -> Option<(Seq<char>, Seq<char>)> {
    let k = find(e, '=');
    if k < e.len() && is_env_name(e.take(k)) {
        Some((e.take(k), e.skip(k + 1)))
    } else {
        None
    }
}

/// The environment of NUL-delimited parts: those that are entries, in turn.
pub open spec fn entries_env(parts: Seq<Seq<char>>) -> EnvView
    decreases parts.len(),
{
    if parts.len() == 0 {
        Seq::empty()
    } else {
        let before = entries_env(parts.drop_last());
        match env_entry(parts.last()) {
            Some((n, v)) => assoc_put(before, n, v),
            None => before,
        }
    }
}

/// A dump read line by line: the environment so far, and the variable that a
/// further line would continue.
#[verifier::ext_equal]
pub struct DumpState {
    pub env: EnvView,
    pub last: Option<Seq<char>>,
}

/// What a line makes of it: an entry is put in, and any other line continues the
/// last value, or is dropped where there is none yet.
pub open spec fn after_line(st: DumpState, line: Seq<char>) -> DumpState {
    match env_entry(line) {
        Some((n, v)) => DumpState { env: assoc_put(st.env, n, v), last: Some(n) },
        None => match st.last {
            Some(n) => match assoc_get(st.env, n) {
                Some(v) => DumpState { env: assoc_put(st.env, n, v + "\n"@ + line), last: st.last },
                None => st,
            },
            None => st,
        },
    }
}

/// What lines make of an empty environment.
pub open spec fn lines_state(parts: Seq<Seq<char>>) -> DumpState
    decreases parts.len(),
{
    if parts.len() == 0 {
        DumpState { env: Seq::empty(), last: None }
    } else {
        after_line(lines_state(parts.drop_last()), parts.last())
    }
}

/// The environment at the end: the newline that ends the dump is no part of the
/// last value.
pub open spec fn lines_env(st: DumpState) -> EnvView {
    match st.last {
        Some(n) => match assoc_get(st.env, n) {
            Some(v) => if v.len() > 0 && v.last() == '\n' {
                assoc_put(st.env, n, v.drop_last())
            } else {
                st.env
            },
            None => st.env,
        },
        None => st.env,
    }
}

/// The environment that a dump holds.
pub open spec fn dump_env(text: Seq<char>) -> EnvView {
    if text.contains('\0') {
        entries_env(split_on(text, '\0'))
    } else {
        lines_env(lines_state(split_on(text, '\n')))
    }
}

/// An entry as `env` prints it.
pub open spec fn entry_text(e: (Seq<char>, Seq<char>)) -> Seq<char> {
    e.0 + seq!['='] + e.1
}

/// What `env -0` prints of an environment: each entry, and a NUL behind it.
pub open spec fn nul_dump(env: EnvView) -> Seq<char>
    decreases env.len(),
{
    if env.len() == 0 {
        Seq::empty()
    } else {
        entry_text(env[0]) + seq!['\0'] + nul_dump(env.skip(1))
    }
}

/// Whether an environment is one that a process can have: its names are names,
/// and no value holds a NUL.
pub open spec fn is_environment(env: EnvView) -> bool {
    forall|i: int|
        0 <= i < env.len() ==> is_env_name((#[trigger] env[i]).0) && !env[i].1.contains('\0')
}

/// What `env -0` prints is read back as it was, newlines in the values and all.
pub proof fn law_nul_dump_reads_back(env: EnvView)
    requires
        assoc_ordered(env),
        is_environment(env),
    ensures
        dump_env(nul_dump(env)) == env,
{
    let parts = Seq::new(env.len(), |i: int| entry_text(env[i]));
    let nothing = Seq::<char>::empty();
    lemma_find(nothing, '=');
    if env.len() > 0 {
        let all = parts.push(nothing);
        lemma_nul_parts(env);
        assert(nul_dump(env)[entry_text(env[0]).len() as int] == '\0');
        assert(all.drop_last() =~= parts);
        lemma_entries_back(env);
    } else {
        let lines = split_on(nothing, '\n');
        lemma_find(nothing, '\n');
        assert(lines =~= seq![nothing]);
        assert(lines.drop_last() =~= Seq::<Seq<char>>::empty());
        assert(nul_dump(env) =~= nothing);
        let none = lines_state(lines.drop_last());
        assert(none.env.len() == 0 && none.last is None);
        assert(env_entry(lines.last()) is None);
        assert(lines_state(lines) == none);
        assert(dump_env(nothing) =~= env);
    }
}

/// A text is split at a delimiter.
pub proof fn lemma_split_first(a: Seq<char>, b: Seq<char>, c: char)
    requires
        !a.contains(c),
    ensures
        split_on(a + seq![c] + b, c) == seq![a] + split_on(b, c),
{
    let s = a + seq![c] + b;
    lemma_find(s, c);
    assert(s[a.len() as int] == c);
    if find(s, c) < a.len() {
        assert(a.contains(a[find(s, c)]));
    }
    assert(s.take(a.len() as int) =~= a);
    assert(s.skip(a.len() as int + 1) =~= b);
}

proof fn lemma_nul_parts(env: EnvView)
    requires
        is_environment(env),
    ensures
        split_on(nul_dump(env), '\0') == Seq::new(env.len(), |i: int| entry_text(env[i])).push(
            Seq::empty(),
        ),
    decreases env.len(),
{
    let parts = Seq::new(env.len(), |i: int| entry_text(env[i]));
    if env.len() > 0 {
        let t = env.skip(1);
        assert forall|i: int| 0 <= i < t.len() implies is_env_name((#[trigger] t[i]).0)
            && !t[i].1.contains('\0') by {
            assert(t[i] == env[i + 1]);
        }
        lemma_nul_parts(t);
        let e = entry_text(env[0]);
        if e.contains('\0') {
            let i = choose|i: int| 0 <= i < e.len() && e[i] == '\0';
            let n = env[0].0.len();
            if i < n {
                assert(is_name_char(env[0].0[i]));
            } else if i > n {
                assert(env[0].1[i - n - 1] == '\0');
            }
        }
        lemma_split_first(e, nul_dump(t), '\0');
        assert(seq![e] + Seq::new(t.len(), |i: int| entry_text(t[i])).push(Seq::empty())
            =~= parts.push(Seq::empty()));
    } else {
        lemma_find(nul_dump(env), '\0');
        assert(seq![nul_dump(env)] =~= parts.push(Seq::empty()));
    }
}

/// An entry that is printed is read back.
pub proof fn lemma_entry_back(e: (Seq<char>, Seq<char>))
    requires
        is_env_name(e.0),
    ensures
        env_entry(entry_text(e)) == Some(e),
{
    let t = entry_text(e);
    let n = e.0.len();
    lemma_find(t, '=');
    assert(t[n as int] == '=');
    if find(t, '=') < n {
        assert(is_name_char(e.0[find(t, '=')]));
    }
    assert(t.take(n as int) =~= e.0);
    assert(t.skip(n as int + 1) =~= e.1);
}

proof fn lemma_entries_back(env: EnvView)
    requires
        assoc_ordered(env),
        is_environment(env),
    ensures
        entries_env(Seq::new(env.len(), |i: int| entry_text(env[i]))) == env,
    decreases env.len(),
{
    let parts = Seq::new(env.len(), |i: int| entry_text(env[i]));
    if env.len() > 0 {
        let d = env.drop_last();
        assert forall|i: int, j: int| 0 <= i < j < d.len() implies less(
            (#[trigger] d[i]).0,
            (#[trigger] d[j]).0,
        ) by {
            assert(d[i] == env[i] && d[j] == env[j]);
        }
        assert forall|i: int| 0 <= i < d.len() implies is_env_name((#[trigger] d[i]).0)
            && !d[i].1.contains('\0') by {
            assert(d[i] == env[i]);
        }
        lemma_entries_back(d);
        assert(parts.drop_last() =~= Seq::new(d.len(), |i: int| entry_text(d[i])));
        lemma_entry_back(env.last());
        assert(env[env.len() - 1] == env.last());
        assert forall|i: int| 0 <= i < d.len() implies less((#[trigger] d[i]).0, env.last().0) by {
            assert(d[i] == env[i]);
        }
        lemma_assoc_put_last(d, env.last().0, env.last().1);
        assert(d.push((env.last().0, env.last().1)) =~= env);
    }
}

fn name_char(c: char) -> (r: bool)
    ensures
        r == is_name_char(c),
{
    ('a' <= c && c <= 'z') || ('A' <= c && c <= 'Z') || ('0' <= c && c <= '9') || c == '_'
}

fn env_name(s: &[char]) -> (r: bool)
    ensures
        r == is_env_name(s@),
{
    if s.len() == 0 || ('0' <= s[0] && s[0] <= '9') {
        return false;
    }
    let mut i: usize = 0;
    while i < s.len()
        invariant
            i <= s@.len(),
            forall|j: int| 0 <= j < i ==> is_name_char(#[trigger] s@[j]),
        decreases s.len() - i,
    {
        if !name_char(s[i]) {
            return false;
        }
        i = i + 1;
    }
    true
}

/// The variable and the value of an entry `NAME=value`, where it is one.
pub fn split_env_entry(entry: &[char]) -> (r: Option<(String, String)>)
    ensures
        match r {
            Some((n, v)) => env_entry(entry@) == Some((n@, v@)),
            None => env_entry(entry@) is None,
        },
{
    let k: usize = find_char(entry, '=');
    if k == entry.len() {
        return None;
    }
    let name = vstd::slice::slice_subrange(entry, 0, k);
    let value = vstd::slice::slice_subrange(entry, k + 1, entry.len());
    assert(name@ =~= entry@.take(k as int));
    assert(value@ =~= entry@.skip(k + 1));
    if env_name(name) {
        Some((string_of(name), string_of(value)))
    } else {
        None
    }
}

/// The parts of a text, as strings of characters.
spec fn part_views(v: Seq<Vec<char>>) -> Seq<Seq<char>> {
    Seq::new(v.len(), |i: int| v[i]@)
}

fn nul_env(parts: &Vec<Vec<char>>) -> (r: EnvMap)
    ensures
        r@ == entries_env(part_views(parts@)),
        assoc_ordered(r@),
{
    let ghost p = part_views(parts@);
    let mut env: EnvMap = StrMap::new();
    let mut i: usize = 0;
    assert(p.take(0) =~= Seq::<Seq<char>>::empty());
    while i < parts.len()
        invariant
            i <= parts@.len(),
            p == part_views(parts@),
            env@ == entries_env(p.take(i as int)),
            assoc_ordered(env@),
        decreases parts.len() - i,
    {
        assert(p.take(i + 1).drop_last() =~= p.take(i as int));
        assert(p.take(i + 1).last() == p[i as int]);
        if let Some((name, value)) = split_env_entry(parts[i].as_slice()) {
            env.insert(name.as_str(), value);
        }
        i = i + 1;
    }
    assert(p.take(i as int) =~= p);
    env
}

fn line_env(parts: &Vec<Vec<char>>) -> (r: EnvMap)
    ensures
        r@ == lines_env(lines_state(part_views(parts@))),
        assoc_ordered(r@),
{
    let ghost p = part_views(parts@);
    let mut env: EnvMap = StrMap::new();
    let mut last: Option<String> = None;
    let mut i: usize = 0;
    assert(p.take(0) =~= Seq::<Seq<char>>::empty());
    while i < parts.len()
        invariant
            i <= parts@.len(),
            p == part_views(parts@),
            env@ == lines_state(p.take(i as int)).env,
            opt_view(last) == lines_state(p.take(i as int)).last,
            assoc_ordered(env@),
        decreases parts.len() - i,
    {
        assert(p.take(i + 1).drop_last() =~= p.take(i as int));
        assert(p.take(i + 1).last() == p[i as int]);
        match split_env_entry(parts[i].as_slice()) {
            Some((name, value)) => {
                env.insert(name.as_str(), value);
                last = Some(name);
            },
            None => {
                if let Some(name) = &last {
                    let mut grown: Option<String> = None;
                    if let Some(v) = env.get(name.as_str()) {
                        let mut g = v.clone();
                        g.append("\n");
                        g.append(string_of(parts[i].as_slice()).as_str());
                        grown = Some(g);
                    }
                    if let Some(g) = grown {
                        env.insert(name.as_str(), g);
                    }
                }
            },
        }
        i = i + 1;
    }
    assert(p.take(i as int) =~= p);
    if let Some(name) = &last {
        let mut cut: Option<String> = None;
        if let Some(v) = env.get(name.as_str()) {
            let c = chars_of(v.as_str());
            if c.len() > 0 && c[c.len() - 1] == '\n' {
                let head = vstd::slice::slice_subrange(c.as_slice(), 0, c.len() - 1);
                assert(head@ =~= v@.drop_last());
                cut = Some(string_of(head));
            }
        }
        if let Some(v) = cut {
            env.insert(name.as_str(), v);
        }
    }
    env
}

/// The environment that the text of a dump holds.
pub fn parse_env_text(text: &str) -> (r: EnvMap)
    ensures
        r@ == dump_env(text@),
        assoc_ordered(r@),
{
    let chars = chars_of(text);
    let k: usize = find_char(chars.as_slice(), '\0');
    proof {
        lemma_find(text@, '\0');
    }
    if k < chars.len() {
        assert(text@.contains(text@[k as int]));
        let parts = split_chars(chars.as_slice(), '\0');
        assert(part_views(parts@) =~= split_on(text@, '\0'));
        nul_env(&parts)
    } else {
        let parts = split_chars(chars.as_slice(), '\n');
        assert(part_views(parts@) =~= split_on(text@, '\n'));
        line_env(&parts)
    }
}

/// Parses the dump that `env` printed: NUL-delimited if a NUL is in it, else
/// line by line. What has no valid name is skipped.
pub fn parse_env_dump(buf: &[u8]) -> (r: EnvMap)
    ensures
        r@ == dump_env(lossy_text(buf@)),
        valid_utf8(buf@) ==> r@ == dump_env(decode_utf8(buf@)),
        assoc_ordered(r@),
{
    parse_env_text(lossy(buf).as_str())
}

/// What a login shell's output comes to: nothing where the shell failed, or
/// where its output held no variable.
pub open spec fn captured(succeeded: bool, output: Seq<char>) -> Option<EnvView> {
    let env = dump_env(output);
    if succeeded && env.len() > 0 {
        Some(env)
    } else {
        None
    }
}

/// The environment that a login shell's output comes to.
pub fn login_env(succeeded: bool, output: &[u8]) -> (r: Option<EnvMap>)
    ensures
        env_view(r) == captured(succeeded, lossy_text(output@)),
        valid_utf8(output@) ==> env_view(r) == captured(succeeded, decode_utf8(output@)),
{
    if !succeeded {
        return None;
    }
    let env = parse_env_dump(output);
    if env.is_empty() {
        None
    } else {
        Some(env)
    }
}

// ---------------------------------------------------------------------------
// Layering
// ---------------------------------------------------------------------------

/// The fresh environment with the first `n` process variables layered in, each
/// where the fresh one lacks it.
pub open spec fn layered(fresh: EnvView, process: EnvView, n: nat) -> EnvView
    decreases n,
{
    if n == 0 {
        fresh
    } else {
        let before = layered(fresh, process, (n - 1) as nat);
        let (k, v) = process[n - 1];
        match assoc_get(before, k) {
            Some(_) => before,
            None => assoc_put(before, k, v),
        }
    }
}

/// A fresh value wins over the process's; names are told apart by case.
pub proof fn law_login_value_wins(fresh: EnvView, process: EnvView, n: nat, name: Seq<char>)
    requires
        n <= process.len(),
        assoc_get(fresh, name) is Some,
    ensures
        assoc_get(layered(fresh, process, n), name) == assoc_get(fresh, name),
    decreases n,
{
    if n > 0 {
        law_login_value_wins(fresh, process, (n - 1) as nat, name);
        let (k, v) = process[n - 1];
        law_assoc_put_get(layered(fresh, process, (n - 1) as nat), k, v, name);
    }
}

/// A variable that the login shell does not set keeps the process's value.
pub proof fn law_process_only_value_passes(fresh: EnvView, process: EnvView, n: nat, i: int)
    requires
        0 <= i < n <= process.len(),
        assoc_get(fresh, process[i].0) is None,
        forall|j: int| 0 <= j < i ==> (#[trigger] process[j]).0 != process[i].0,
    ensures
        assoc_get(layered(fresh, process, n), process[i].0) == Some(process[i].1),
    decreases n,
{
    let name = process[i].0;
    let before = layered(fresh, process, (n - 1) as nat);
    let (k, v) = process[n - 1];
    law_assoc_put_get(before, k, v, name);
    if n - 1 == i {
        lemma_layered_lacks(fresh, process, i as nat, name);
    } else {
        law_process_only_value_passes(fresh, process, (n - 1) as nat, i);
    }
}

proof fn lemma_layered_lacks(fresh: EnvView, process: EnvView, n: nat, name: Seq<char>)
    requires
        n <= process.len(),
        assoc_get(fresh, name) is None,
        forall|j: int| 0 <= j < n ==> (#[trigger] process[j]).0 != name,
    ensures
        assoc_get(layered(fresh, process, n), name) is None,
    decreases n,
{
    if n > 0 {
        lemma_layered_lacks(fresh, process, (n - 1) as nat, name);
        let (k, v) = process[n - 1];
        assert(process[n - 1].0 != name);
        law_assoc_put_get(layered(fresh, process, (n - 1) as nat), k, v, name);
    }
}

/// Layers the process's variables over the fresh environment: a name that both
/// have keeps the fresh value.
pub fn layer_process_only(fresh: EnvMap, process: EnvMap) -> (r: EnvMap)
    ensures
        r@ == layered(fresh@, process@, process@.len()),
{
    let ghost f = fresh@;
    let mut env = fresh;
    let mut i: usize = 0;
    while i < process.entries.len()
        invariant
            i <= process.entries@.len(),
            env@ == layered(f, process@, i as nat),
        decreases process.entries.len() - i,
    {
        assert(process@[i as int] == (process.entries@[i as int].0@, process.entries@[i as int].1@));
        if !env.contains(process.entries[i].0.as_str()) {
            env.insert(process.entries[i].0.as_str(), process.entries[i].1.clone());
        }
        i = i + 1;
    }
    env
}

/// The login shell's environment with the process's layered in, or the
/// process's own where there is none.
pub open spec fn login_or_process(fresh: Option<EnvView>, process: EnvView) -> EnvView {
    match fresh {
        Some(f) => layered(f, process, process.len()),
        None => process,
    }
}

/// A copy of an environment.
pub fn copy_env(env: &EnvMap) -> (r: EnvMap)
    ensures
        r@ == env@,
{
    let mut out: EnvMap = StrMap::new();
    let mut i: usize = 0;
    while i < env.entries.len()
        invariant
            i <= env.entries@.len(),
            out@ == env@.take(i as int),
        decreases env.entries.len() - i,
    {
        let ghost before = out@;
        out.entries.push((env.entries[i].0.clone(), env.entries[i].1.clone()));
        assert(out@ =~= before.push(env@[i as int]));
        assert(before.push(env@[i as int]) =~= env@.take(i + 1));
        i = i + 1;
    }
    assert(env@.take(i as int) =~= env@);
    out
}

/// A copy of an environment that was captured, or none.
pub fn copy_captured(env: &Option<EnvMap>) -> (r: Option<EnvMap>)
    ensures
        env_view(r) == env_view(*env),
{
    match env {
        Some(e) => Some(copy_env(e)),
        None => None,
    }
}

/// The login shell's environment with the process's layered in, or the
/// process's own where there is none.
pub fn fresh_or_process(fresh: &Option<EnvMap>, process: EnvMap) -> (r: EnvMap)
    ensures
        r@ == login_or_process(env_view(*fresh), process@),
{
    match fresh {
        Some(f) => layer_process_only(copy_env(f), process),
        None => process,
    }
}

/// The shell whose environment is captured: that of `SHELL`, where it is set
/// and not empty.
pub open spec fn login_shell(process: EnvView) -> Seq<char> {
    match assoc_get(process, "SHELL"@) {
        Some(s) => if s.len() > 0 {
            s
        } else {
            "/bin/sh"@
        },
        None => "/bin/sh"@,
    }
}

/// The shell whose environment is captured.
pub fn shell_of(process: &EnvMap) -> (r: String)
    ensures
        r@ == login_shell(process@),
{
    if let Some(s) = process.get("SHELL") {
        if !s.as_str().is_empty() {
            return s.clone();
        }
    }
    owned("/bin/sh")
}

// ---------------------------------------------------------------------------
// The cache
// ---------------------------------------------------------------------------

/// A capture that was kept: of which shell, when, and what came of it.
#[verifier::ext_equal]
pub struct CacheView {
    pub shell: Seq<char>,
    pub at_ms: u64,
    pub env: Option<EnvView>,
}

/// How long a capture is kept, in milliseconds.
pub const TTL_MS: u64 = 30_000;

/// Whether a kept capture is of this shell and young enough.
pub open spec fn cache_hit(slot: Option<CacheView>, shell: Seq<char>, now_ms: u64) -> bool {
    match slot {
        Some(c) => c.shell == shell && now_ms - c.at_ms < TTL_MS,
        None => false,
    }
}

/// One kept capture: its shell, when it ended, and what came of it. A capture
/// that failed is kept too.
pub struct EnvCache {
    slot: Option<(String, u64, Option<EnvMap>)>,
}

impl View for EnvCache {
    type V = Option<CacheView>;

    closed spec fn view(&self) -> Option<CacheView> {
        match self.slot {
            Some((s, at, e)) => Some(CacheView { shell: s@, at_ms: at, env: env_view(e) }),
            None => None,
        }
    }
}

impl EnvCache {
    /// A cache that keeps nothing yet.
    pub fn new() -> (r: EnvCache)
        ensures
            r@ is None,
    {
        EnvCache { slot: None }
    }

    /// What is kept of `shell`, where it is young enough; else what `capture`
    /// gives, which is kept from the time that it says it ended.
    pub fn get_or_capture<F: FnOnce() -> (Option<EnvMap>, u64)>(
        &mut self,
        shell: &str,
        now_ms: u64,
        capture: F,
    ) -> (r: Option<EnvMap>)
        requires
            call_requires(capture, ()),
        ensures
            cache_hit(old(self)@, shell@, now_ms) ==> final(self)@ == old(self)@ && env_view(r)
                == old(self)@->0.env,
            !cache_hit(old(self)@, shell@, now_ms) ==> exists|e: Option<EnvMap>, at: u64|
                #[trigger] call_ensures(capture, (), (e, at)) && env_view(r) == env_view(e)
                    && final(self)@ == Some(
                    (CacheView { shell: shell@, at_ms: at, env: env_view(e) }),
                ),
    {
        if let Some((kept, at, env)) = &self.slot {
            if same(kept.as_str(), shell) && (now_ms < *at || now_ms - *at < TTL_MS) {
                return copy_captured(env);
            }
        }
        let (env, at) = capture();
        let copy = copy_captured(&env);
        self.slot = Some((owned(shell), at, copy));
        env
    }
}

} // verus!
