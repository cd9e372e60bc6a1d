//! What is read of a login shell, seen from outside.

use crate::assoc::{assoc_get, assoc_ordered, assoc_put, law_assoc_put_get, lemma_assoc_put_last};
use crate::session::env::EnvView;
use crate::session::env::unix::{after_line, cache_hit, captured, dump_env, entries_env, entry_text,
    env_entry, is_env_name, is_environment, is_name_char, layered, lemma_entry_back,
    lemma_split_first, lines_state, login_or_process, login_shell, CacheView, TTL_MS};
use crate::text::{find, lemma_find, less, split_on};
use vstd::prelude::*;
use vstd::string::*;

verus! {

/// What `env` prints of an environment: each entry on a line.
pub open spec fn line_dump(env: EnvView) -> Seq<char>
    decreases env.len(),
{
    if env.len() == 0 {
        Seq::empty()
    } else {
        entry_text(env[0]) + seq!['\n'] + line_dump(env.skip(1))
    }
}

/// Whether no value runs over several lines.
pub open spec fn single_lines(env: EnvView) -> bool {
    forall|i: int| 0 <= i < env.len() ==> !(#[trigger] env[i]).1.contains('\n')
}

proof fn lemma_no_mark(e: (Seq<char>, Seq<char>), c: char)
    requires
        is_env_name(e.0),
        !e.1.contains(c),
        c == '\n' || c == '\0',
    ensures
        !entry_text(e).contains(c),
{
    let t = entry_text(e);
    if t.contains(c) {
        let i = choose|i: int| 0 <= i < t.len() && t[i] == c;
        let n = e.0.len();
        if i < n {
            assert(is_name_char(e.0[i]));
        } else if i > n {
            assert(e.1[i - n - 1] == c);
        }
    }
}

proof fn lemma_line_parts(env: EnvView)
    requires
        is_environment(env),
        single_lines(env),
    ensures
        split_on(line_dump(env), '\n') == Seq::new(env.len(), |i: int| entry_text(env[i])).push(
            Seq::empty(),
        ),
        !line_dump(env).contains('\0'),
    decreases env.len(),
{
    let parts = Seq::new(env.len(), |i: int| entry_text(env[i]));
    if env.len() > 0 {
        let t = env.skip(1);
        assert forall|i: int| 0 <= i < t.len() implies is_env_name((#[trigger] t[i]).0)
            && !t[i].1.contains('\0') && !t[i].1.contains('\n') by {
            assert(t[i] == env[i + 1]);
        }
        lemma_line_parts(t);
        let e = entry_text(env[0]);
        lemma_no_mark(env[0], '\n');
        lemma_no_mark(env[0], '\0');
        lemma_split_first(e, line_dump(t), '\n');
        assert(seq![e] + Seq::new(t.len(), |i: int| entry_text(t[i])).push(Seq::empty())
            =~= parts.push(Seq::empty()));
        let d = line_dump(env);
        if d.contains('\0') {
            let i = choose|i: int| 0 <= i < d.len() && d[i] == '\0';
            if i < e.len() {
                assert(e.contains(e[i]));
            } else if i > e.len() {
                assert(line_dump(t)[i - e.len() - 1] == '\0');
                assert(line_dump(t).contains('\0'));
            }
        }
    } else {
        lemma_find(line_dump(env), '\n');
        assert(seq![line_dump(env)] =~= parts.push(Seq::empty()));
    }
}

proof fn lemma_lines_are_entries(env: EnvView)
    requires
        is_environment(env),
        assoc_ordered(env),
    ensures
        ({
            let st = lines_state(Seq::new(env.len(), |i: int| entry_text(env[i])));
            &&& st.env == env
            &&& env.len() > 0 ==> st.last == Some(env.last().0)
            &&& env.len() == 0 ==> st.last is None
        }),
    decreases env.len(),
{
    let parts = Seq::new(env.len(), |i: int| entry_text(env[i]));
    if env.len() > 0 {
        let d = env.drop_last();
        assert forall|i: int, j: int| 0 <= i < j < d.len() implies less(
            (#[trigger] d[i]).0,
            (#[trigger] d[j]).0,
        ) by {
            assert(d[i] == env[i] && d[j] == env[j]);
        }
        assert forall|i: int| 0 <= i < d.len() implies is_env_name((#[trigger] d[i]).0)
            && !d[i].1.contains('\0') by {
            assert(d[i] == env[i]);
        }
        lemma_lines_are_entries(d);
        assert(parts.drop_last() =~= Seq::new(d.len(), |i: int| entry_text(d[i])));
        assert(env[env.len() - 1] == env.last());
        lemma_entry_back(env.last());
        assert forall|i: int| 0 <= i < d.len() implies less((#[trigger] d[i]).0, env.last().0) by {
            assert(d[i] == env[i]);
        }
        lemma_assoc_put_last(d, env.last().0, env.last().1);
        assert(d.push((env.last().0, env.last().1)) =~= env);
    }
}

/// What `env` prints is read back as it was, where no value runs over several
/// lines.
pub proof fn law_line_dump_reads_back(env: EnvView)
    requires
        assoc_ordered(env),
        is_environment(env),
        single_lines(env),
    ensures
        dump_env(line_dump(env)) == env,
{
    reveal_strlit("\n");
    let parts = Seq::new(env.len(), |i: int| entry_text(env[i]));
    let nothing = Seq::<char>::empty();
    lemma_find(nothing, '=');
    lemma_line_parts(env);
    lemma_lines_are_entries(env);
    let all = parts.push(nothing);
    assert(all.drop_last() =~= parts);
    let st = lines_state(parts);
    let fin = lines_state(all);
    assert(fin == after_line(st, nothing));
    assert(env_entry(nothing) is None);
    if env.len() > 0 {
        let (n, v) = env.last();
        let d = env.drop_last();
        assert forall|i: int| 0 <= i < d.len() implies less((#[trigger] d[i]).0, n) by {
            assert(d[i] == env[i]);
            assert(env[env.len() - 1] == env.last());
        }
        lemma_assoc_put_last(d, n, v);
        assert(d.push((n, v)) =~= env);
        law_assoc_put_get(d, n, v, n);
        let w = v + "\n"@ + nothing;
        assert(fin.env == assoc_put(env, n, w));
        law_assoc_put_get(env, n, w, n);
        assert(w.last() == '\n');
        assert(w.drop_last() =~= v);
        lemma_put_twice(env, n, w, v);
    }
}

/// Of two values that are put under one name the second counts; one that is
/// there already changes nothing.
proof fn lemma_put_twice(s: EnvView, n: Seq<char>, w: Seq<char>, v: Seq<char>)
    requires
        s.len() > 0,
        s.last() == (n, v),
        forall|i: int| 0 <= i < s.len() - 1 ==> less((#[trigger] s[i]).0, n),
    ensures
        assoc_put(assoc_put(s, n, w), n, v) == s,
{
    let d = s.drop_last();
    assert forall|i: int| 0 <= i < d.len() implies less((#[trigger] d[i]).0, n) by {
        assert(d[i] == s[i]);
    }
    lemma_put_over(d, n, v, w);
    lemma_put_over(d, n, w, v);
    assert(d.push((n, v)) =~= s);
}

proof fn lemma_put_over(d: EnvView, n: Seq<char>, a: Seq<char>, b: Seq<char>)
    requires
        forall|i: int| 0 <= i < d.len() ==> less((#[trigger] d[i]).0, n),
    ensures
        assoc_put(d.push((n, a)), n, b) == d.push((n, b)),
    decreases d.len(),
{
    let s = d.push((n, a));
    if d.len() > 0 {
        assert(less(d[0].0, n));
        crate::text::lemma_less_total(d[0].0, n);
        crate::text::lemma_less_total(n, n);
        let t = d.skip(1);
        assert forall|i: int| 0 <= i < t.len() implies less((#[trigger] t[i]).0, n) by {
            assert(t[i] == d[i + 1]);
        }
        lemma_put_over(t, n, a, b);
        assert(s.skip(1) =~= t.push((n, a)));
        assert(s[0] == d[0]);
        assert(seq![d[0]] + t.push((n, b)) =~= d.push((n, b)));
    } else {
        assert(seq![(n, b)] + s.skip(1) =~= d.push((n, b)));
    }
}

/// A line that is no entry continues the value of the entry before it, behind a
/// newline, and changes no other variable.
pub proof fn law_other_lines_continue_a_value(
    before: Seq<Seq<char>>,
    name: Seq<char>,
    value: Seq<char>,
    line: Seq<char>,
    other: Seq<char>,
)
    requires
        is_env_name(name),
        env_entry(line) is None,
    ensures
        ({
            let parts = before.push(entry_text((name, value)));
            let a = lines_state(parts).env;
            let b = lines_state(parts.push(line)).env;
            &&& assoc_get(a, name) == Some(value)
            &&& assoc_get(b, name) == Some(value.push('\n') + line)
            &&& other != name ==> assoc_get(b, other) == assoc_get(lines_state(before).env, other)
        }),
{
    reveal_strlit("\n");
    let parts = before.push(entry_text((name, value)));
    assert(parts.drop_last() =~= before);
    assert(parts.push(line).drop_last() =~= parts);
    lemma_entry_back((name, value));
    let e = lines_state(before).env;
    law_assoc_put_get(e, name, value, name);
    law_assoc_put_get(e, name, value, other);
    let st = lines_state(parts);
    law_assoc_put_get(st.env, name, value + "\n"@ + line, name);
    law_assoc_put_get(st.env, name, value + "\n"@ + line, other);
    assert(value + "\n"@ + line =~= value.push('\n') + line);
}

/// Of two entries of one name the later counts.
pub proof fn law_later_entry_counts(
    before: Seq<Seq<char>>,
    name: Seq<char>,
    value: Seq<char>,
    other: Seq<char>,
)
    requires
        is_env_name(name),
    ensures
        ({
            let parts = before.push(entry_text((name, value)));
            &&& assoc_get(entries_env(parts), name) == Some(value)
            &&& other != name ==> assoc_get(entries_env(parts), other) == assoc_get(
                entries_env(before),
                other,
            )
        }),
{
    let parts = before.push(entry_text((name, value)));
    assert(parts.drop_last() =~= before);
    lemma_entry_back((name, value));
    law_assoc_put_get(entries_env(before), name, value, name);
    law_assoc_put_get(entries_env(before), name, value, other);
}

/// Nothing is taken of a shell that failed, nor of one that printed no variable.
pub proof fn law_only_success_is_taken(output: Seq<char>)
    ensures
        captured(false, output) is None,
        dump_env(output).len() == 0 ==> captured(true, output) is None,
        dump_env(output).len() > 0 ==> captured(true, output) == Some(dump_env(output)),
{
}

/// Where there is no login environment, a pane has the process's own; where
/// there is one, no name of either is lost and none is added.
pub proof fn law_no_variable_is_lost(fresh: EnvView, process: EnvView, n: nat, name: Seq<char>)
    requires
        n <= process.len(),
    ensures
        login_or_process(None, process) == process,
        assoc_get(layered(fresh, process, n), name) is Some <==> assoc_get(fresh, name) is Some
            || exists|i: int| 0 <= i < n && (#[trigger] process[i]).0 == name,
    decreases n,
{
    if n > 0 {
        let m = (n - 1) as nat;
        law_no_variable_is_lost(fresh, process, m, name);
        let before = layered(fresh, process, m);
        let (k, v) = process[n - 1];
        law_no_variable_is_lost(fresh, process, m, k);
        law_assoc_put_get(before, k, v, name);
        law_assoc_put_get(before, k, v, k);
        if name == k {
            assert(process[n - 1].0 == name);
        } else if exists|i: int| 0 <= i < n && (#[trigger] process[i]).0 == name {
            let i = choose|i: int| 0 <= i < n && (#[trigger] process[i]).0 == name;
            assert(i < m);
        }
    }
}

/// The shell is the one that `SHELL` names, where it names one.
pub proof fn law_shell_is_the_users(process: EnvView, s: Seq<char>)
    ensures
        s.len() > 0 && assoc_get(process, "SHELL"@) == Some(s) ==> login_shell(process) == s,
        assoc_get(process, "SHELL"@) is None ==> login_shell(process) == "/bin/sh"@,
        s.len() == 0 && assoc_get(process, "SHELL"@) == Some(s) ==> login_shell(process)
            == "/bin/sh"@,
{
}

/// A capture serves its own shell, from when it was made until it is too old.
pub proof fn law_capture_serves_its_shell_for_a_time(c: CacheView, shell: Seq<char>, later: u64)
    ensures
        !cache_hit(None, shell, later),
        shell != c.shell ==> !cache_hit(Some(c), shell, later),
        cache_hit(Some(c), c.shell, c.at_ms),
        c.at_ms <= later && later - c.at_ms < TTL_MS ==> cache_hit(Some(c), c.shell, later),
        later - c.at_ms >= TTL_MS ==> !cache_hit(Some(c), c.shell, later),
{
}

/// A name begins with a letter or an underscore and goes on with those and
/// digits; what begins otherwise, or has another character before the sign, is
/// no entry.
pub proof fn law_only_names_make_entries(c: char, name: Seq<char>, value: Seq<char>, i: int)
    requires
        !name.contains('='),
    ensures
        '0' <= c <= '9' ==> env_entry(entry_text((seq![c] + name, value))) is None,
        0 <= i < name.len() && !('a' <= name[i] <= 'z' || 'A' <= name[i] <= 'Z' || '0' <= name[i]
            <= '9' || name[i] == '_') ==> env_entry(entry_text((name, value))) is None,
        env_entry(entry_text((Seq::empty(), value))) is None,
{
    let a = seq![c] + name;
    if '0' <= c <= '9' {
        assert(!a.contains('=')) by {
            if a.contains('=') {
                let k = choose|k: int| 0 <= k < a.len() && a[k] == '=';
                assert(name.contains(a[k])) by {
                    assert(name[k - 1] == a[k]);
                }
            }
        }
        lemma_sign_found(a, value);
        assert(a[0] == c);
    }
    lemma_sign_found(name, value);
    if 0 <= i < name.len() && !is_name_char(name[i]) {
        assert(!is_env_name(name));
    }
    assert(!Seq::<char>::empty().contains('='));
    lemma_sign_found(Seq::empty(), value);
}

proof fn lemma_sign_found(name: Seq<char>, value: Seq<char>)
    requires
        !name.contains('='),
    ensures
        find(entry_text((name, value)), '=') == name.len(),
        entry_text((name, value)).take(name.len() as int) == name,
{
    let t = entry_text((name, value));
    lemma_find(t, '=');
    assert(t[name.len() as int] == '=');
    if find(t, '=') < name.len() {
        assert(name[find(t, '=')] == '=');
    }
    assert(t.take(name.len() as int) =~= name);
}

/// What is made of letters, digits and underscores and begins with no digit is a
/// name, and an entry gives it the value behind the first sign, whatever that
/// holds.
pub proof fn law_names_make_entries(name: Seq<char>, value: Seq<char>)
    requires
        name.len() > 0,
        !('0' <= name[0] <= '9'),
        forall|i: int|
            0 <= i < name.len() ==> 'a' <= #[trigger] name[i] <= 'z' || 'A' <= name[i] <= 'Z'
                || '0' <= name[i] <= '9' || name[i] == '_',
    ensures
        env_entry(entry_text((name, value))) == Some((name, value)),
{
    assert(is_env_name(name)) by {
        assert forall|i: int| 0 <= i < name.len() implies is_name_char(#[trigger] name[i]) by {}
    }
    lemma_entry_back((name, value));
}

} // verus!
