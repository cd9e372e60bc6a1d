//! The environment of a fresh spawn.
//!
//! The environment of the running process is as old as the process. A new pane
//! is to see what a freshly started terminal would see: on Windows the durable
//! environment of the registry, elsewhere that of a login shell. What only the
//! process knows is layered in.

use crate::assoc::{assoc_get, assoc_keys, assoc_ordered, assoc_put, law_assoc_put_get,
    law_assoc_stays_ordered, lemma_assoc_get, StrMap};
use crate::text::{chars_of, find, find_char, lemma_find, same_ignoring_case, same_name, string_of,
    trim_end_char, trimmed_end_char};
use vstd::prelude::*;
use vstd::string::*;

pub mod laws;
pub mod unix;
pub mod unix_laws;
pub mod windows;

verus! {

/// An environment: variables and their values, in order of the names.
pub type EnvMap = StrMap<String>;

/// One value of the registry: its name, its data, and whether the data holds
/// `%NAME%` tokens to be expanded.
pub type RawVar = (String, String, bool);

/// A value of the registry.
pub type RawView = (Seq<char>, Seq<char>, bool);

/// An environment.
pub type EnvView = Seq<(Seq<char>, Seq<char>)>;

/// The values of the registry.
pub open spec fn raw_views(v: Seq<RawVar>) -> Seq<RawView> {
    Seq::new(v.len(), |i: int| (v[i].0@, v[i].1@, v[i].2))
}

/// The names of registry values.
pub open spec fn raw_names(v: Seq<RawView>) -> Seq<Seq<char>> {
    Seq::new(v.len(), |i: int| v[i].0)
}

/// The first place of a name, whatever its case: the number of names, where it
/// is not among them.
pub open spec fn name_index(names: Seq<Seq<char>>, n: Seq<char>) -> int
    decreases names.len(),
{
    if names.len() == 0 {
        0
    } else if same_ignoring_case(names[0], n) {
        0
    } else {
        1 + name_index(names.skip(1), n)
    }
}

/// Whether a name is among the names, whatever its case.
pub open spec fn named(names: Seq<Seq<char>>, n: Seq<char>) -> bool {
    name_index(names, n) < names.len()
}

/// Whether no two names agree but for case.
pub open spec fn all_distinct(names: Seq<Seq<char>>) -> bool {
    forall|i: int, j: int|
        0 <= i < j < names.len() ==> !same_ignoring_case(#[trigger] names[i], #[trigger] names[j])
}

/// Where a name is, and that none before it is the same.
pub proof fn lemma_name_index(names: Seq<Seq<char>>, n: Seq<char>)
    ensures
        0 <= name_index(names, n) <= names.len(),
        forall|i: int|
            0 <= i < name_index(names, n) ==> !same_ignoring_case(#[trigger] names[i], n),
        named(names, n) ==> same_ignoring_case(names[name_index(names, n)], n),
    decreases names.len(),
{
    if names.len() > 0 && !same_ignoring_case(names[0], n) {
        let t = names.skip(1);
        lemma_name_index(t, n);
        assert forall|i: int| 0 <= i < name_index(names, n) implies !same_ignoring_case(
            #[trigger] names[i],
            n,
        ) by {
            if i > 0 {
                assert(t[i - 1] == names[i]);
            }
        }
        if named(t, n) {
            assert(t[name_index(t, n)] == names[name_index(names, n)]);
        }
    }
}

proof fn lemma_name_index_is(names: Seq<Seq<char>>, n: Seq<char>, k: int)
    requires
        0 <= k <= names.len(),
        forall|i: int| 0 <= i < k ==> !same_ignoring_case(#[trigger] names[i], n),
        k < names.len() ==> same_ignoring_case(names[k], n),
    ensures
        name_index(names, n) == k,
{
    lemma_name_index(names, n);
    let m = name_index(names, n);
    if m < k {
        assert(!same_ignoring_case(names[m], n));
    } else if k < m {
        assert(!same_ignoring_case(names[k], n));
    }
}

/// A machine path and a user path as one.
pub open spec fn joined_path(machine: Seq<char>, user: Seq<char>) -> Seq<char> {
    let m = trim_end_char(machine, ';');
    if m.len() == 0 {
        user
    } else {
        m + ";"@ + user
    }
}

/// The machine's values with one of the user's layered on: it replaces that of
/// the same name, spelling and all, except `PATH`, which is the two joined under
/// the machine's spelling.
pub open spec fn upserted(m: Seq<RawView>, u: RawView) -> Seq<RawView> {
    let i = name_index(raw_names(m), u.0);
    if i >= m.len() {
        m.push(u)
    } else if same_ignoring_case(u.0, "PATH"@) {
        m.update(i, (m[i].0, joined_path(m[i].1, u.1), m[i].2 || u.2))
    } else {
        m.update(i, u)
    }
}

/// The machine's values with all of the user's layered on, in turn.
pub open spec fn merged_raw(machine: Seq<RawView>, user: Seq<RawView>) -> Seq<RawView>
    decreases user.len(),
{
    if user.len() == 0 {
        machine
    } else {
        upserted(merged_raw(machine, user.drop_last()), user.last())
    }
}

/// The value of a token: that of the registry, else that of the process.
pub open spec fn token_value(m: Seq<RawView>, process: EnvView, n: Seq<char>) -> Option<Seq<char>> {
    if named(raw_names(m), n) {
        Some(m[name_index(raw_names(m), n)].1)
    } else if named(assoc_keys(process), n) {
        Some(process[name_index(assoc_keys(process), n)].1)
    } else {
        None
    }
}

/// What stands for the token `%n%`: its value, or itself where it has none.
pub open spec fn token_text(m: Seq<RawView>, process: EnvView, n: Seq<char>) -> Seq<char> {
    match token_value(m, process, n) {
        Some(v) => if n.len() > 0 {
            v
        } else {
            "%"@ + n + "%"@
        },
        None => "%"@ + n + "%"@,
    }
}

/// A value with its `%NAME%` tokens expanded. What the tokens stand for is not
/// expanded again, and an unpaired `%` is kept.
pub open spec fn expanded(v: Seq<char>, m: Seq<RawView>, process: EnvView) -> Seq<char>
    decreases v.len(),
{
    let k = find(v, '%');
    let after = v.skip(k + 1);
    let e = find(after, '%');
    proof {
        lemma_find(v, '%');
        lemma_find(after, '%');
    }
    if k >= v.len() || e >= after.len() {
        v
    } else {
        v.take(k) + token_text(m, process, after.take(e)) + expanded(
            after.skip(e + 1),
            m,
            process,
        )
    }
}

/// The value of a registry entry, expanded where it asks for it.
pub open spec fn raw_value(r: RawView, m: Seq<RawView>, process: EnvView) -> Seq<char> {
    if r.2 {
        expanded(r.1, m, process)
    } else {
        r.1
    }
}

/// The environment of the first `n` merged entries.
pub open spec fn registry_env(m: Seq<RawView>, process: EnvView, n: nat) -> EnvView
    decreases n,
{
    if n == 0 {
        Seq::empty()
    } else {
        let r = m[n - 1];
        assoc_put(registry_env(m, process, (n - 1) as nat), r.0, raw_value(r, m, process))
    }
}

/// The environment with the first `n` process variables layered in, each where
/// no variable has its name in any case.
pub open spec fn with_process_vars(env: EnvView, process: EnvView, n: nat) -> EnvView
    decreases n,
{
    if n == 0 {
        env
    } else {
        let before = with_process_vars(env, process, (n - 1) as nat);
        let (k, v) = process[n - 1];
        if named(assoc_keys(before), k) {
            before
        } else {
            assoc_put(before, k, v)
        }
    }
}

/// The three layers: machine and user values, expanded, and what only the
/// process knows.
pub open spec fn fresh_merge(
    machine: Seq<RawView>,
    user: Seq<RawView>,
    process: EnvView,
) -> EnvView {
    let m = merged_raw(machine, user);
    with_process_vars(registry_env(m, process, m.len()), process, process.len())
}

// ---------------------------------------------------------------------------
// Laws
// ---------------------------------------------------------------------------

proof fn lemma_put_names(env: EnvView, k: Seq<char>, v: Seq<char>, n: Seq<char>)
    ensures
        named(assoc_keys(env), n) ==> named(assoc_keys(assoc_put(env, k, v)), n),
        same_ignoring_case(k, n) ==> named(assoc_keys(assoc_put(env, k, v)), n),
{
    let after = assoc_put(env, k, v);
    lemma_name_index(assoc_keys(env), n);
    lemma_name_index(assoc_keys(after), n);
    law_assoc_put_get(env, k, v, k);
    lemma_assoc_get(after, k);
    let j = choose|j: int| 0 <= j < after.len() && (#[trigger] after[j]).0 == k;
    assert(assoc_keys(after)[j] == k);
    if named(assoc_keys(env), n) {
        let i = name_index(assoc_keys(env), n);
        let key = env[i].0;
        assert(assoc_keys(env)[i] == key);
        lemma_assoc_get(env, key);
        law_assoc_put_get(env, k, v, key);
        lemma_assoc_get(after, key);
        let h = choose|h: int| 0 <= h < after.len() && (#[trigger] after[h]).0 == key;
        assert(assoc_keys(after)[h] == key);
    }
}

/// What is layered in from the process never replaces a fresh value, and never
/// adds a second spelling of a name that is there.
pub proof fn law_fresh_value_wins(env: EnvView, process: EnvView, n: nat, name: Seq<char>)
    requires
        n <= process.len(),
        named(assoc_keys(env), name),
    ensures
        assoc_get(with_process_vars(env, process, n), name) == assoc_get(env, name),
        named(assoc_keys(with_process_vars(env, process, n)), name),
    decreases n,
{
    if n > 0 {
        law_fresh_value_wins(env, process, (n - 1) as nat, name);
        let before = with_process_vars(env, process, (n - 1) as nat);
        let (k, v) = process[n - 1];
        if !named(assoc_keys(before), k) {
            law_assoc_put_get(before, k, v, name);
            lemma_put_names(before, k, v, name);
        }
    }
}

/// A variable that only the process knows is layered in with its value, the
/// first spelling of it winning.
pub proof fn law_process_only_value_is_kept(env: EnvView, process: EnvView, n: nat, i: int)
    requires
        0 <= i < n <= process.len(),
        !named(assoc_keys(env), process[i].0),
        forall|j: int|
            0 <= j < i ==> !same_ignoring_case((#[trigger] process[j]).0, process[i].0),
    ensures
        assoc_get(with_process_vars(env, process, n), process[i].0) == Some(process[i].1),
        named(assoc_keys(with_process_vars(env, process, n)), process[i].0),
    decreases n,
{
    let (name, value) = process[i];
    let before = with_process_vars(env, process, (n - 1) as nat);
    let (k, v) = process[n - 1];
    if n - 1 == i {
        lemma_absent_stays_absent(env, process, i as nat, name);
        law_assoc_put_get(before, k, v, name);
        lemma_put_names(before, k, v, name);
        lemma_name_index(assoc_keys(assoc_put(before, k, v)), name);
        lemma_assoc_get(assoc_put(before, k, v), name);
        let a = assoc_put(before, k, v);
        let h = choose|h: int| 0 <= h < a.len() && (#[trigger] a[h]).0 == name;
        assert(assoc_keys(a)[h] == name);
        assert(same_ignoring_case(name, name));
    } else {
        law_process_only_value_is_kept(env, process, (n - 1) as nat, i);
        if !named(assoc_keys(before), k) {
            law_assoc_put_get(before, k, v, name);
            lemma_put_names(before, k, v, name);
        }
    }
}

proof fn lemma_absent_stays_absent(env: EnvView, process: EnvView, n: nat, name: Seq<char>)
    requires
        n <= process.len(),
        !named(assoc_keys(env), name),
        forall|j: int| 0 <= j < n ==> !same_ignoring_case((#[trigger] process[j]).0, name),
    ensures
        !named(assoc_keys(with_process_vars(env, process, n)), name),
    decreases n,
{
    if n > 0 {
        lemma_absent_stays_absent(env, process, (n - 1) as nat, name);
        let before = with_process_vars(env, process, (n - 1) as nat);
        let (k, v) = process[n - 1];
        let after = assoc_put(before, k, v);
        assert(!same_ignoring_case(process[n - 1].0, name));
        lemma_name_index(assoc_keys(before), name);
        lemma_name_index(assoc_keys(after), name);
        if named(assoc_keys(after), name) && !named(assoc_keys(before), k) {
            let h = name_index(assoc_keys(after), name);
            let key = after[h].0;
            assert(assoc_keys(after)[h] == key);
            lemma_assoc_get(after, key);
            law_assoc_put_get(before, k, v, key);
            lemma_assoc_get(before, key);
            let g = choose|g: int| 0 <= g < before.len() && (#[trigger] before[g]).0 == key;
            assert(assoc_keys(before)[g] == key);
        }
    }
}

/// A user value wins over the machine's of the same name and keeps its own
/// spelling, and stands for itself where the machine has none; a user `PATH` is
/// appended to the machine's.
pub proof fn law_user_value_wins(m: Seq<RawView>, u: RawView)
    ensures
        ({
            let i = name_index(raw_names(m), u.0);
            let r = upserted(m, u);
            &&& i >= m.len() ==> r == m.push(u)
            &&& i < m.len() ==> r.len() == m.len() && (if same_ignoring_case(u.0, "PATH"@) {
                r[i].1 == joined_path(m[i].1, u.1)
            } else {
                r[i] == u
            }) && (forall|j: int| 0 <= j < m.len() && j != i ==> #[trigger] r[j] == m[j])
        }),
{
    lemma_name_index(raw_names(m), u.0);
}

proof fn lemma_same_name(a: Seq<char>, b: Seq<char>, c: Seq<char>)
    ensures
        same_ignoring_case(a, b) == same_ignoring_case(b, a),
        same_ignoring_case(a, b) && same_ignoring_case(b, c) ==> same_ignoring_case(a, c),
{
    if same_ignoring_case(a, b) || same_ignoring_case(b, a) {
        assert forall|i: int| 0 <= i < a.len() implies crate::text::ascii_lower(#[trigger] a[i])
            == crate::text::ascii_lower(b[i]) by {
            assert(b[i] == b[i]);
        }
        assert forall|i: int| 0 <= i < b.len() implies crate::text::ascii_lower(#[trigger] b[i])
            == crate::text::ascii_lower(a[i]) by {
            assert(a[i] == a[i]);
        }
        if same_ignoring_case(b, c) {
            assert forall|i: int| 0 <= i < a.len() implies crate::text::ascii_lower(
                #[trigger] a[i],
            ) == crate::text::ascii_lower(c[i]) by {
                assert(b[i] == b[i]);
            }
        }
    }
}

proof fn lemma_upserted_distinct(m: Seq<RawView>, u: RawView)
    requires
        all_distinct(raw_names(m)),
    ensures
        all_distinct(raw_names(upserted(m, u))),
{
    let names = raw_names(m);
    let r = upserted(m, u);
    let after = raw_names(r);
    let k = name_index(names, u.0);
    lemma_name_index(names, u.0);
    assert forall|i: int, j: int| 0 <= i < j < after.len() implies !same_ignoring_case(
        #[trigger] after[i],
        #[trigger] after[j],
    ) by {
        if k >= m.len() {
            assert(after[i] == names[i]);
            if j < m.len() {
                assert(after[j] == names[j]);
            }
        } else {
            assert(i != k ==> after[i] == names[i]);
            assert(j != k ==> after[j] == names[j]);
            if i == k {
                lemma_same_name(names[k], after[k], names[j]);
            } else if j == k {
                lemma_same_name(names[i], after[k], names[k]);
                lemma_same_name(names[k], after[k], names[k]);
            }
            assert(!same_ignoring_case(names[i], names[j]));
        }
    }
}

pub proof fn lemma_merged_distinct(machine: Seq<RawView>, user: Seq<RawView>)
    requires
        all_distinct(raw_names(machine)),
    ensures
        all_distinct(raw_names(merged_raw(machine, user))),
    decreases user.len(),
{
    if user.len() > 0 {
        lemma_merged_distinct(machine, user.drop_last());
        lemma_upserted_distinct(merged_raw(machine, user.drop_last()), user.last());
    }
}

proof fn lemma_put_key(env: EnvView, k: Seq<char>, v: Seq<char>, i: int)
    requires
        0 <= i < assoc_put(env, k, v).len(),
        assoc_put(env, k, v)[i].0 != k,
    ensures
        assoc_keys(env).contains(assoc_put(env, k, v)[i].0),
{
    let after = assoc_put(env, k, v);
    let key = after[i].0;
    lemma_assoc_get(after, key);
    law_assoc_put_get(env, k, v, key);
    lemma_assoc_get(env, key);
    let g = choose|g: int| 0 <= g < env.len() && (#[trigger] env[g]).0 == key;
    assert(assoc_keys(env)[g] == key);
}

proof fn lemma_put_distinct(env: EnvView, k: Seq<char>, v: Seq<char>)
    requires
        assoc_ordered(env),
        all_distinct(assoc_keys(env)),
        !named(assoc_keys(env), k),
    ensures
        assoc_ordered(assoc_put(env, k, v)),
        all_distinct(assoc_keys(assoc_put(env, k, v))),
{
    let before = assoc_keys(env);
    let after = assoc_put(env, k, v);
    let keys = assoc_keys(after);
    law_assoc_stays_ordered(env, k, v);
    lemma_name_index(before, k);
    assert forall|i: int, j: int| 0 <= i < j < keys.len() implies !same_ignoring_case(
        #[trigger] keys[i],
        #[trigger] keys[j],
    ) by {
        assert(keys[i] == after[i].0 && keys[j] == after[j].0);
        assert(crate::text::less(after[i].0, after[j].0));
        crate::text::lemma_less_total(after[i].0, after[j].0);
        lemma_same_name(keys[i], keys[j], keys[i]);
        if keys[i] != k {
            lemma_put_key(env, k, v, i);
            let g = choose|g: int| 0 <= g < before.len() && before[g] == keys[i];
            assert(before[g] == keys[i]);
            if keys[j] != k {
                lemma_put_key(env, k, v, j);
                let h = choose|h: int| 0 <= h < before.len() && before[h] == keys[j];
                assert(before[h] == keys[j]);
                assert(g < h || h < g);
            }
        } else {
            lemma_put_key(env, k, v, j);
            let h = choose|h: int| 0 <= h < before.len() && before[h] == keys[j];
            assert(before[h] == keys[j]);
        }
    }
}

proof fn lemma_registry_distinct(m: Seq<RawView>, process: EnvView, n: nat)
    requires
        n <= m.len(),
        all_distinct(raw_names(m)),
    ensures
        assoc_ordered(registry_env(m, process, n)),
        all_distinct(assoc_keys(registry_env(m, process, n))),
        forall|k: Seq<char>| #[trigger]
            assoc_keys(registry_env(m, process, n)).contains(k) ==> raw_names(m).take(
                n as int,
            ).contains(k),
    decreases n,
{
    let names = raw_names(m);
    if n > 0 {
        let before = registry_env(m, process, (n - 1) as nat);
        let r = m[n - 1];
        let value = raw_value(r, m, process);
        lemma_registry_distinct(m, process, (n - 1) as nat);
        lemma_name_index(assoc_keys(before), r.0);
        assert(names[n - 1] == r.0);
        if named(assoc_keys(before), r.0) {
            let key = assoc_keys(before)[name_index(assoc_keys(before), r.0)];
            assert(assoc_keys(before).contains(key));
            let t = names.take(n - 1);
            let g = choose|g: int| 0 <= g < t.len() && t[g] == key;
            assert(names[g] == key);
            assert(same_ignoring_case(names[g], names[n - 1]));
        }
        lemma_put_distinct(before, r.0, value);
        let after = assoc_put(before, r.0, value);
        assert forall|k: Seq<char>| #[trigger] assoc_keys(after).contains(k) implies names.take(
            n as int,
        ).contains(k) by {
            let i = choose|i: int| 0 <= i < assoc_keys(after).len() && assoc_keys(after)[i] == k;
            assert(after[i].0 == k);
            if k == r.0 {
                assert(names.take(n as int)[n - 1] == k);
            } else {
                lemma_put_key(before, r.0, value, i);
                let t = names.take(n - 1);
                let g = choose|g: int| 0 <= g < t.len() && t[g] == k;
                assert(names.take(n as int)[g] == k);
            }
        }
    }
}

/// Layering the process's variables in adds no second spelling of any name.
pub proof fn law_layering_keeps_names_distinct(env: EnvView, process: EnvView, n: nat)
    requires
        n <= process.len(),
        assoc_ordered(env),
        all_distinct(assoc_keys(env)),
    ensures
        assoc_ordered(with_process_vars(env, process, n)),
        all_distinct(assoc_keys(with_process_vars(env, process, n))),
    decreases n,
{
    if n > 0 {
        law_layering_keeps_names_distinct(env, process, (n - 1) as nat);
        let before = with_process_vars(env, process, (n - 1) as nat);
        let (k, v) = process[n - 1];
        if !named(assoc_keys(before), k) {
            lemma_put_distinct(before, k, v);
        }
    }
}

/// No two names of the merged environment agree but for case, whatever the
/// spellings of the user's and the process's names, where the machine's own
/// names do not.
pub proof fn law_merged_names_are_distinct(
    machine: Seq<RawView>,
    user: Seq<RawView>,
    process: EnvView,
)
    requires
        all_distinct(raw_names(machine)),
    ensures
        all_distinct(assoc_keys(fresh_merge(machine, user, process))),
{
    let m = merged_raw(machine, user);
    lemma_merged_distinct(machine, user);
    lemma_registry_distinct(m, process, m.len());
    law_layering_keeps_names_distinct(registry_env(m, process, m.len()), process, process.len());
}

/// A value without `%` is its own expansion.
pub proof fn law_plain_value_is_unchanged(v: Seq<char>, m: Seq<RawView>, process: EnvView)
    requires
        !v.contains('%'),
    ensures
        expanded(v, m, process) == v,
{
    lemma_find(v, '%');
}

// ---------------------------------------------------------------------------
// Code
// ---------------------------------------------------------------------------

/// The place of a registry value.
fn find_raw(v: &Vec<RawVar>, name: &str) -> (r: usize)
    ensures
        r == name_index(raw_names(raw_views(v@)), name@),
        r <= v@.len(),
{
    let ghost names = raw_names(raw_views(v@));
    let mut i: usize = 0;
    while i < v.len()
        invariant
            i <= v@.len(),
            names == raw_names(raw_views(v@)),
            forall|j: int| 0 <= j < i ==> !same_ignoring_case(#[trigger] names[j], name@),
        decreases v.len() - i,
    {
        assert(names[i as int] == v@[i as int].0@);
        if same_name(v[i].0.as_str(), name) {
            proof {
                lemma_name_index_is(names, name@, i as int);
            }
            return i;
        }
        i = i + 1;
    }
    proof {
        lemma_name_index_is(names, name@, i as int);
    }
    i
}

/// The place of a variable.
fn find_var(env: &EnvMap, name: &str) -> (r: usize)
    ensures
        r == name_index(assoc_keys(env@), name@),
        r <= env.entries@.len(),
{
    let ghost names = assoc_keys(env@);
    let mut i: usize = 0;
    while i < env.entries.len()
        invariant
            i <= env.entries@.len(),
            names == assoc_keys(env@),
            forall|j: int| 0 <= j < i ==> !same_ignoring_case(#[trigger] names[j], name@),
        decreases env.entries.len() - i,
    {
        assert(names[i as int] == env.entries@[i as int].0@);
        if same_name(env.entries[i].0.as_str(), name) {
            proof {
                lemma_name_index_is(names, name@, i as int);
            }
            return i;
        }
        i = i + 1;
    }
    proof {
        lemma_name_index_is(names, name@, i as int);
    }
    i
}

fn join_path(machine: &str, user: &str) -> (r: String)
    ensures
        r@ == joined_path(machine@, user@),
{
    let m = chars_of(machine);
    let t = trimmed_end_char(m.as_slice(), ';');
    if t.len() == 0 {
        crate::text::owned(user)
    } else {
        let mut out = string_of(t);
        out.append(";");
        out.append(user);
        out
    }
}

fn upsert(merged: &mut Vec<RawVar>, u: &RawVar)
    ensures
        raw_views(final(merged)@) == upserted(raw_views(old(merged)@), (u.0@, u.1@, u.2)),
{
    let ghost m = raw_views(merged@);
    let i: usize = find_raw(merged, u.0.as_str());
    if i == merged.len() {
        merged.push((u.0.clone(), u.1.clone(), u.2));
        assert(raw_views(merged@) =~= m.push((u.0@, u.1@, u.2)));
    } else if same_name(u.0.as_str(), "PATH") {
        let name = merged[i].0.clone();
        let value = join_path(merged[i].1.as_str(), u.1.as_str());
        let expand = merged[i].2 || u.2;
        merged.set(i, (name, value, expand));
        assert(raw_views(merged@) =~= upserted(m, (u.0@, u.1@, u.2)));
    } else {
        merged.set(i, (u.0.clone(), u.1.clone(), u.2));
        assert(raw_views(merged@) =~= upserted(m, (u.0@, u.1@, u.2)));
    }
}

fn lookup(merged: &Vec<RawVar>, process: &EnvMap, name: &str) -> (r: Option<String>)
    ensures
        crate::text::opt_view(r) == token_value(raw_views(merged@), process@, name@),
{
    let i: usize = find_raw(merged, name);
    if i < merged.len() {
        return Some(merged[i].1.clone());
    }
    let j: usize = find_var(process, name);
    if j < process.entries.len() {
        return Some(process.entries[j].1.clone());
    }
    None
}

/// Expands the `%NAME%` tokens of a value: each is looked up in the registry
/// and then in the process. An unknown token stays as it is, and an unpaired
/// `%` passes through.
pub fn expand_value(value: &str, merged: &Vec<RawVar>, process: &EnvMap) -> (r: String)
    ensures
        r@ == expanded(value@, raw_views(merged@), process@),
{
    let chars = chars_of(value);
    let ghost m = raw_views(merged@);
    let ghost all = expanded(value@, m, process@);
    let mut out = String::new();
    let mut from: usize = 0;
    assert(value@.skip(0) =~= value@);
    assert(out@ + all =~= all);
    while from < chars.len()
        invariant
            from <= chars@.len(),
            chars@ == value@,
            m == raw_views(merged@),
            all == expanded(value@, m, process@),
            out@ + expanded(value@.skip(from as int), m, process@) == all,
        decreases chars.len() - from,
    {
        let ghost v = value@.skip(from as int);
        let ghost before = out@;
        let rest = vstd::slice::slice_subrange(chars.as_slice(), from, chars.len());
        assert(rest@ =~= v);
        proof {
            lemma_find(v, '%');
        }
        let k: usize = find_char(rest, '%');
        if k == rest.len() {
            out.append(string_of(rest).as_str());
            return out;
        }
        let after = vstd::slice::slice_subrange(rest, k + 1, rest.len());
        assert(after@ =~= v.skip(k + 1));
        proof {
            lemma_find(after@, '%');
        }
        let e: usize = find_char(after, '%');
        if e == after.len() {
            out.append(string_of(rest).as_str());
            return out;
        }
        out.append(string_of(vstd::slice::slice_subrange(rest, 0, k)).as_str());
        assert(rest@.subrange(0, k as int) =~= v.take(k as int));
        let token = vstd::slice::slice_subrange(after, 0, e);
        assert(token@ =~= after@.take(e as int));
        let name = string_of(token);
        let found = lookup(merged, process, name.as_str());
        let mut text = String::new();
        match found {
            Some(t) if token.len() > 0 => {
                text.append(t.as_str());
            },
            _ => {
                text.append("%");
                text.append(name.as_str());
                text.append("%");
            },
        }
        assert(text@ =~= token_text(m, process@, name@));
        out.append(text.as_str());
        assert(after@.skip(e + 1) =~= value@.skip(from + k + 1 + e + 1));
        assert(out@ + expanded(after@.skip(e + 1), m, process@) =~= before + expanded(
            v,
            m,
            process@,
        ));
        from = from + k + 1 + e + 1;
    }
    proof {
        let v = value@.skip(from as int);
        assert(v.len() == 0);
        lemma_find(v, '%');
        assert(out@ + v =~= out@);
    }
    out
}

/// The freshest environment that the registry values give. Names are matched
/// whatever their case; each keeps the spelling of the value that won.
pub fn merge_fresh_env(machine: &[RawVar], user: &[RawVar], process: &EnvMap) -> (r: EnvMap)
    ensures
        r@ == fresh_merge(raw_views(machine@), raw_views(user@), process@),
        assoc_ordered(r@),
{
    let ghost gm = raw_views(machine@);
    let ghost gu = raw_views(user@);
    let mut merged: Vec<RawVar> = Vec::new();
    let mut i: usize = 0;
    while i < machine.len()
        invariant
            i <= machine@.len(),
            gm == raw_views(machine@),
            raw_views(merged@) == gm.take(i as int),
        decreases machine.len() - i,
    {
        let ghost before = raw_views(merged@);
        merged.push((machine[i].0.clone(), machine[i].1.clone(), machine[i].2));
        assert(raw_views(merged@) =~= before.push(gm[i as int]));
        assert(before.push(gm[i as int]) =~= gm.take(i + 1));
        i = i + 1;
    }
    assert(gm.take(i as int) =~= gm);
    let mut j: usize = 0;
    assert(gu.take(0) =~= Seq::<RawView>::empty());
    while j < user.len()
        invariant
            j <= user@.len(),
            gu == raw_views(user@),
            raw_views(merged@) == merged_raw(gm, gu.take(j as int)),
        decreases user.len() - j,
    {
        assert(gu.take(j + 1).drop_last() =~= gu.take(j as int));
        assert(gu.take(j + 1).last() == gu[j as int]);
        upsert(&mut merged, &user[j]);
        j = j + 1;
    }
    assert(gu.take(j as int) =~= gu);
    let ghost m = raw_views(merged@);
    let mut env: EnvMap = StrMap::new();
    let mut a: usize = 0;
    while a < merged.len()
        invariant
            a <= merged@.len(),
            m == raw_views(merged@),
            env@ == registry_env(m, process@, a as nat),
            assoc_ordered(env@),
        decreases merged.len() - a,
    {
        let value = if merged[a].2 {
            expand_value(merged[a].1.as_str(), &merged, process)
        } else {
            merged[a].1.clone()
        };
        assert(m[a as int] == (merged@[a as int].0@, merged@[a as int].1@, merged@[a as int].2));
        env.insert(merged[a].0.as_str(), value);
        a = a + 1;
    }
    let ghost fresh = env@;
    let mut b: usize = 0;
    while b < process.entries.len()
        invariant
            b <= process.entries@.len(),
            env@ == with_process_vars(fresh, process@, b as nat),
            assoc_ordered(env@),
        decreases process.entries.len() - b,
    {
        assert(process@[b as int] == (process.entries@[b as int].0@, process.entries@[b as int].1@));
        let at: usize = find_var(&env, process.entries[b].0.as_str());
        if at == env.entries.len() {
            env.insert(process.entries[b].0.as_str(), process.entries[b].1.clone());
        }
        b = b + 1;
    }
    env
}

/// A source of the freshest environment that a platform can produce.
pub trait FreshEnvProvider {
    /// The environment that the provider produces from the process's own.
    spec fn fresh(&self, process: EnvView) -> EnvView;

    /// The freshest environment, with what only the process knows layered in.
    fn fresh_env_with_process(&self, process: EnvMap) -> (r: EnvMap)
        ensures
            r@ == self.fresh(process@),
    ;
}

/// What the platform's durable environment held when it was read.
pub enum PlatformEnv {
    /// The environment of a login shell, where it could be captured.
    Login(Option<EnvMap>),
    /// The machine's and the user's registry values, each where it could be
    /// read.
    Registry(Option<Vec<RawVar>>, Option<Vec<RawVar>>),
}

impl FreshEnvProvider for PlatformEnv {
    open spec fn fresh(&self, process: EnvView) -> EnvView {
        match self {
            PlatformEnv::Login(fresh) => unix::login_or_process(unix::env_view(*fresh), process),
            PlatformEnv::Registry(machine, user) => windows::registry_or_process(
                windows::raw_opt(*machine),
                windows::raw_opt(*user),
                process,
            ),
        }
    }

    fn fresh_env_with_process(&self, process: EnvMap) -> (r: EnvMap) {
        match self {
            PlatformEnv::Login(fresh) => unix::fresh_or_process(fresh, process),
            PlatformEnv::Registry(machine, user) => windows::merged_or_process(
                machine,
                user,
                process,
            ),
        }
    }
}

} // verus!
