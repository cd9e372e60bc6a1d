//! What holds of the merge of machine, user and process values.

use crate::assoc::{assoc_get, assoc_keys, assoc_put, law_assoc_put_get, lemma_assoc_get};
use crate::session::env::{all_distinct, expanded, fresh_merge, joined_path, law_fresh_value_wins,
    lemma_name_index, merged_raw, name_index, named, raw_names, raw_value, registry_env,
    token_value, upserted, EnvView, RawView};
use crate::text::{find, lemma_find, same_ignoring_case, trim_end_char};
use crate::text_laws::{law_trim_char_keeps_what_is_between, repeated};
use vstd::prelude::*;

verus! {

/// Names are the same whatever the case of their ASCII letters, and only then.
pub proof fn law_case_does_not_matter(a: Seq<char>, b: Seq<char>, c: Seq<char>)
    ensures
        same_ignoring_case(a, a),
        same_ignoring_case(a, b) ==> same_ignoring_case(b, a),
        same_ignoring_case(a, b) && same_ignoring_case(b, c) ==> same_ignoring_case(a, c),
        same_ignoring_case(seq!['P', 'A', 'T', 'H'], seq!['P', 'a', 't', 'h']),
        !same_ignoring_case(seq!['P', 'A', 'T', 'H'], seq!['P', 'A', 'T']),
        a.len() != b.len() ==> !same_ignoring_case(a, b),
{
    if same_ignoring_case(a, b) {
        assert forall|i: int| 0 <= i < b.len() implies crate::text::ascii_lower(#[trigger] b[i])
            == crate::text::ascii_lower(a[i]) by {
            assert(a[i] == a[i]);
        }
        if same_ignoring_case(b, c) {
            assert forall|i: int| 0 <= i < a.len() implies crate::text::ascii_lower(
                #[trigger] a[i],
            ) == crate::text::ascii_lower(c[i]) by {
                assert(b[i] == b[i]);
            }
        }
    }
}

/// A machine path and a user path are joined with one semicolon, however many
/// the machine's ends with; where the machine's is empty, the user's stands
/// alone.
pub proof fn law_paths_are_joined_with_one_semicolon(m: Seq<char>, n: nat, u: Seq<char>)
    requires
        m.len() > 0,
        m.last() != ';',
        m[0] != ';',
    ensures
        joined_path(m + repeated(';', n), u) == m + seq![';'] + u,
        joined_path(m, u) == m + seq![';'] + u,
        joined_path(repeated(';', n), u) == u,
        joined_path(Seq::empty(), u) == u,
{
    law_trim_char_keeps_what_is_between(0, m, n, ';');
    law_trim_char_keeps_what_is_between(0, m, 0, ';');
    assert(m + repeated(';', 0) =~= m);
    reveal_strlit(";");
    assert(";"@ =~= seq![';']);
    lemma_only_semicolons(n);
}

proof fn lemma_only_semicolons(n: nat)
    ensures
        trim_end_char(repeated(';', n), ';').len() == 0,
    decreases n,
{
    if n > 0 {
        assert(repeated(';', n).drop_last() =~= repeated(';', (n - 1) as nat));
        lemma_only_semicolons((n - 1) as nat);
    }
}

/// A user `PATH` is joined behind the machine's, under the machine's name and in
/// its place, and the joined value is to be expanded exactly where one of the
/// two is.
pub proof fn law_joined_path_is_expanded_where_either_is(m: Seq<RawView>, u: RawView)
    requires
        same_ignoring_case(u.0, seq!['P', 'A', 'T', 'H']),
        named(raw_names(m), u.0),
    ensures
        ({
            let i = name_index(raw_names(m), u.0);
            let r = upserted(m, u);
            &&& r.len() == m.len()
            &&& r[i].0 == m[i].0
            &&& r[i].1 == joined_path(m[i].1, u.1)
            &&& r[i].2 <==> m[i].2 || u.2
            &&& forall|j: int| 0 <= j < m.len() && j != i ==> #[trigger] r[j] == m[j]
        }),
{
    reveal_strlit("PATH");
    assert("PATH"@ =~= seq!['P', 'A', 'T', 'H']);
    lemma_name_index(raw_names(m), u.0);
}

/// A user value that is no `PATH` is to be expanded where it says so itself,
/// whatever the machine's value said.
pub proof fn law_user_value_says_whether_it_is_expanded(m: Seq<RawView>, u: RawView)
    requires
        !same_ignoring_case(u.0, seq!['P', 'A', 'T', 'H']),
    ensures
        ({
            let i = name_index(raw_names(m), u.0);
            let r = upserted(m, u);
            &&& 0 <= i < r.len()
            &&& r[i] == u
        }),
{
    reveal_strlit("PATH");
    assert("PATH"@ =~= seq!['P', 'A', 'T', 'H']);
    lemma_name_index(raw_names(m), u.0);
}

proof fn lemma_place(names: Seq<Seq<char>>, n: Seq<char>, k: int)
    requires
        0 <= k < names.len(),
        all_distinct(names),
        same_ignoring_case(names[k], n),
    ensures
        name_index(names, n) == k,
{
    lemma_name_index(names, n);
    let i = name_index(names, n);
    if i < k {
        law_case_does_not_matter(names[k], n, names[i]);
        law_case_does_not_matter(names[i], n, names[k]);
        assert(!same_ignoring_case(names[i], names[k]));
        law_case_does_not_matter(n, names[k], n);
    } else if i > k {
        assert(!same_ignoring_case(names[k], n));
    }
}

proof fn lemma_registry_value(m: Seq<RawView>, process: EnvView, n: nat, i: int)
    requires
        0 <= i < n <= m.len(),
        all_distinct(raw_names(m)),
    ensures
        assoc_get(registry_env(m, process, n), m[i].0) == Some(raw_value(m[i], m, process)),
        assoc_keys(registry_env(m, process, n)).contains(m[i].0),
    decreases n,
{
    let before = registry_env(m, process, (n - 1) as nat);
    let r = m[n - 1];
    let v = raw_value(r, m, process);
    let after = assoc_put(before, r.0, v);
    law_assoc_put_get(before, r.0, v, m[i].0);
    if i < n - 1 {
        lemma_registry_value(m, process, (n - 1) as nat, i);
        assert(raw_names(m)[i] == m[i].0 && raw_names(m)[n - 1] == r.0);
        if m[i].0 == r.0 {
            law_case_does_not_matter(m[i].0, r.0, r.0);
        }
    }
    lemma_assoc_get(after, m[i].0);
    let h = choose|h: int| 0 <= h < after.len() && (#[trigger] after[h]).0 == m[i].0;
    assert(assoc_keys(after)[h] == m[i].0);
}

/// A value of the merged registry is what the environment holds under its name:
/// expanded against all of the merged values and the process, where it asks for
/// it, and as it stands where it does not.
pub proof fn law_registry_value_is_in_the_environment(
    machine: Seq<RawView>,
    user: Seq<RawView>,
    process: EnvView,
    i: int,
)
    requires
        0 <= i < merged_raw(machine, user).len(),
        all_distinct(raw_names(merged_raw(machine, user))),
    ensures
        ({
            let m = merged_raw(machine, user);
            let got = assoc_get(fresh_merge(machine, user, process), m[i].0);
            &&& m[i].2 ==> got == Some(expanded(m[i].1, m, process))
            &&& !m[i].2 ==> got == Some(m[i].1)
        }),
{
    let m = merged_raw(machine, user);
    let env = registry_env(m, process, m.len());
    lemma_registry_value(m, process, m.len(), i);
    let k = choose|k: int| 0 <= k < assoc_keys(env).len() && assoc_keys(env)[k] == m[i].0;
    lemma_name_index(assoc_keys(env), m[i].0);
    law_case_does_not_matter(m[i].0, m[i].0, m[i].0);
    assert(named(assoc_keys(env), m[i].0));
    law_fresh_value_wins(env, process, process.len(), m[i].0);
}

/// The `PATH` of the environment is the machine's and the user's, joined, and
/// expanded where either of them asks for it.
pub proof fn law_path_of_the_environment(
    machine: Seq<RawView>,
    user: Seq<RawView>,
    process: EnvView,
    i: int,
    j: int,
)
    requires
        all_distinct(raw_names(machine)),
        0 <= i < machine.len(),
        0 <= j < user.len(),
        same_ignoring_case(machine[i].0, seq!['P', 'A', 'T', 'H']),
        same_ignoring_case(user[j].0, seq!['P', 'A', 'T', 'H']),
        forall|k: int|
            0 <= k < user.len() && k != j ==> !same_ignoring_case(
                (#[trigger] user[k]).0,
                seq!['P', 'A', 'T', 'H'],
            ),
    ensures
        ({
            let m = merged_raw(machine, user);
            let path = joined_path(machine[i].1, user[j].1);
            let got = assoc_get(fresh_merge(machine, user, process), machine[i].0);
            &&& machine[i].2 || user[j].2 ==> got == Some(expanded(path, m, process))
            &&& !machine[i].2 && !user[j].2 ==> got == Some(path)
        }),
{
    lemma_path_entry(machine, user, user.len(), i, j);
    assert(user.take(user.len() as int) =~= user);
    crate::session::env::lemma_merged_distinct(machine, user);
    law_registry_value_is_in_the_environment(machine, user, process, i);
}

proof fn lemma_path_entry(
    machine: Seq<RawView>,
    user: Seq<RawView>,
    n: nat,
    i: int,
    j: int,
)
    requires
        n <= user.len(),
        all_distinct(raw_names(machine)),
        0 <= i < machine.len(),
        0 <= j < user.len(),
        same_ignoring_case(machine[i].0, seq!['P', 'A', 'T', 'H']),
        same_ignoring_case(user[j].0, seq!['P', 'A', 'T', 'H']),
        forall|k: int|
            0 <= k < user.len() && k != j ==> !same_ignoring_case(
                (#[trigger] user[k]).0,
                seq!['P', 'A', 'T', 'H'],
            ),
    ensures
        ({
            let m = merged_raw(machine, user.take(n as int));
            &&& i < m.len()
            &&& m[i] == (if j < n {
                (
                    machine[i].0,
                    joined_path(machine[i].1, user[j].1),
                    machine[i].2 || user[j].2,
                )
            } else {
                machine[i]
            })
        }),
    decreases n,
{
    let path = seq!['P', 'A', 'T', 'H'];
    if n > 0 {
        let t = user.take(n as int);
        let d = user.take(n - 1);
        assert(t.drop_last() =~= d);
        let u = user[n - 1];
        assert(t.last() == u);
        lemma_path_entry(machine, user, (n - 1) as nat, i, j);
        crate::session::env::lemma_merged_distinct(machine, d);
        let m = merged_raw(machine, d);
        let names = raw_names(m);
        assert(names[i] == machine[i].0);
        lemma_name_index(names, u.0);
        let k = name_index(names, u.0);
        if n - 1 == j {
            law_case_does_not_matter(u.0, path, machine[i].0);
            law_case_does_not_matter(machine[i].0, path, u.0);
            lemma_place(names, u.0, i);
            law_joined_path_is_expanded_where_either_is(m, u);
        } else {
            law_user_value_says_whether_it_is_expanded(m, u);
            if k == i {
                law_case_does_not_matter(names[i], u.0, path);
                law_case_does_not_matter(u.0, names[i], path);
                assert(!same_ignoring_case(user[n - 1].0, path));
            }
        }
    } else {
        assert(user.take(0) =~= Seq::<RawView>::empty());
    }
}

/// Text before the first `%` stands for itself, a `%NAME%` for its value, and
/// what follows is expanded by itself: no value is expanded twice.
pub proof fn law_token_stands_for_its_value(
    a: Seq<char>,
    n: Seq<char>,
    rest: Seq<char>,
    m: Seq<RawView>,
    process: EnvView,
)
    requires
        !a.contains('%'),
        !n.contains('%'),
    ensures
        ({
            let token = seq!['%'] + n + seq!['%'];
            let value = token_value(m, process, n);
            let r = expanded(a + token + rest, m, process);
            &&& value is Some && n.len() > 0 ==> r == a + value->0 + expanded(rest, m, process)
            &&& value is None || n.len() == 0 ==> r == a + token + expanded(rest, m, process)
        }),
        expanded(a + seq!['%'] + n, m, process) == a + seq!['%'] + n,
{
    let token = seq!['%'] + n + seq!['%'];
    let s = a + token + rest;
    reveal_strlit("%");
    assert("%"@ =~= seq!['%']);
    lemma_find(s, '%');
    let k = find(s, '%');
    assert(s[a.len() as int] == '%');
    if k < a.len() {
        assert(a.contains(a[k]));
        assert(s[k] == a[k]);
    }
    assert(k == a.len());
    let after = s.skip(k + 1);
    assert(after =~= n + seq!['%'] + rest);
    lemma_find(after, '%');
    let e = find(after, '%');
    assert(after[n.len() as int] == '%');
    if e < n.len() {
        assert(n.contains(n[e]));
        assert(after[e] == n[e]);
    }
    assert(e == n.len());
    assert(s.take(k) =~= a);
    assert(after.take(e) =~= n);
    assert(after.skip(e + 1) =~= rest);
    assert("%"@ + n + "%"@ =~= token);
    let t = a + seq!['%'] + n;
    lemma_find(t, '%');
    let k2 = find(t, '%');
    assert(t[a.len() as int] == '%');
    if k2 < a.len() {
        assert(a.contains(a[k2]));
        assert(t[k2] == a[k2]);
    }
    let after2 = t.skip(k2 + 1);
    assert(after2 =~= n);
    lemma_find(after2, '%');
    if find(after2, '%') < n.len() {
        assert(n.contains(n[find(after2, '%')]));
    }
}

/// A token's value is the registry's where that has its name in any case, and
/// else the process's.
pub proof fn law_token_value_is_the_registrys_first(
    m: Seq<RawView>,
    process: EnvView,
    n: Seq<char>,
    i: int,
    j: int,
)
    requires
        all_distinct(raw_names(m)),
        all_distinct(assoc_keys(process)),
    ensures
        0 <= i < m.len() && same_ignoring_case(m[i].0, n) ==> token_value(m, process, n) == Some(
            m[i].1,
        ),
        !named(raw_names(m), n) && 0 <= j < process.len() && same_ignoring_case(process[j].0, n)
            ==> token_value(m, process, n) == Some(process[j].1),
        !named(raw_names(m), n) && !named(assoc_keys(process), n) ==> token_value(m, process, n)
            is None,
{
    if 0 <= i < m.len() && same_ignoring_case(m[i].0, n) {
        assert(raw_names(m)[i] == m[i].0);
        lemma_place(raw_names(m), n, i);
    }
    if 0 <= j < process.len() && same_ignoring_case(process[j].0, n) {
        assert(assoc_keys(process)[j] == process[j].0);
        lemma_place(assoc_keys(process), n, j);
    }
}

} // verus!
