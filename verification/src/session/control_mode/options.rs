//! The store of tmux user options (`@name`).
//!
//! User options are scratch space of the client: it writes them and reads them
//! back. An option is known by its scope and its name.

use crate::text::{is_less, lemma_less_total, lemma_less_transitive, less, owned, same};
use vstd::prelude::*;

verus! {

/// One option: its scope, its name and its value.
#[verifier::ext_equal]
pub struct OptionView {
    pub scope: Seq<char>,
    pub name: Seq<char>,
    pub value: Seq<char>,
}

/// Whether `o` is the option `name` of `scope`.
pub open spec fn keyed(o: OptionView, scope: Seq<char>, name: Seq<char>) -> bool {
    o.scope == scope && o.name == name
}

/// Whether the option `name` of `scope` comes before `o`: by scope, then by name.
pub open spec fn key_before(scope: Seq<char>, name: Seq<char>, o: OptionView) -> bool {
    less(scope, o.scope) || (scope == o.scope && less(name, o.name))
}

/// The value of the option `name` of `scope`.
pub open spec fn option_get(s: Seq<OptionView>, scope: Seq<char>, name: Seq<char>) -> Option<
    Seq<char>,
>
    decreases s.len(),
{
    if s.len() == 0 {
        None
    } else if keyed(s[0], scope, name) {
        Some(s[0].value)
    } else {
        option_get(s.skip(1), scope, name)
    }
}

/// The store with the option `name` of `scope` set to `value`, at its place.
pub open spec fn option_put(
    s: Seq<OptionView>,
    scope: Seq<char>,
    name: Seq<char>,
    value: Seq<char>,
) -> Seq<OptionView>
    decreases s.len(),
{
    let o = OptionView { scope, name, value };
    if s.len() == 0 {
        seq![o]
    } else if keyed(s[0], scope, name) {
        seq![o] + s.skip(1)
    } else if key_before(scope, name, s[0]) {
        seq![o] + s
    } else {
        seq![s[0]] + option_put(s.skip(1), scope, name, value)
    }
}

/// The store without the option `name` of `scope`.
pub open spec fn option_remove(s: Seq<OptionView>, scope: Seq<char>, name: Seq<char>) -> Seq<
    OptionView,
>
    decreases s.len(),
{
    if s.len() == 0 {
        s
    } else if keyed(s[0], scope, name) {
        s.skip(1)
    } else {
        seq![s[0]] + option_remove(s.skip(1), scope, name)
    }
}

/// Whether the options are in order, none twice.
pub open spec fn ordered(s: Seq<OptionView>) -> bool {
    forall|i: int, j: int|
        0 <= i < j < s.len() ==> key_before(
            (#[trigger] s[i]).scope,
            s[i].name,
            #[trigger] s[j],
        )
}

/// An option that was set is read back with the value it was set to, and
/// setting it changes no other option.
pub proof fn law_option_reads_back(
    s: Seq<OptionView>,
    scope: Seq<char>,
    name: Seq<char>,
    value: Seq<char>,
    other_scope: Seq<char>,
    other_name: Seq<char>,
)
    ensures
        option_get(option_put(s, scope, name, value), scope, name) == Some(value),
        !(other_scope == scope && other_name == name) ==> option_get(
            option_put(s, scope, name, value),
            other_scope,
            other_name,
        ) == option_get(s, other_scope, other_name),
    decreases s.len(),
{
    let o = OptionView { scope, name, value };
    let t = option_put(s, scope, name, value);
    if s.len() == 0 {
        assert(t.skip(1) =~= s);
    } else if keyed(s[0], scope, name) {
        assert(t.skip(1) =~= s.skip(1));
    } else if key_before(scope, name, s[0]) {
        assert(t.skip(1) =~= s);
    } else {
        law_option_reads_back(s.skip(1), scope, name, value, other_scope, other_name);
        assert(t.skip(1) =~= option_put(s.skip(1), scope, name, value));
    }
}

/// An option that was removed is not set any more, and removing it changes no
/// other option.
pub proof fn law_removed_option_is_unset(
    s: Seq<OptionView>,
    scope: Seq<char>,
    name: Seq<char>,
    other_scope: Seq<char>,
    other_name: Seq<char>,
)
    requires
        ordered(s),
    ensures
        option_get(option_remove(s, scope, name), scope, name) is None,
        !(other_scope == scope && other_name == name) ==> option_get(
            option_remove(s, scope, name),
            other_scope,
            other_name,
        ) == option_get(s, other_scope, other_name),
    decreases s.len(),
{
    let t = option_remove(s, scope, name);
    if s.len() > 0 {
        let u = s.skip(1);
        assert(ordered(u)) by {
            assert forall|i: int, j: int| 0 <= i < j < u.len() implies key_before(
                (#[trigger] u[i]).scope,
                u[i].name,
                #[trigger] u[j],
            ) by {
                assert(u[i] == s[i + 1] && u[j] == s[j + 1]);
            }
        }
        if keyed(s[0], scope, name) {
            assert forall|k: int| 0 <= k < u.len() implies !keyed(#[trigger] u[k], scope, name) by {
                assert(u[k] == s[k + 1]);
                assert(key_before(s[0].scope, s[0].name, s[k + 1]));
                lemma_less_total(scope, scope);
                lemma_less_total(name, name);
            }
            lemma_absent(u, scope, name);
        } else {
            law_removed_option_is_unset(u, scope, name, other_scope, other_name);
            assert(t.skip(1) =~= option_remove(u, scope, name));
        }
    }
}

proof fn lemma_absent(s: Seq<OptionView>, scope: Seq<char>, name: Seq<char>)
    requires
        forall|k: int| 0 <= k < s.len() ==> !keyed(#[trigger] s[k], scope, name),
    ensures
        option_get(s, scope, name) is None,
    decreases s.len(),
{
    if s.len() > 0 {
        let u = s.skip(1);
        assert(!keyed(s[0], scope, name));
        assert forall|k: int| 0 <= k < u.len() implies !keyed(#[trigger] u[k], scope, name) by {
            assert(u[k] == s[k + 1]);
        }
        lemma_absent(u, scope, name);
    }
}

proof fn lemma_put_members(
    s: Seq<OptionView>,
    scope: Seq<char>,
    name: Seq<char>,
    value: Seq<char>,
    k: int,
)
    requires
        0 <= k < option_put(s, scope, name, value).len(),
    ensures
        ({
            let o = option_put(s, scope, name, value)[k];
            keyed(o, scope, name) || s.contains(o)
        }),
    decreases s.len(),
{
    let t = option_put(s, scope, name, value);
    if s.len() > 0 {
        if keyed(s[0], scope, name) {
            if k > 0 {
                assert(t[k] == s[k]);
            }
        } else if key_before(scope, name, s[0]) {
            if k > 0 {
                assert(t[k] == s[k - 1]);
            }
        } else if k > 0 {
            let u = s.skip(1);
            lemma_put_members(u, scope, name, value, k - 1);
            let o = t[k];
            assert(o == option_put(u, scope, name, value)[k - 1]);
            if u.contains(o) {
                let m = choose|m: int| 0 <= m < u.len() && u[m] == o;
                assert(s[m + 1] == o);
            }
        } else {
            assert(t[0] == s[0]);
        }
    }
}

proof fn lemma_remove_members(s: Seq<OptionView>, scope: Seq<char>, name: Seq<char>, k: int)
    requires
        0 <= k < option_remove(s, scope, name).len(),
    ensures
        s.contains(option_remove(s, scope, name)[k]),
    decreases s.len(),
{
    let t = option_remove(s, scope, name);
    if s.len() > 0 {
        let u = s.skip(1);
        if keyed(s[0], scope, name) {
            assert(t[k] == s[k + 1]);
        } else if k > 0 {
            lemma_remove_members(u, scope, name, k - 1);
            let o = t[k];
            assert(o == option_remove(u, scope, name)[k - 1]);
            let m = choose|m: int| 0 <= m < u.len() && u[m] == o;
            assert(s[m + 1] == o);
        } else {
            assert(t[0] == s[0]);
        }
    }
}

proof fn lemma_before_transitive(a: OptionView, b: OptionView, c: OptionView)
    requires
        key_before(a.scope, a.name, b),
        key_before(b.scope, b.name, c),
    ensures
        key_before(a.scope, a.name, c),
{
    if less(a.scope, b.scope) && less(b.scope, c.scope) {
        lemma_less_transitive(a.scope, b.scope, c.scope);
    }
    if less(a.name, b.name) && less(b.name, c.name) {
        lemma_less_transitive(a.name, b.name, c.name);
    }
}

proof fn lemma_tail_ordered(s: Seq<OptionView>)
    requires
        ordered(s),
        s.len() > 0,
    ensures
        ordered(s.skip(1)),
{
    let u = s.skip(1);
    assert forall|i: int, j: int| 0 <= i < j < u.len() implies key_before(
        (#[trigger] u[i]).scope,
        u[i].name,
        #[trigger] u[j],
    ) by {
        assert(u[i] == s[i + 1] && u[j] == s[j + 1]);
    }
}

/// Setting and removing options keeps them in order.
pub proof fn law_options_stay_ordered(
    s: Seq<OptionView>,
    scope: Seq<char>,
    name: Seq<char>,
    value: Seq<char>,
)
    requires
        ordered(s),
    ensures
        ordered(option_put(s, scope, name, value)),
        ordered(option_remove(s, scope, name)),
    decreases s.len(),
{
    if s.len() > 0 {
        let u = s.skip(1);
        lemma_tail_ordered(s);
        law_options_stay_ordered(u, scope, name, value);
        let o = OptionView { scope, name, value };
        let p = option_put(s, scope, name, value);
        assert forall|i: int, j: int| 0 <= i < j < p.len() implies key_before(
            (#[trigger] p[i]).scope,
            p[i].name,
            #[trigger] p[j],
        ) by {
            if keyed(s[0], scope, name) {
                if i == 0 {
                    assert(key_before(s[0].scope, s[0].name, s[j]));
                } else {
                    assert(key_before(s[i].scope, s[i].name, s[j]));
                }
            } else if key_before(scope, name, s[0]) {
                if i == 0 {
                    if j > 1 {
                        assert(key_before(s[0].scope, s[0].name, s[j - 1]));
                        lemma_before_transitive(o, s[0], s[j - 1]);
                    }
                } else {
                    assert(key_before(s[i - 1].scope, s[i - 1].name, s[j - 1]));
                }
            } else {
                let q = option_put(u, scope, name, value);
                assert(p =~= seq![s[0]] + q);
                if i > 0 {
                    assert(key_before(q[i - 1].scope, q[i - 1].name, q[j - 1]));
                } else {
                    lemma_put_members(u, scope, name, value, j - 1);
                    let x = q[j - 1];
                    if u.contains(x) {
                        let m = choose|m: int| 0 <= m < u.len() && u[m] == x;
                        assert(key_before(s[0].scope, s[0].name, s[m + 1]));
                    } else {
                        lemma_less_total(scope, s[0].scope);
                        lemma_less_total(name, s[0].name);
                    }
                }
            }
        }
        let r = option_remove(s, scope, name);
        if !keyed(s[0], scope, name) {
            let q = option_remove(u, scope, name);
            assert(r =~= seq![s[0]] + q);
            assert forall|i: int, j: int| 0 <= i < j < r.len() implies key_before(
                (#[trigger] r[i]).scope,
                r[i].name,
                #[trigger] r[j],
            ) by {
                if i > 0 {
                    assert(key_before(q[i - 1].scope, q[i - 1].name, q[j - 1]));
                } else {
                    lemma_remove_members(u, scope, name, j - 1);
                    let x = q[j - 1];
                    let m = choose|m: int| 0 <= m < u.len() && u[m] == x;
                    assert(key_before(s[0].scope, s[0].name, s[m + 1]));
                }
            }
        }
    }
}

/// One stored option.
pub struct StoredOption {
    pub scope: String,
    pub name: String,
    pub value: String,
}

impl View for StoredOption {
    type V = OptionView;

    open spec fn view(&self) -> OptionView {
        OptionView { scope: self.scope@, name: self.name@, value: self.value@ }
    }
}

/// The user options a client has stored, in order of scope and name.
pub struct OptionStore {
    pub entries: Vec<StoredOption>,
}

impl View for OptionStore {
    type V = Seq<OptionView>;

    open spec fn view(&self) -> Seq<OptionView> {
        Seq::new(self.entries@.len(), |i: int| self.entries@[i]@)
    }
}

impl OptionStore {
    /// A store of no options.
    pub fn new() -> (r: OptionStore)
        ensures
            r@ == Seq::<OptionView>::empty(),
    {
        let r = OptionStore { entries: Vec::new() };
        assert(r@ =~= Seq::<OptionView>::empty());
        r
    }

    /// The value of the option `name` of `scope`.
    pub fn get(&self, scope: &str, name: &str) -> (r: Option<&str>)
        ensures
            match r {
                Some(v) => option_get(self@, scope@, name@) == Some(v@),
                None => option_get(self@, scope@, name@) is None,
            },
    {
        let mut i: usize = 0;
        assert(self@.skip(0) =~= self@);
        while i < self.entries.len()
            invariant
                i <= self.entries@.len(),
                option_get(self@, scope@, name@) == option_get(
                    self@.skip(i as int),
                    scope@,
                    name@,
                ),
            decreases self.entries.len() - i,
        {
            let e = &self.entries[i];
            assert(self@.skip(i as int)[0] == e@);
            assert(self@.skip(i as int).skip(1) =~= self@.skip(i + 1));
            if same(e.scope.as_str(), scope) && same(e.name.as_str(), name) {
                return Some(e.value.as_str());
            }
            i = i + 1;
        }
        None
    }

    /// Sets the option `name` of `scope` to `value`.
    pub fn put(&mut self, scope: &str, name: &str, value: String)
        ensures
            final(self)@ == option_put(old(self)@, scope@, name@, value@),
    {
        let ghost before = self@;
        let ghost o = OptionView { scope: scope@, name: name@, value: value@ };
        let mut i: usize = 0;
        proof {
            assert(self@.skip(0) =~= self@);
            assert(self@.take(0) + option_put(self@, scope@, name@, value@) =~= option_put(
                self@,
                scope@,
                name@,
                value@,
            ));
        }
        while i < self.entries.len()
            invariant
                i <= self.entries@.len(),
                self@ == before,
                before == old(self)@,
                o == (OptionView { scope: scope@, name: name@, value: value@ }),
                option_put(before, scope@, name@, value@) == before.take(i as int) + option_put(
                    before.skip(i as int),
                    scope@,
                    name@,
                    value@,
                ),
            decreases self.entries.len() - i,
        {
            let e = &self.entries[i];
            let ghost rest = before.skip(i as int);
            assert(rest[0] == e@);
            assert(rest.skip(1) =~= before.skip(i + 1));
            let same_scope = same(e.scope.as_str(), scope);
            if same_scope && same(e.name.as_str(), name) {
                let entry = StoredOption { scope: owned(scope), name: owned(name), value };
                assert(entry@ == o);
                self.entries.set(i, entry);
                assert(self@ =~= before.take(i as int) + (seq![o] + rest.skip(1)));
                return;
            }
            if is_less(scope, e.scope.as_str()) || (same_scope && is_less(name, e.name.as_str())) {
                let entry = StoredOption { scope: owned(scope), name: owned(name), value };
                assert(entry@ == o);
                self.entries.insert(i, entry);
                assert(self@ =~= before.take(i as int) + (seq![o] + rest));
                return;
            }
            assert(before.take(i as int) + (seq![rest[0]] + option_put(
                rest.skip(1),
                scope@,
                name@,
                value@,
            )) =~= before.take(i + 1) + option_put(before.skip(i + 1), scope@, name@, value@));
            i = i + 1;
        }
        let entry = StoredOption { scope: owned(scope), name: owned(name), value };
        self.entries.push(entry);
        assert(self@ =~= before.take(i as int) + seq![o]);
    }

    /// Unsets the option `name` of `scope`.
    pub fn remove(&mut self, scope: &str, name: &str)
        ensures
            final(self)@ == option_remove(old(self)@, scope@, name@),
    {
        let ghost before = self@;
        let mut i: usize = 0;
        proof {
            assert(self@.skip(0) =~= self@);
            assert(self@.take(0) + option_remove(self@, scope@, name@) =~= option_remove(
                self@,
                scope@,
                name@,
            ));
        }
        while i < self.entries.len()
            invariant
                i <= self.entries@.len(),
                self@ == before,
                before == old(self)@,
                option_remove(before, scope@, name@) == before.take(i as int) + option_remove(
                    before.skip(i as int),
                    scope@,
                    name@,
                ),
            decreases self.entries.len() - i,
        {
            let e = &self.entries[i];
            let ghost rest = before.skip(i as int);
            assert(rest[0] == e@);
            assert(rest.skip(1) =~= before.skip(i + 1));
            if same(e.scope.as_str(), scope) && same(e.name.as_str(), name) {
                self.entries.remove(i);
                assert(self@ =~= before.take(i as int) + rest.skip(1));
                return;
            }
            assert(before.take(i as int) + (seq![rest[0]] + option_remove(
                rest.skip(1),
                scope@,
                name@,
            )) =~= before.take(i + 1) + option_remove(before.skip(i + 1), scope@, name@));
            i = i + 1;
        }
        assert(before.take(i as int) + before.skip(i as int) =~= before);
    }
}

} // verus!
