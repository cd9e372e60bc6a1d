//! The durable environment of Windows: the registry's machine and user values.

use crate::session::env::{fresh_merge, merge_fresh_env, raw_views, EnvMap, EnvView, RawVar,
    RawView};
use crate::text::{chars_of, string_of, unit_values, utf16, utf16_lossy, utf16_lossy_text};
use vstd::prelude::*;

verus! {

/// Values that could be read, or none.
pub open spec fn raw_opt(o: Option<Vec<RawVar>>) -> Option<Seq<RawView>> {
    match o {
        Some(v) => Some(raw_views(v@)),
        None => None,
    }
}

/// Values that could be read; no values where they could not.
pub open spec fn raw_or_none(o: Option<Seq<RawView>>) -> Seq<RawView> {
    match o {
        Some(v) => v,
        None => Seq::empty(),
    }
}

/// The merge of what the registry holds, or the process's own environment where
/// neither key could be read.
pub open spec fn registry_or_process(
    machine: Option<Seq<RawView>>,
    user: Option<Seq<RawView>>,
    process: EnvView,
) -> EnvView {
    if machine is None && user is None {
        process
    } else {
        fresh_merge(raw_or_none(machine), raw_or_none(user), process)
    }
}

/// Merges what was read of the registry over the process's environment.
pub fn merged_or_process(
    machine: &Option<Vec<RawVar>>,
    user: &Option<Vec<RawVar>>,
    process: EnvMap,
) -> (r: EnvMap)
    ensures
        r@ == registry_or_process(raw_opt(*machine), raw_opt(*user), process@),
{
    let none: Vec<RawVar> = Vec::new();
    assert(raw_views(none@) =~= Seq::<RawView>::empty());
    match (machine, user) {
        (None, None) => process,
        (Some(m), Some(u)) => merge_fresh_env(m.as_slice(), u.as_slice(), &process),
        (Some(m), None) => merge_fresh_env(m.as_slice(), none.as_slice(), &process),
        (None, Some(u)) => merge_fresh_env(none.as_slice(), u.as_slice(), &process),
    }
}

// ---------------------------------------------------------------------------
// Reading a registry key
// ---------------------------------------------------------------------------

/// The call succeeded.
pub const ERROR_SUCCESS: i32 = 0;

/// The buffer for the data was too small.
pub const ERROR_MORE_DATA: i32 = 234;

/// A plain string.
pub const REG_SZ: u32 = 1;

/// A string with `%NAME%` tokens.
pub const REG_EXPAND_SZ: u32 = 2;

/// How large the buffer for the data is at first, in bytes.
pub const FIRST_CAPACITY: usize = 32768;

/// The code units of data in little-endian order; a byte too many is dropped.
pub open spec fn le_units(data: Seq<u8>) -> Seq<u16> {
    Seq::new(data.len() / 2, |i: int| (data[2 * i] + 256 * data[2 * i + 1]) as u16)
}

/// A string without the NULs at its end.
pub open spec fn without_nuls(s: Seq<char>) -> Seq<char>
    decreases s.len(),
{
    if s.len() > 0 && s.last() == '\0' {
        without_nuls(s.drop_last())
    } else {
        s
    }
}

/// The variable of a registry value whose name and data read as `name` and
/// `text`: a string with a name. Any other value is none.
pub open spec fn text_var(vtype: u32, name: Seq<char>, text: Seq<char>) -> Option<RawView> {
    if (vtype != REG_SZ && vtype != REG_EXPAND_SZ) || name.len() == 0 {
        None
    } else {
        Some((name, without_nuls(text), vtype == REG_EXPAND_SZ))
    }
}

/// The variable of a registry value, its name and its data decoded.
pub open spec fn registry_var(vtype: u32, name: Seq<u16>, data: Seq<u8>) -> Option<RawView> {
    text_var(vtype, utf16_lossy_text(name), utf16_lossy_text(le_units(data)))
}

/// Whether a registry value gives the variable of the strings that its name and
/// its data are the UTF-16 of, where they are UTF-16.
pub open spec fn reads_as_text(vtype: u32, name: Seq<u16>, data: Seq<u8>) -> bool {
    forall|n: Seq<char>, t: Seq<char>|
        #![trigger utf16(n), utf16(t)]
        utf16(n) == unit_values(name) && utf16(t) == unit_values(le_units(data)) ==> registry_var(
            vtype,
            name,
            data,
        ) == text_var(vtype, n, t)
}

fn units_of(data: &[u8]) -> (r: Vec<u16>)
    ensures
        r@ == le_units(data@),
{
    let len: usize = data.len();
    let n: usize = len / 2;
    let mut out: Vec<u16> = Vec::new();
    let mut i: usize = 0;
    while i < n
        invariant
            i <= n,
            len == data@.len(),
            n == len / 2,
            out@.len() == i,
            forall|j: int| 0 <= j < i ==> #[trigger] out@[j] == le_units(data@)[j],
        decreases n - i,
    {
        assert(2 * i + 1 < len);
        out.push(data[2 * i] as u16 + 256 * data[2 * i + 1] as u16);
        i = i + 1;
    }
    assert(out@ =~= le_units(data@));
    out
}

fn cut_nuls(s: &str) -> (r: String)
    ensures
        r@ == without_nuls(s@),
{
    let chars = chars_of(s);
    let mut n: usize = chars.len();
    assert(s@.take(n as int) =~= s@);
    while n > 0 && chars[n - 1] == '\0'
        invariant
            n <= chars@.len(),
            chars@ == s@,
            without_nuls(s@) == without_nuls(s@.take(n as int)),
        decreases n,
    {
        assert(s@.take(n as int).drop_last() =~= s@.take(n - 1));
        n = n - 1;
    }
    let rest = vstd::slice::slice_subrange(chars.as_slice(), 0, n);
    assert(rest@ =~= s@.take(n as int));
    string_of(rest)
}

/// The variable of a registry value of type `vtype`.
pub fn registry_value(vtype: u32, name: &[u16], data: &[u8]) -> (r: Option<RawVar>)
    ensures
        match r {
            Some(v) => registry_var(vtype, name@, data@) == Some((v.0@, v.1@, v.2)),
            None => registry_var(vtype, name@, data@) is None,
        },
        reads_as_text(vtype, name@, data@),
{
    if vtype != REG_SZ && vtype != REG_EXPAND_SZ {
        return None;
    }
    let n = utf16_lossy(name);
    if n.as_str().is_empty() {
        return None;
    }
    let units = units_of(data);
    let v = cut_nuls(utf16_lossy(units.as_slice()).as_str());
    Some((n, v, vtype == REG_EXPAND_SZ))
}

/// How far the values of a registry key were read: the place of the next one,
/// how large a buffer its data is read into, and the variables so far.
pub struct RegistryScan {
    pub index: u32,
    pub capacity: usize,
    pub vars: Vec<RawVar>,
}

/// How far the values of a registry key were read.
#[verifier::ext_equal]
pub struct ScanView {
    pub index: u32,
    pub capacity: usize,
    pub vars: Seq<RawView>,
}

impl View for RegistryScan {
    type V = ScanView;

    open spec fn view(&self) -> ScanView {
        ScanView { index: self.index, capacity: self.capacity, vars: raw_views(self.vars@) }
    }
}

/// The scan after a read of the value at its place, and whether it goes on. A
/// value that did not fit is read again into a larger buffer; any other failure
/// is the end.
pub open spec fn scanned(
    s: ScanView,
    code: i32,
    vtype: u32,
    name: Seq<u16>,
    data: Seq<u8>,
    needed: usize,
) -> (ScanView, bool) {
    if code == ERROR_MORE_DATA {
        let capacity = if needed >= 2 * s.capacity {
            needed
        } else {
            (2 * s.capacity) as usize
        };
        (ScanView { capacity, ..s }, true)
    } else if code != ERROR_SUCCESS {
        (s, false)
    } else {
        (
            ScanView {
                index: (s.index + 1) as u32,
                vars: match registry_var(vtype, name, data) {
                    Some(v) => s.vars.push(v),
                    None => s.vars,
                },
                ..s
            },
            true,
        )
    }
}

impl RegistryScan {
    /// Nothing is read yet.
    pub fn new() -> (r: RegistryScan)
        ensures
            r@ == (ScanView { index: 0, capacity: FIRST_CAPACITY, vars: Seq::empty() }),
    {
        let r = RegistryScan { index: 0, capacity: FIRST_CAPACITY, vars: Vec::new() };
        assert(raw_views(r.vars@) =~= Seq::<RawView>::empty());
        r
    }

    /// Takes in what a read of the value at `index` came to: the code of the
    /// call, the type, the name and the data, and how much data there is where
    /// it did not fit. Returns whether to read on.
    pub fn take(
        &mut self,
        code: i32,
        vtype: u32,
        name: &[u16],
        data: &[u8],
        needed: usize,
    ) -> (r: bool)
        requires
            code == ERROR_MORE_DATA ==> 2 * old(self)@.capacity <= usize::MAX,
            code == ERROR_SUCCESS ==> old(self)@.index < u32::MAX,
        ensures
            (final(self)@, r) == scanned(old(self)@, code, vtype, name@, data@, needed),
            code == ERROR_SUCCESS ==> reads_as_text(vtype, name@, data@),
    {
        if code == ERROR_MORE_DATA {
            self.capacity = if needed >= 2 * self.capacity {
                needed
            } else {
                2 * self.capacity
            };
            return true;
        }
        if code != ERROR_SUCCESS {
            return false;
        }
        self.index = self.index + 1;
        if let Some(v) = registry_value(vtype, name, data) {
            let ghost before = raw_views(self.vars@);
            let ghost view = (v.0@, v.1@, v.2);
            self.vars.push(v);
            assert(raw_views(self.vars@) =~= before.push(view));
        }
        true
    }
}

/// A value that did not fit is read again: the place stays, no variable is
/// added, and the buffer at least doubles and holds what there is.
pub proof fn law_short_buffer_loses_nothing(
    s: ScanView,
    vtype: u32,
    name: Seq<u16>,
    data: Seq<u8>,
    needed: usize,
)
    requires
        2 * s.capacity <= usize::MAX,
    ensures
        ({
            let (t, more) = scanned(s, ERROR_MORE_DATA, vtype, name, data, needed);
            &&& more
            &&& t.index == s.index
            &&& t.vars == s.vars
            &&& t.capacity >= needed
            &&& t.capacity >= 2 * s.capacity
        }),
{
}

/// Data is read two bytes at a time, the low one first; a byte too many is no
/// unit.
pub proof fn law_low_byte_comes_first(data: Seq<u8>, lo: u8, hi: u8)
    requires
        data.len() % 2 == 0,
    ensures
        le_units(data.push(lo).push(hi)) == le_units(data).push((lo + 256 * hi) as u16),
        le_units(data.push(lo)) == le_units(data),
{
    let d = data.push(lo).push(hi);
    let n = data.len() as int / 2;
    assert(d[2 * n] == lo && d[2 * n + 1] == hi);
    assert(le_units(d) =~= le_units(data).push((lo + 256 * hi) as u16));
    assert(le_units(data.push(lo)) =~= le_units(data));
}

/// Only strings with a name are variables; one is expanded exactly where its
/// type says so, and the NULs at its end are no part of its value.
pub proof fn law_only_named_strings_are_variables(
    vtype: u32,
    name: Seq<char>,
    text: Seq<char>,
    nuls: nat,
)
    ensures
        name.len() == 0 ==> text_var(vtype, name, text) is None,
        vtype != REG_SZ && vtype != REG_EXPAND_SZ ==> text_var(vtype, name, text) is None,
        name.len() > 0 && (text.len() == 0 || text.last() != '\0') ==> text_var(
            REG_SZ,
            name,
            text + Seq::new(nuls, |i: int| '\0'),
        ) == Some((name, text, false)) && text_var(
            REG_EXPAND_SZ,
            name,
            text + Seq::new(nuls, |i: int| '\0'),
        ) == Some((name, text, true)),
    decreases nuls,
{
    let z = Seq::new(nuls, |i: int| '\0');
    let s = text + z;
    if text.len() == 0 || text.last() != '\0' {
        if nuls > 0 {
            let m = (nuls - 1) as nat;
            law_only_named_strings_are_variables(vtype, name, text, m);
            assert(s.drop_last() =~= text + Seq::new(m, |i: int| '\0'));
            assert(s.last() == '\0');
        } else {
            assert(s =~= text);
        }
    }
}

/// The registry counts as soon as one of its keys could be read; the process's
/// own environment counts alone only where neither could.
pub proof fn law_registry_counts_where_it_can_be_read(
    machine: Seq<RawView>,
    user: Seq<RawView>,
    process: EnvView,
)
    ensures
        registry_or_process(None, None, process) == process,
        registry_or_process(Some(machine), Some(user), process) == fresh_merge(
            machine,
            user,
            process,
        ),
        registry_or_process(Some(machine), None, process) == fresh_merge(
            machine,
            Seq::empty(),
            process,
        ),
        registry_or_process(None, Some(user), process) == fresh_merge(
            Seq::empty(),
            user,
            process,
        ),
{
}

/// A scan goes from one value to the next, keeps each variable behind those
/// before it, and ends at the first failure with what it has.
pub proof fn law_scan_keeps_what_it_read(
    s: ScanView,
    code: i32,
    vtype: u32,
    name: Seq<u16>,
    data: Seq<u8>,
    needed: usize,
)
    requires
        s.index < u32::MAX,
    ensures
        ({
            let (t, more) = scanned(s, code, vtype, name, data, needed);
            &&& code == ERROR_SUCCESS ==> more && t.index == s.index + 1 && t.capacity == s.capacity
            &&& code == ERROR_SUCCESS ==> (registry_var(vtype, name, data) matches Some(v)
                ==> t.vars == s.vars.push(v))
            &&& code == ERROR_SUCCESS && registry_var(vtype, name, data) is None ==> t.vars
                == s.vars
            &&& code != ERROR_SUCCESS && code != ERROR_MORE_DATA ==> !more && t == s
        }),
{
}

} // verus!
