//! Key names of `send-keys`.

use crate::text::{bytes_of, chars_of, same, string_of};
use vstd::prelude::*;
use vstd::slice::*;
use vstd::utf8::*;

verus! {

/// The bytes of a key without modifiers: what the name stands for, or the name
/// itself where it is none we know.
pub open spec fn named_key(name: Seq<char>) -> Seq<u8> {
    if name == "Enter"@ || name == "C-m"@ || name == "CR"@ {
        seq![0x0d]
    } else if name == "Tab"@ {
        seq![0x09]
    } else if name == "BTab"@ {
        seq![0x1b, 0x5b, 0x5a]
    } else if name == "Escape"@ || name == "Esc"@ {
        seq![0x1b]
    } else if name == "Space"@ {
        seq![0x20]
    } else if name == "BSpace"@ {
        seq![0x7f]
    } else if name == "Up"@ {
        seq![0x1b, 0x5b, 0x41]
    } else if name == "Down"@ {
        seq![0x1b, 0x5b, 0x42]
    } else if name == "Right"@ {
        seq![0x1b, 0x5b, 0x43]
    } else if name == "Left"@ {
        seq![0x1b, 0x5b, 0x44]
    } else if name == "Home"@ {
        seq![0x1b, 0x5b, 0x48]
    } else if name == "End"@ {
        seq![0x1b, 0x5b, 0x46]
    } else if name == "PageUp"@ || name == "PPage"@ {
        seq![0x1b, 0x5b, 0x35, 0x7e]
    } else if name == "PageDown"@ || name == "NPage"@ || name == "PgDn"@ {
        seq![0x1b, 0x5b, 0x36, 0x7e]
    } else if name == "Insert"@ || name == "IC"@ {
        seq![0x1b, 0x5b, 0x32, 0x7e]
    } else if name == "Delete"@ || name == "DC"@ {
        seq![0x1b, 0x5b, 0x33, 0x7e]
    } else {
        function_key(name)
    }
}

/// The bytes of a function key, or the name itself.
pub open spec fn function_key(name: Seq<char>) -> Seq<u8> {
    if name == "F1"@ {
        seq![0x1b, 0x4f, 0x50]
    } else if name == "F2"@ {
        seq![0x1b, 0x4f, 0x51]
    } else if name == "F3"@ {
        seq![0x1b, 0x4f, 0x52]
    } else if name == "F4"@ {
        seq![0x1b, 0x4f, 0x53]
    } else if name == "F5"@ {
        seq![0x1b, 0x5b, 0x31, 0x35, 0x7e]
    } else if name == "F6"@ {
        seq![0x1b, 0x5b, 0x31, 0x37, 0x7e]
    } else if name == "F7"@ {
        seq![0x1b, 0x5b, 0x31, 0x38, 0x7e]
    } else if name == "F8"@ {
        seq![0x1b, 0x5b, 0x31, 0x39, 0x7e]
    } else if name == "F9"@ {
        seq![0x1b, 0x5b, 0x32, 0x30, 0x7e]
    } else if name == "F10"@ {
        seq![0x1b, 0x5b, 0x32, 0x31, 0x7e]
    } else if name == "F11"@ {
        seq![0x1b, 0x5b, 0x32, 0x33, 0x7e]
    } else if name == "F12"@ {
        seq![0x1b, 0x5b, 0x32, 0x34, 0x7e]
    } else {
        encode_utf8(name)
    }
}

/// Whether a name begins with the modifier `lower` (or `upper`) and a dash.
pub open spec fn modified_by(s: Seq<char>, lower: char, upper: char) -> bool {
    s.len() >= 2 && s[1] == '-' && (s[0] == lower || s[0] == upper)
}

/// Whether a name begins with a modifier: `C-`, `M-` or `S-`, in either case.
pub open spec fn modified(s: Seq<char>) -> bool {
    modified_by(s, 'c', 'C') || modified_by(s, 'm', 'M') || modified_by(s, 's', 'S')
}

/// A name without its modifiers.
pub open spec fn base_key(s: Seq<char>) -> Seq<char>
    decreases s.len(),
{
    if modified(s) {
        base_key(s.skip(2))
    } else {
        s
    }
}

/// Whether one of the modifiers of a name is `lower` (or `upper`).
pub open spec fn has_modifier(s: Seq<char>, lower: char, upper: char) -> bool
    decreases s.len(),
{
    modified(s) && (modified_by(s, lower, upper) || has_modifier(s.skip(2), lower, upper))
}

/// An ASCII letter in upper case; any other byte as it is.
pub open spec fn upper_byte(b: u8) -> u8 {
    if 0x61 <= b <= 0x7a {
        (b - 0x20) as u8
    } else {
        b
    }
}

/// The bytes of a key with Ctrl held: a single byte whose upper case is `@`, a
/// letter or one of `[ \ ] ^ _` becomes the control byte of its low five bits,
/// and `?` becomes DEL.
pub open spec fn with_ctrl(key: Seq<u8>) -> Seq<u8> {
    if key.len() == 1 && 0x40 <= upper_byte(key[0]) <= 0x5f {
        seq![(upper_byte(key[0]) % 32) as u8]
    } else if key == seq![0x3fu8] {
        seq![0x7f]
    } else {
        key
    }
}

/// The bytes that a `send-keys` key name stands for.
pub open spec fn key_bytes(name: Seq<char>) -> Seq<u8> {
    let base = base_key(name);
    let ctrl = has_modifier(name, 'c', 'C');
    let meta = has_modifier(name, 'm', 'M');
    if base.len() == 0 {
        Seq::empty()
    } else if ctrl || meta {
        let key = if ctrl {
            with_ctrl(named_key(base))
        } else {
            named_key(base)
        };
        if meta {
            seq![0x1bu8] + key
        } else {
            key
        }
    } else {
        named_key(name)
    }
}

fn function_key_bytes(name: &str) -> (r: Vec<u8>)
    ensures
        r@ == function_key(name@),
{
    if same(name, "F1") {
        vec![0x1b, 0x4f, 0x50]
    } else if same(name, "F2") {
        vec![0x1b, 0x4f, 0x51]
    } else if same(name, "F3") {
        vec![0x1b, 0x4f, 0x52]
    } else if same(name, "F4") {
        vec![0x1b, 0x4f, 0x53]
    } else if same(name, "F5") {
        vec![0x1b, 0x5b, 0x31, 0x35, 0x7e]
    } else if same(name, "F6") {
        vec![0x1b, 0x5b, 0x31, 0x37, 0x7e]
    } else if same(name, "F7") {
        vec![0x1b, 0x5b, 0x31, 0x38, 0x7e]
    } else if same(name, "F8") {
        vec![0x1b, 0x5b, 0x31, 0x39, 0x7e]
    } else if same(name, "F9") {
        vec![0x1b, 0x5b, 0x32, 0x30, 0x7e]
    } else if same(name, "F10") {
        vec![0x1b, 0x5b, 0x32, 0x31, 0x7e]
    } else if same(name, "F11") {
        vec![0x1b, 0x5b, 0x32, 0x33, 0x7e]
    } else if same(name, "F12") {
        vec![0x1b, 0x5b, 0x32, 0x34, 0x7e]
    } else {
        bytes_of(name)
    }
}

fn named_key_bytes(name: &str) -> (r: Vec<u8>)
    ensures
        r@ == named_key(name@),
{
    if same(name, "Enter") || same(name, "C-m") || same(name, "CR") {
        vec![0x0d]
    } else if same(name, "Tab") {
        vec![0x09]
    } else if same(name, "BTab") {
        vec![0x1b, 0x5b, 0x5a]
    } else if same(name, "Escape") || same(name, "Esc") {
        vec![0x1b]
    } else if same(name, "Space") {
        vec![0x20]
    } else if same(name, "BSpace") {
        vec![0x7f]
    } else if same(name, "Up") {
        vec![0x1b, 0x5b, 0x41]
    } else if same(name, "Down") {
        vec![0x1b, 0x5b, 0x42]
    } else if same(name, "Right") {
        vec![0x1b, 0x5b, 0x43]
    } else if same(name, "Left") {
        vec![0x1b, 0x5b, 0x44]
    } else if same(name, "Home") {
        vec![0x1b, 0x5b, 0x48]
    } else if same(name, "End") {
        vec![0x1b, 0x5b, 0x46]
    } else if same(name, "PageUp") || same(name, "PPage") {
        vec![0x1b, 0x5b, 0x35, 0x7e]
    } else if same(name, "PageDown") || same(name, "NPage") || same(name, "PgDn") {
        vec![0x1b, 0x5b, 0x36, 0x7e]
    } else if same(name, "Insert") || same(name, "IC") {
        vec![0x1b, 0x5b, 0x32, 0x7e]
    } else if same(name, "Delete") || same(name, "DC") {
        vec![0x1b, 0x5b, 0x33, 0x7e]
    } else {
        function_key_bytes(name)
    }
}

/// Translates one `send-keys` key name into the bytes a pty expects.
///
/// Where Ctrl or Meta is among the modifiers of a name, all of them are stripped
/// and the two are applied together, so `C-M-a` is ESC and then 0x01, and Shift
/// changes nothing. A name with Shift alone is sent whole, as literal text, as is
/// a name that is not known; modifiers with no key behind them send nothing.
/// There is no name that is refused.
pub fn key_name_to_bytes(name: &str) -> (r: Result<Vec<u8>, String>)
    ensures
        r matches Ok(v) && v@ == key_bytes(name@),
{
    let chars = chars_of(name);
    let mut i: usize = 0;
    let mut ctrl = false;
    let mut meta = false;
    assert(name@.skip(0) =~= name@);
    while chars.len() - i >= 2 && chars[i + 1] == '-' && (chars[i] == 'c' || chars[i] == 'C'
        || chars[i] == 'm' || chars[i] == 'M' || chars[i] == 's' || chars[i] == 'S')
        invariant
            i <= chars@.len(),
            chars@ == name@,
            base_key(name@) == base_key(name@.skip(i as int)),
            has_modifier(name@, 'c', 'C') == (ctrl || has_modifier(name@.skip(i as int), 'c', 'C')),
            has_modifier(name@, 'm', 'M') == (meta || has_modifier(name@.skip(i as int), 'm', 'M')),
        decreases chars.len() - i,
    {
        let ghost s = name@.skip(i as int);
        assert(s[0] == chars@[i as int] && s[1] == chars@[i + 1]);
        assert(s.skip(2) =~= name@.skip(i + 2));
        if chars[i] == 'c' || chars[i] == 'C' {
            ctrl = true;
        } else if chars[i] == 'm' || chars[i] == 'M' {
            meta = true;
        }
        i = i + 2;
    }
    proof {
        let s = name@.skip(i as int);
        if s.len() >= 2 {
            assert(s[0] == chars@[i as int] && s[1] == chars@[i + 1]);
        }
        assert(!modified(s));
        assert(base_key(name@) == s);
    }
    if i == chars.len() {
        return Ok(Vec::new());
    }
    if !ctrl && !meta {
        return Ok(named_key_bytes(name));
    }
    let tail = slice_subrange(chars.as_slice(), i, chars.len());
    assert(tail@ =~= name@.skip(i as int));
    let base = string_of(tail);
    let mut inner = named_key_bytes(base.as_str());
    if ctrl && inner.len() == 1 {
        let b: u8 = inner[0];
        let c: u8 = if 0x61 <= b && b <= 0x7a {
            b - 0x20
        } else {
            b
        };
        if 0x40 <= c && c <= 0x5f {
            inner = vec![c % 32];
        } else if c == 0x3f {
            assert(inner@ =~= seq![0x3fu8]);
            inner = vec![0x7f];
        }
    }
    if meta {
        let ghost key = inner@;
        let mut v: Vec<u8> = vec![0x1b];
        v.append(&mut inner);
        assert(v@ =~= seq![0x1bu8] + key);
        return Ok(v);
    }
    Ok(inner)
}

} // verus!
