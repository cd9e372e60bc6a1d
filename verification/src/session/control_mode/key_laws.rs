//! What holds of key names.

use crate::session::control_mode::keys::{base_key, has_modifier, key_bytes, modified, named_key};
use crate::text::dec;
use vstd::prelude::*;
use vstd::utf8::*;

verus! {

/// The names of keys, letter by letter.
proof fn lemma_key_names()
    ensures
        "Enter"@ == seq!['E', 'n', 't', 'e', 'r'],
        "C-m"@ == seq!['C', '-', 'm'],
        "CR"@ == seq!['C', 'R'],
        "Tab"@ == seq!['T', 'a', 'b'],
        "BTab"@ == seq!['B', 'T', 'a', 'b'],
        "Escape"@ == seq!['E', 's', 'c', 'a', 'p', 'e'],
        "Esc"@ == seq!['E', 's', 'c'],
        "Space"@ == seq!['S', 'p', 'a', 'c', 'e'],
        "BSpace"@ == seq!['B', 'S', 'p', 'a', 'c', 'e'],
        "Up"@ == seq!['U', 'p'],
        "Down"@ == seq!['D', 'o', 'w', 'n'],
        "Right"@ == seq!['R', 'i', 'g', 'h', 't'],
        "Left"@ == seq!['L', 'e', 'f', 't'],
        "Home"@ == seq!['H', 'o', 'm', 'e'],
        "End"@ == seq!['E', 'n', 'd'],
        "PageUp"@ == seq!['P', 'a', 'g', 'e', 'U', 'p'],
        "PPage"@ == seq!['P', 'P', 'a', 'g', 'e'],
        "PageDown"@ == seq!['P', 'a', 'g', 'e', 'D', 'o', 'w', 'n'],
        "NPage"@ == seq!['N', 'P', 'a', 'g', 'e'],
        "PgDn"@ == seq!['P', 'g', 'D', 'n'],
        "Insert"@ == seq!['I', 'n', 's', 'e', 'r', 't'],
        "IC"@ == seq!['I', 'C'],
        "Delete"@ == seq!['D', 'e', 'l', 'e', 't', 'e'],
        "DC"@ == seq!['D', 'C'],
{
    reveal_strlit("Enter");
    reveal_strlit("C-m");
    reveal_strlit("CR");
    reveal_strlit("Tab");
    reveal_strlit("BTab");
    reveal_strlit("Escape");
    reveal_strlit("Esc");
    reveal_strlit("Space");
    reveal_strlit("BSpace");
    reveal_strlit("Up");
    reveal_strlit("Down");
    reveal_strlit("Right");
    reveal_strlit("Left");
    reveal_strlit("Home");
    reveal_strlit("End");
    reveal_strlit("PageUp");
    reveal_strlit("PPage");
    reveal_strlit("PageDown");
    reveal_strlit("NPage");
    reveal_strlit("PgDn");
    reveal_strlit("Insert");
    reveal_strlit("IC");
    reveal_strlit("Delete");
    reveal_strlit("DC");
}

proof fn lemma_function_names()
    ensures
        "F1"@ == seq!['F', '1'],
        "F2"@ == seq!['F', '2'],
        "F3"@ == seq!['F', '3'],
        "F4"@ == seq!['F', '4'],
        "F5"@ == seq!['F', '5'],
        "F6"@ == seq!['F', '6'],
        "F7"@ == seq!['F', '7'],
        "F8"@ == seq!['F', '8'],
        "F9"@ == seq!['F', '9'],
        "F10"@ == seq!['F', '1', '0'],
        "F11"@ == seq!['F', '1', '1'],
        "F12"@ == seq!['F', '1', '2'],
{
    reveal_strlit("F1");
    reveal_strlit("F2");
    reveal_strlit("F3");
    reveal_strlit("F4");
    reveal_strlit("F5");
    reveal_strlit("F6");
    reveal_strlit("F7");
    reveal_strlit("F8");
    reveal_strlit("F9");
    reveal_strlit("F10");
    reveal_strlit("F11");
    reveal_strlit("F12");
}

proof fn lemma_unmodified(name: Seq<char>)
    requires
        name.len() > 0,
        !modified(name),
    ensures
        key_bytes(name) == named_key(name),
        base_key(name) == name,
{
}

/// A single character is the key of its UTF-8 bytes.
pub proof fn law_character_is_its_own_key(c: char)
    ensures
        key_bytes(seq![c]) == encode_utf8(seq![c]),
{
    let s = seq![c];
    lemma_key_names();
    lemma_function_names();
    lemma_unmodified(s);
    assert(s.len() == 1);
    lemma_not_named(s);
}

proof fn lemma_not_named(s: Seq<char>)
    requires
        s.len() == 1,
    ensures
        named_key(s) == encode_utf8(s),
{
    lemma_key_names();
    lemma_function_names();
}

/// The names of the numbered function keys: the first four send ESC, `O` and a
/// letter from `P` on; the others ESC, `[`, a number and `~`, where the numbers
/// run from 15 with 16 and 22 left out.
pub proof fn law_function_keys_are_numbered(k: nat)
    requires
        1 <= k <= 12,
    ensures
        k <= 4 ==> key_bytes(seq!['F'] + dec(k)) == seq![0x1bu8, 0x4f, (0x4f + k) as u8],
        k > 4 ==> ({
            let n: nat = if k == 5 {
                15
            } else if k <= 10 {
                k + 11
            } else {
                k + 12
            };
            key_bytes(seq!['F'] + dec(k)) == seq![
                0x1bu8,
                0x5b,
                (0x30 + n / 10) as u8,
                (0x30 + n % 10) as u8,
                0x7e,
            ]
        }),
{
    let s = seq!['F'] + dec(k);
    lemma_key_names();
    lemma_function_names();
    if k < 10 {
        assert(dec(k) =~= seq![crate::text::digit(k)]);
        assert(s =~= seq!['F', crate::text::digit(k)]);
        assert(!modified(s));
    } else {
        assert(dec(1) =~= seq!['1']);
        assert(k / 10 == 1);
        assert(dec(k) =~= seq!['1', crate::text::digit((k % 10) as nat)]);
        assert(s =~= seq!['F', '1', crate::text::digit((k % 10) as nat)]);
        assert(!modified(s));
    }
    lemma_unmodified(s);
}

/// Names of the same key send the same bytes, and the keys of characters send
/// those.
pub proof fn law_names_of_a_key_agree()
    ensures
        key_bytes("CR"@) == key_bytes("Enter"@),
        key_bytes("Esc"@) == key_bytes("Escape"@),
        key_bytes("PageUp"@) == key_bytes("PPage"@),
        key_bytes("PageDown"@) == key_bytes("NPage"@),
        key_bytes("PgDn"@) == key_bytes("NPage"@),
        key_bytes("Insert"@) == key_bytes("IC"@),
        key_bytes("Delete"@) == key_bytes("DC"@),
        key_bytes("Space"@) == key_bytes(seq![' ']),
        key_bytes("Tab"@) == key_bytes(seq!['\t']),
        key_bytes("Enter"@) == key_bytes(seq!['\r']),
{
    lemma_key_names();
    lemma_function_names();
    lemma_unmodified("CR"@);
    lemma_unmodified("Enter"@);
    lemma_unmodified("Esc"@);
    lemma_unmodified("Escape"@);
    lemma_unmodified("PageUp"@);
    lemma_unmodified("PPage"@);
    lemma_unmodified("PageDown"@);
    lemma_unmodified("NPage"@);
    lemma_unmodified("PgDn"@);
    lemma_unmodified("Insert"@);
    lemma_unmodified("IC"@);
    lemma_unmodified("Delete"@);
    lemma_unmodified("DC"@);
    lemma_unmodified("Space"@);
    lemma_unmodified("Tab"@);
    law_character_is_its_own_key(' ');
    law_character_is_its_own_key('\t');
    law_character_is_its_own_key('\r');
    lemma_ascii(' ');
    lemma_ascii('\t');
    lemma_ascii('\r');
}

/// A cursor key: ESC, `[` and a letter.
pub open spec fn cursor_key(c: char) -> Seq<u8> {
    seq![0x1bu8, 0x5b, c as u8]
}

/// An editing key: ESC, `[`, a digit and `~`.
pub open spec fn editing_key(n: u8) -> Seq<u8> {
    seq![0x1bu8, 0x5b, (0x30 + n) as u8, 0x7e]
}

/// The arrows and the ends of a line send the letters of the cursor keys, and
/// the editing keys their numbers.
pub proof fn law_cursor_and_editing_keys()
    ensures
        key_bytes("Up"@) == cursor_key('A'),
        key_bytes("Down"@) == cursor_key('B'),
        key_bytes("Right"@) == cursor_key('C'),
        key_bytes("Left"@) == cursor_key('D'),
        key_bytes("End"@) == cursor_key('F'),
        key_bytes("Home"@) == cursor_key('H'),
        key_bytes("BTab"@) == cursor_key('Z'),
        key_bytes("IC"@) == editing_key(2),
        key_bytes("DC"@) == editing_key(3),
        key_bytes("PPage"@) == editing_key(5),
        key_bytes("NPage"@) == editing_key(6),
        key_bytes("Escape"@) == seq![0x1bu8],
        key_bytes("BSpace"@) == seq![0x7fu8],
{
    lemma_key_names();
    lemma_function_names();
    lemma_unmodified("Up"@);
    lemma_unmodified("Down"@);
    lemma_unmodified("Right"@);
    lemma_unmodified("Left"@);
    lemma_unmodified("End"@);
    lemma_unmodified("Home"@);
    lemma_unmodified("BTab"@);
    lemma_unmodified("IC"@);
    lemma_unmodified("DC"@);
    lemma_unmodified("PPage"@);
    lemma_unmodified("NPage"@);
    lemma_unmodified("Escape"@);
    lemma_unmodified("BSpace"@);
}

proof fn lemma_ascii(c: char)
    requires
        c <= '\u{7f}',
    ensures
        encode_utf8(seq![c]) == seq![c as u8],
{
    let s = seq![c];
    is_ascii_chars_encode_utf8(s);
    assert(s[0] == c);
    assert(encode_utf8(s) =~= seq![c as u8]);
}

proof fn lemma_one_modifier(c: char, k: Seq<char>)
    requires
        k.len() > 0,
        !modified(k),
        c == 'C' || c == 'c' || c == 'M' || c == 'm' || c == 'S' || c == 's',
    ensures
        ({
            let s = seq![c, '-'] + k;
            &&& modified(s)
            &&& base_key(s) == k
            &&& has_modifier(s, 'c', 'C') == (c == 'C' || c == 'c')
            &&& has_modifier(s, 'm', 'M') == (c == 'M' || c == 'm')
        }),
{
    let s = seq![c, '-'] + k;
    assert(s[0] == c && s[1] == '-');
    assert(s.skip(2) =~= k);
    assert(base_key(k) == k);
    assert(!has_modifier(k, 'c', 'C'));
    assert(!has_modifier(k, 'm', 'M'));
}

/// Meta sends ESC and then the key, whatever the key.
pub proof fn law_meta_sends_escape_first(k: Seq<char>)
    requires
        k.len() > 0,
        !modified(k),
    ensures
        key_bytes(seq!['M', '-'] + k) == seq![0x1bu8] + key_bytes(k),
        key_bytes(seq!['m', '-'] + k) == seq![0x1bu8] + key_bytes(k),
{
    lemma_one_modifier('M', k);
    lemma_one_modifier('m', k);
    lemma_unmodified(k);
}

/// Ctrl sends a control byte: of a letter, in either case, its place in the
/// alphabet; of `@` the byte 0; of `?` the byte 127; and any key of more than
/// one byte is sent as it is.
pub proof fn law_ctrl_sends_a_control_byte(c: char, k: Seq<char>)
    requires
        k.len() > 0,
        !modified(k),
    ensures
        'a' <= c <= 'z' ==> key_bytes(seq!['C', '-', c]) == seq![(c as int - 0x60) as u8],
        'A' <= c <= 'Z' ==> key_bytes(seq!['C', '-', c]) == seq![(c as int - 0x40) as u8],
        key_bytes(seq!['C', '-', '@']) == seq![0u8],
        key_bytes(seq!['C', '-', '[']) == seq![0x1bu8],
        key_bytes(seq!['C', '-', '?']) == seq![0x7fu8],
        key_bytes(seq!['c', '-', c]) == key_bytes(seq!['C', '-', c]),
        key_bytes(k).len() != 1 ==> key_bytes(seq!['C', '-'] + k) == key_bytes(k),
{
    lemma_one_modifier('C', k);
    lemma_unmodified(k);
    lemma_ctrl_of(c);
    lemma_ctrl_of('@');
    lemma_ctrl_of('[');
    lemma_ctrl_of('?');
}

proof fn lemma_ctrl_of(c: char)
    ensures
        key_bytes(seq!['C', '-', c]) == crate::session::control_mode::keys::with_ctrl(
            encode_utf8(seq![c]),
        ),
        key_bytes(seq!['c', '-', c]) == key_bytes(seq!['C', '-', c]),
        c <= '\u{7f}' ==> encode_utf8(seq![c]) == seq![c as u8],
{
    let s = seq![c];
    assert(!modified(s));
    lemma_one_modifier('C', s);
    lemma_one_modifier('c', s);
    assert(seq!['C', '-'] + s =~= seq!['C', '-', c]);
    assert(seq!['c', '-'] + s =~= seq!['c', '-', c]);
    lemma_not_named(s);
    if c <= '\u{7f}' {
        lemma_ascii(c);
    }
}

/// Modifiers may stand in any order, and Shift beside another changes nothing.
pub proof fn law_modifiers_stand_in_any_order(k: Seq<char>)
    requires
        k.len() > 0,
        !modified(k),
    ensures
        key_bytes(seq!['C', '-', 'M', '-'] + k) == key_bytes(seq!['M', '-', 'C', '-'] + k),
        key_bytes(seq!['C', '-', 'M', '-'] + k) == seq![0x1bu8] + key_bytes(seq!['C', '-'] + k),
        key_bytes(seq!['S', '-', 'C', '-'] + k) == key_bytes(seq!['C', '-'] + k),
        key_bytes(seq!['C', '-', 'S', '-'] + k) == key_bytes(seq!['C', '-'] + k),
{
    lemma_one_modifier('C', k);
    lemma_one_modifier('M', k);
    lemma_one_modifier('S', k);
    let cm = seq!['C', '-', 'M', '-'] + k;
    let mc = seq!['M', '-', 'C', '-'] + k;
    let sc = seq!['S', '-', 'C', '-'] + k;
    let cs = seq!['C', '-', 'S', '-'] + k;
    assert(cm[0] == 'C' && cm[1] == '-' && mc[0] == 'M' && mc[1] == '-');
    assert(sc[0] == 'S' && sc[1] == '-' && cs[0] == 'C' && cs[1] == '-');
    assert(cm.skip(2) =~= seq!['M', '-'] + k);
    assert(mc.skip(2) =~= seq!['C', '-'] + k);
    assert(sc.skip(2) =~= seq!['C', '-'] + k);
    assert(cs.skip(2) =~= seq!['S', '-'] + k);
}

} // verus!
