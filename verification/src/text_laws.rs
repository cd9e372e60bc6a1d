//! What holds of the text functions: what trimming leaves, that lines and parts
//! join back, and that a number that is written is read back.

use crate::text::{all_digits, ascii_lower, ascii_upper, char_units, dec, digit, digit_value,
    digits_number, find, find_text, has_prefix, hex, hex_digit, is_ascii_letter, is_white_space,
    lemma_find, lemma_find_text, less, lines, parse_number, split_on, trim, trim_char, trim_end,
    trim_end_char, trim_start, trim_start_char, units, unsigned_digits, utf16, utf16_len,
    with_replaced};
use vstd::prelude::*;

verus! {

/// Whether a text is white space throughout.
pub open spec fn blank(s: Seq<char>) -> bool {
    forall|i: int| 0 <= i < s.len() ==> is_white_space(#[trigger] s[i])
}

/// Of the ASCII characters, the space and the control characters from tab to
/// carriage return are white space, and no other.
pub proof fn law_ascii_white_space(c: char)
    requires
        c <= '\u{7f}',
    ensures
        is_white_space(c) <==> c == ' ' || '\t' <= c <= '\r',
{
}

/// Trimming the end cuts white space off the end, all of it and nothing else.
pub proof fn law_trim_end_cuts_the_end(s: Seq<char>)
    ensures
        trim_end(s).len() <= s.len(),
        trim_end(s) == s.take(trim_end(s).len() as int),
        blank(s.skip(trim_end(s).len() as int)),
        trim_end(s).len() > 0 ==> !is_white_space(trim_end(s).last()),
    decreases s.len(),
{
    if s.len() > 0 && is_white_space(s.last()) {
        let t = s.drop_last();
        law_trim_end_cuts_the_end(t);
        let n = trim_end(t).len() as int;
        assert(s.take(n) =~= t.take(n));
        assert forall|i: int| 0 <= i < s.skip(n).len() implies is_white_space(
            #[trigger] s.skip(n)[i],
        ) by {
            if n + i < t.len() {
                assert(t.skip(n)[i] == s.skip(n)[i]);
            }
        }
    } else {
        assert(s.take(s.len() as int) =~= s);
    }
}

/// Trimming the start cuts white space off the start, all of it and nothing
/// else.
pub proof fn law_trim_start_cuts_the_start(s: Seq<char>)
    ensures
        trim_start(s).len() <= s.len(),
        trim_start(s) == s.skip(s.len() - trim_start(s).len()),
        blank(s.take(s.len() - trim_start(s).len())),
        trim_start(s).len() > 0 ==> !is_white_space(trim_start(s)[0]),
    decreases s.len(),
{
    if s.len() > 0 && is_white_space(s[0]) {
        let t = s.skip(1);
        law_trim_start_cuts_the_start(t);
        let n = t.len() - trim_start(t).len();
        assert(s.skip(n + 1) =~= t.skip(n));
        assert forall|i: int| 0 <= i < s.take(n + 1).len() implies is_white_space(
            #[trigger] s.take(n + 1)[i],
        ) by {
            if i > 0 {
                assert(t.take(n)[i - 1] == s.take(n + 1)[i]);
            }
        }
    } else {
        assert(s.skip(0) =~= s);
    }
}

/// Trimming takes white space off both sides and leaves what is between as it
/// stands.
pub proof fn law_trim_keeps_what_is_between(a: Seq<char>, s: Seq<char>, b: Seq<char>)
    requires
        blank(a),
        blank(b),
        s.len() == 0 || !is_white_space(s[0]) && !is_white_space(s.last()),
    ensures
        trim(a + s + b) == s,
{
    lemma_trim_start(a, s + b);
    assert(a + s + b =~= a + (s + b));
    if s.len() > 0 {
        assert((s + b)[0] == s[0]);
        lemma_trim_end(s, b);
    } else {
        assert(s + b =~= b);
        lemma_trim_start(b, s);
        assert(b + s =~= b);
        assert(trim_start(b) == s);
        assert(trim_end(s) == s);
    }
}

proof fn lemma_trim_start(a: Seq<char>, s: Seq<char>)
    requires
        blank(a),
    ensures
        trim_start(a + s) == trim_start(s),
    decreases a.len(),
{
    if a.len() == 0 {
        assert(a + s =~= s);
    } else {
        assert((a + s)[0] == a[0]);
        assert((a + s).skip(1) =~= a.skip(1) + s);
        assert forall|i: int| 0 <= i < a.skip(1).len() implies is_white_space(
            #[trigger] a.skip(1)[i],
        ) by {
            assert(a.skip(1)[i] == a[i + 1]);
        }
        lemma_trim_start(a.skip(1), s);
    }
}

proof fn lemma_trim_end(s: Seq<char>, b: Seq<char>)
    requires
        blank(b),
    ensures
        trim_end(s + b) == trim_end(s),
    decreases b.len(),
{
    if b.len() == 0 {
        assert(s + b =~= s);
    } else {
        assert((s + b).last() == b.last());
        assert(is_white_space(b[b.len() - 1]));
        assert((s + b).drop_last() =~= s + b.drop_last());
        assert forall|i: int| 0 <= i < b.drop_last().len() implies is_white_space(
            #[trigger] b.drop_last()[i],
        ) by {
            assert(b.drop_last()[i] == b[i]);
        }
        lemma_trim_end(s, b.drop_last());
    }
}

/// A text that neither begins nor ends with white space is trimmed to itself.
pub proof fn lemma_trim_nothing(s: Seq<char>)
    requires
        s.len() == 0 || !is_white_space(s[0]) && !is_white_space(s.last()),
    ensures
        trim(s) == s,
{
    let e = Seq::<char>::empty();
    law_trim_keeps_what_is_between(e, s, e);
    assert(e + s + e =~= s);
}

/// Trimming a character takes it off both ends, however often it stands there,
/// and leaves what is between.
pub proof fn law_trim_char_keeps_what_is_between(a: nat, s: Seq<char>, b: nat, c: char)
    requires
        s.len() > 0,
        s[0] != c,
        s.last() != c,
    ensures
        trim_char(repeated(c, a) + s + repeated(c, b), c) == s,
        trim_start_char(repeated(c, a) + s, c) == s,
        trim_end_char(s + repeated(c, b), c) == s,
{
    let t = s + repeated(c, b);
    assert(repeated(c, a) + s + repeated(c, b) =~= repeated(c, a) + t);
    assert(t[0] == s[0]);
    lemma_trim_start_char(a, t, c);
    lemma_trim_start_char(a, s, c);
    lemma_trim_end_char(s, b, c);
}

/// A character, `n` times.
pub open spec fn repeated(c: char, n: nat) -> Seq<char> {
    Seq::new(n, |i: int| c)
}

proof fn lemma_trim_start_char(a: nat, s: Seq<char>, c: char)
    requires
        s.len() > 0,
        s[0] != c,
    ensures
        trim_start_char(repeated(c, a) + s, c) == s,
    decreases a,
{
    let t = repeated(c, a) + s;
    if a == 0 {
        assert(t =~= s);
    } else {
        assert(t[0] == c);
        assert(t.skip(1) =~= repeated(c, (a - 1) as nat) + s);
        lemma_trim_start_char((a - 1) as nat, s, c);
    }
}

proof fn lemma_trim_end_char(s: Seq<char>, b: nat, c: char)
    requires
        s.len() > 0,
        s.last() != c,
    ensures
        trim_end_char(s + repeated(c, b), c) == s,
    decreases b,
{
    let t = s + repeated(c, b);
    if b == 0 {
        assert(t =~= s);
    } else {
        assert(t.last() == c);
        assert(t.drop_last() =~= s + repeated(c, (b - 1) as nat));
        lemma_trim_end_char(s, (b - 1) as nat, c);
    }
}

/// Lines, each with a newline behind it.
pub open spec fn unlines(ls: Seq<Seq<char>>) -> Seq<char>
    decreases ls.len(),
{
    if ls.len() == 0 {
        Seq::empty()
    } else {
        ls[0] + seq!['\n'] + unlines(ls.skip(1))
    }
}

/// The lines of a text hold no newline and, each with one behind it, are the
/// text again; the last newline may be missing there.
pub proof fn law_lines_join_back(s: Seq<char>)
    ensures
        forall|i: int| 0 <= i < lines(s).len() ==> !(#[trigger] lines(s)[i]).contains('\n'),
        s.len() == 0 || s.last() == '\n' ==> unlines(lines(s)) == s,
        s.len() > 0 && s.last() != '\n' ==> unlines(lines(s)) == s.push('\n'),
    decreases s.len(),
{
    if s.len() > 0 {
        let k = find(s, '\n');
        lemma_find(s, '\n');
        if k < s.len() {
            let rest = s.skip(k + 1);
            law_lines_join_back(rest);
            let ls = lines(s);
            assert(ls.skip(1) =~= lines(rest));
            assert(ls[0] == s.take(k));
            assert forall|i: int| 0 <= i < ls.len() implies !(#[trigger] ls[i]).contains('\n') by {
                if i == 0 {
                    if s.take(k).contains('\n') {
                        let j = choose|j: int| 0 <= j < k && s.take(k)[j] == '\n';
                        assert(s[j] == '\n');
                    }
                } else {
                    assert(ls[i] == lines(rest)[i - 1]);
                }
            }
            assert(s =~= s.take(k) + seq!['\n'] + rest);
            if rest.len() > 0 {
                assert(rest.last() == s.last());
                assert(s.push('\n') =~= s.take(k) + seq!['\n'] + rest.push('\n'));
            }
        } else {
            assert(lines(s) =~= seq![s]);
            assert(lines(s).skip(1).len() == 0);
            assert(unlines(lines(s).skip(1)) =~= Seq::<char>::empty());
            assert(unlines(lines(s)) =~= s.push('\n'));
            if s.contains('\n') {
                let j = choose|j: int| 0 <= j < s.len() && s[j] == '\n';
                assert(j < k);
            }
            if s.last() == '\n' {
                assert(s[s.len() - 1] == '\n');
            }
        }
    }
}

/// Parts with a character between them.
pub open spec fn joined_by(parts: Seq<Seq<char>>, c: char) -> Seq<char>
    decreases parts.len(),
{
    if parts.len() == 0 {
        Seq::empty()
    } else if parts.len() == 1 {
        parts[0]
    } else {
        parts[0] + seq![c] + joined_by(parts.skip(1), c)
    }
}

/// The parts of a text do not hold what parts them, and with it between them
/// are the text again.
pub proof fn law_parts_join_back(s: Seq<char>, c: char)
    ensures
        split_on(s, c).len() > 0,
        forall|i: int| 0 <= i < split_on(s, c).len() ==> !(#[trigger] split_on(s, c)[i]).contains(c),
        joined_by(split_on(s, c), c) == s,
    decreases s.len(),
{
    let k = find(s, c);
    let parts = split_on(s, c);
    lemma_find(s, c);
    if k < s.len() {
        let rest = s.skip(k + 1);
        law_parts_join_back(rest, c);
        assert(parts.skip(1) =~= split_on(rest, c));
        assert forall|i: int| 0 <= i < parts.len() implies !(#[trigger] parts[i]).contains(c) by {
            if i == 0 {
                if s.take(k).contains(c) {
                    let j = choose|j: int| 0 <= j < k && s.take(k)[j] == c;
                    assert(s[j] == c);
                }
            } else {
                assert(parts[i] == split_on(rest, c)[i - 1]);
            }
        }
        assert(s =~= s.take(k) + seq![c] + rest);
    } else if s.contains(c) {
        let j = choose|j: int| 0 <= j < s.len() && s[j] == c;
        assert(j < k);
    }
}

/// A number that is written in decimal is read back, where it is not too large;
/// it has no sign and no leading zero.
pub proof fn law_number_reads_back(n: nat, max: nat)
    ensures
        n <= max ==> parse_number(dec(n), 10, max) == Some(n),
        n > max ==> parse_number(dec(n), 10, max) is None,
        dec(n).len() > 0,
        forall|i: int| 0 <= i < dec(n).len() ==> '0' <= #[trigger] dec(n)[i] <= '9',
        n > 0 ==> dec(n)[0] != '0',
{
    lemma_dec(n);
    assert(dec(n)[0] != '+');
    assert(unsigned_digits(dec(n)) == dec(n));
}

proof fn lemma_dec(n: nat)
    ensures
        dec(n).len() > 0,
        forall|i: int| 0 <= i < dec(n).len() ==> '0' <= #[trigger] dec(n)[i] <= '9',
        all_digits(dec(n), 10),
        digits_number(dec(n), 10) == n,
        n > 0 ==> dec(n)[0] != '0',
    decreases n,
{
    let s = dec(n);
    if n < 10 {
        assert(s =~= seq![digit(n)]);
        assert(digit_value(digit(n), 10) == Some(n));
        assert(s.drop_last().len() == 0);
        assert(digits_number(s.drop_last(), 10) == 0);
    } else {
        let t = dec(n / 10);
        lemma_dec(n / 10);
        assert(s.drop_last() =~= t);
        assert(digit_value(digit(n % 10), 10) == Some(n % 10));
        assert(s[0] == t[0]);
        assert forall|i: int| 0 <= i < s.len() implies '0' <= #[trigger] s[i] <= '9' by {
            if i < t.len() {
                assert(s[i] == t[i]);
            }
        }
        assert(digits_number(s, 10) == (n / 10) * 10 + n % 10);
    }
    assert forall|i: int| 0 <= i < s.len() implies (#[trigger] digit_value(s[i], 10)) is Some by {
        assert('0' <= s[i] <= '9');
    }
}

/// Two numbers that are written alike are the same.
pub proof fn law_numerals_are_unique(m: nat, n: nat)
    ensures
        dec(m) == dec(n) ==> m == n,
{
    lemma_dec(m);
    lemma_dec(n);
}

/// Case folding moves letters only, and between their two forms.
pub proof fn law_case_of_letters(c: char)
    ensures
        is_ascii_letter(c) ==> 'a' <= ascii_lower(c) <= 'z' && 'A' <= ascii_upper(c) <= 'Z',
        is_ascii_letter(c) ==> ascii_lower(c) as int - ascii_upper(c) as int == 0x20,
        is_ascii_letter(c) ==> c == ascii_lower(c) || c == ascii_upper(c),
        !is_ascii_letter(c) ==> ascii_lower(c) == c && ascii_upper(c) == c,
        is_ascii_letter(c) <==> ascii_lower(c) != ascii_upper(c),
{
}

/// Replacing a character leaves each other in its place.
pub proof fn law_replacing_leaves_the_rest(s: Seq<char>, a: char, b: char, i: int)
    requires
        0 <= i < s.len(),
    ensures
        with_replaced(s, a, b).len() == s.len(),
        s[i] == a ==> with_replaced(s, a, b)[i] == b,
        s[i] != a ==> with_replaced(s, a, b)[i] == s[i],
{
}

/// A text begins with a prefix exactly where something follows that makes it up.
pub proof fn law_prefix_is_what_comes_first(p: Seq<char>, s: Seq<char>)
    ensures
        has_prefix(p + s, p),
        has_prefix(s, p) ==> s == p + s.skip(p.len() as int),
        s.len() < p.len() ==> !has_prefix(s, p),
{
    assert((p + s).take(p.len() as int) =~= p);
    if has_prefix(s, p) {
        assert(s =~= p + s.skip(p.len() as int));
    }
}

/// Text is ordered by the first character that differs, and a text comes before
/// what it begins.
pub proof fn law_first_difference_orders(p: Seq<char>, x: char, a: Seq<char>, y: char, b: Seq<char>)
    requires
        (x as int) < (y as int),
    ensures
        less(p + (seq![x] + a), p + (seq![y] + b)),
        !less(p + (seq![y] + b), p + (seq![x] + a)),
        less(p, p + (seq![x] + a)),
        !less(p + (seq![x] + a), p),
    decreases p.len(),
{
    let s = p + (seq![x] + a);
    let t = p + (seq![y] + b);
    if p.len() > 0 {
        law_first_difference_orders(p.skip(1), x, a, y, b);
        assert(s.skip(1) =~= p.skip(1) + (seq![x] + a));
        assert(t.skip(1) =~= p.skip(1) + (seq![y] + b));
        assert(s[0] == p[0] && t[0] == p[0]);
    } else {
        assert(s[0] == x && t[0] == y);
    }
}

/// 16 to a power.
pub open spec fn pow16(w: nat) -> nat
    decreases w,
{
    if w == 0 {
        1
    } else {
        16 * pow16((w - 1) as nat)
    }
}

/// A number that is written in as many hexadecimal digits as it needs, or more,
/// is read back.
pub proof fn law_hexadecimal_reads_back(n: nat, w: nat)
    requires
        n < pow16(w),
    ensures
        hex(n, w).len() == w,
        all_digits(hex(n, w), 16),
        digits_number(hex(n, w), 16) == n,
    decreases w,
{
    let s = hex(n, w);
    if w > 0 {
        let t = hex(n / 16, (w - 1) as nat);
        law_hexadecimal_reads_back(n / 16, (w - 1) as nat);
        assert(s.drop_last() =~= t);
        assert(digit_value(hex_digit(n % 16), 16) == Some(n % 16));
        assert forall|i: int| 0 <= i < s.len() implies (#[trigger] digit_value(
            s[i],
            16,
        )) is Some by {
            if i < t.len() {
                assert(s[i] == t[i]);
                assert(digit_value(t[i], 16) is Some);
            }
        }
    }
}

/// The code units of a character tell it: one unit is the character's own
/// number, and two are the halves of what is above the first plane, the high
/// half first.
pub proof fn law_units_tell_the_character(c: char)
    ensures
        ({
            let u = char_units(c);
            let n = c as u32 as int;
            &&& n < 0x10000 ==> u == seq![n as nat]
            &&& n >= 0x10000 ==> u.len() == 2 && 0xD800 <= u[0] < 0xDC00 && 0xDC00 <= u[1] < 0xE000
                && n == 0x10000 + (u[0] - 0xD800) * 0x400 + (u[1] - 0xDC00)
            &&& u.len() == units(c)
        }),
{
}

/// The code units of a text are those of its parts, in order.
pub proof fn law_units_keep_their_order(a: Seq<char>, b: Seq<char>)
    ensures
        utf16(a + b) == utf16(a) + utf16(b),
        utf16(a).len() == utf16_len(a),
    decreases a.len() + b.len(),
{
    if b.len() > 0 {
        assert((a + b).drop_last() =~= a + b.drop_last());
        law_units_keep_their_order(a, b.drop_last());
        assert(utf16(a + b) =~= utf16(a) + utf16(b));
    } else {
        assert(a + b =~= a);
        assert(utf16(a) + utf16(b) =~= utf16(a));
        if a.len() > 0 {
            law_units_keep_their_order(a.drop_last(), b);
        }
    }
}

/// A text is found where it first stands.
pub proof fn law_text_is_found_where_it_first_stands(s: Seq<char>, p: Seq<char>, i: int)
    requires
        0 <= i,
        i + p.len() <= s.len(),
        has_prefix(s.skip(i), p),
    ensures
        find_text(s, p) matches Some(k) && 0 <= k <= i && has_prefix(s.skip(k), p),
    decreases s.len(),
{
    lemma_find_text(s, p);
    if i > 0 && !has_prefix(s, p) {
        assert(s.skip(1).skip(i - 1) =~= s.skip(i));
        law_text_is_found_where_it_first_stands(s.skip(1), p, i - 1);
    } else {
        assert(s.skip(0) =~= s);
    }
}

/// White space is what Unicode says it is: the ASCII ones, the next-line and
/// no-break spaces, and the spaces and separators of the other planes.
pub proof fn law_white_space_beyond_ascii(c: char)
    requires
        c > '\u{7f}',
    ensures
        is_white_space(c) <==> c == '\u{85}' || c == '\u{a0}' || c == '\u{1680}' || '\u{2000}' <= c
            <= '\u{200a}' || c == '\u{2028}' || c == '\u{2029}' || c == '\u{202f}' || c == '\u{205f}'
            || c == '\u{3000}',
{
}

/// A sign and zeros before a number do not change it; a sign alone is none.
pub proof fn law_sign_and_zeros_do_not_count(n: nat, max: nat)
    ensures
        parse_number(seq!['+'] + dec(n), 10, max) == parse_number(dec(n), 10, max),
        parse_number(seq!['0'] + dec(n), 10, max) == parse_number(dec(n), 10, max),
        parse_number(seq!['+'], 10, max) is None,
        parse_number(seq!['-'] + dec(n), 10, max) is None,
        parse_number(Seq::empty(), 10, max) is None,
{
    law_number_reads_back(n, max);
    lemma_dec(n);
    let s = dec(n);
    assert(s[0] != '+');
    let p = seq!['+'] + s;
    assert(p.skip(1) =~= s);
    let z = seq!['0'] + s;
    lemma_leading_zero(s);
    assert(all_digits(z, 10)) by {
        assert forall|i: int| 0 <= i < z.len() implies (#[trigger] digit_value(
            z[i],
            10,
        )) is Some by {
            if i > 0 {
                assert(digit_value(s[i - 1], 10) is Some);
            }
        }
    }
    assert(all_digits(s, 10));
    let m = seq!['-'] + s;
    assert(digit_value(m[0], 10) is None);
    let o = seq!['+'];
    assert(digit_value(o[0], 10) is None);
}

proof fn lemma_leading_zero(s: Seq<char>)
    ensures
        digits_number(seq!['0'] + s, 10) == digits_number(s, 10),
    decreases s.len(),
{
    let z = seq!['0'] + s;
    if s.len() == 0 {
        assert(z.drop_last() =~= Seq::<char>::empty());
        assert(digits_number(z.drop_last(), 10) == 0);
        assert(digit_value('0', 10) == Some(0nat));
    } else {
        assert(z.drop_last() =~= seq!['0'] + s.drop_last());
        lemma_leading_zero(s.drop_last());
    }
}

/// A letter is a digit of a base above ten, in either case.
pub proof fn law_letters_are_digits(k: nat, radix: nat)
    requires
        k < 26,
        10 <= radix <= 36,
    ensures
        digit_value((0x61 + k) as char, radix) == digit_value((0x41 + k) as char, radix),
        digit_value((0x61 + k) as char, radix) == (if 10 + k < radix {
            Some(10 + k)
        } else {
            None
        }),
{
}

} // verus!
