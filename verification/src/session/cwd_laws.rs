//! Which directory an announcement names, seen from outside.

use crate::session::cwd::{hex_digit_value, is_payload, native_path, next_carry, osc_cwd,
    percent_decode, terminator, uri_decode, uri_path};
use crate::text::{ascii_lower, ascii_upper, find, find_last_pair, find_pair, has_prefix,
    is_ascii_letter, is_white_space, lemma_find, lemma_find_pair, same_ignoring_case, trim,
    with_replaced};
use crate::text_laws::{blank, law_trim_keeps_what_is_between, lemma_trim_nothing};
use vstd::prelude::*;
use vstd::string::*;

verus! {

/// A path on a drive, in either spelling of a URI, is written as Windows does:
/// the drive in upper case and a colon, and backslashes for slashes.
pub proof fn law_drive_path_is_written_natively(c: char, rest: Seq<char>)
    requires
        is_ascii_letter(c),
    ensures
        native_path(seq!['/', c, ':'] + rest) == Some(
            seq![ascii_upper(c), ':'] + with_replaced(rest, '/', '\\'),
        ),
        native_path(seq!['/', c, '/'] + rest) == Some(
            seq![ascii_upper(c), ':', '\\'] + with_replaced(rest, '/', '\\'),
        ),
        native_path(seq!['/', c, '/'] + rest) == native_path(seq!['/', c, ':', '/'] + rest),
{
    reveal_strlit(":");
    reveal_strlit(":\\");
    let a = seq!['/', c, ':'] + rest;
    assert(a.skip(3) =~= rest);
    assert(seq![ascii_upper(c)] + ":"@ =~= seq![ascii_upper(c), ':']);
    let b = seq!['/', c, '/'] + rest;
    assert(b.skip(3) =~= rest);
    assert(seq![ascii_upper(c)] + ":\\"@ =~= seq![ascii_upper(c), ':', '\\']);
    let d = seq!['/', c, ':', '/'] + rest;
    assert(d.skip(3) =~= seq!['/'] + rest);
    assert(seq![ascii_upper(c), ':'] + with_replaced(seq!['/'] + rest, '/', '\\') =~= seq![
        ascii_upper(c),
        ':',
        '\\',
    ] + with_replaced(rest, '/', '\\'));
}

/// A path that is announced plainly is itself, in quotes or without, and the
/// white space around it is no part.
pub proof fn law_plain_announcement_is_itself(a: Seq<char>, path: Seq<char>, b: Seq<char>)
    requires
        blank(a),
        blank(b),
        path.len() > 0,
    ensures
        osc_cwd("9;9;"@ + (a + (seq!['"'] + path + seq!['"']) + b)) == Some(path),
        path[0] != '"' && !is_white_space(path[0]) && !is_white_space(path.last()) ==> osc_cwd(
            "9;9;"@ + (a + path + b),
        ) == Some(path),
{
    reveal_strlit("9;9;");
    reveal_strlit("7;");
    assert(!is_white_space('"'));
    let q = seq!['"'] + path + seq!['"'];
    law_trim_keeps_what_is_between(a, q, b);
    let s = "9;9;"@ + (a + q + b);
    assert(s.take(4) =~= "9;9;"@);
    assert(s.skip(4) =~= a + q + b);
    assert(s[0] == '9');
    assert(!has_prefix(s, "7;"@)) by {
        if has_prefix(s, "7;"@) {
            assert(s.take(2)[0] == s[0]);
            assert("7;"@[0] == '7');
        }
    }
    assert(q.subrange(1, q.len() - 1) =~= path);
    if path[0] != '"' && !is_white_space(path[0]) && !is_white_space(path.last()) {
        law_trim_keeps_what_is_between(a, path, b);
        let t = "9;9;"@ + (a + path + b);
        assert(t.take(4) =~= "9;9;"@);
        assert(t.skip(4) =~= a + path + b);
        assert(t[0] == '9');
        assert(!has_prefix(t, "7;"@)) by {
            if has_prefix(t, "7;"@) {
                assert(t.take(2)[0] == t[0]);
                assert("7;"@[0] == '7');
            }
        }
    }
}

/// A URI of another scheme names no directory, and neither does any other
/// payload.
pub proof fn law_other_payloads_name_none(data: Seq<char>)
    ensures
        !has_prefix(data, "7;"@) && !has_prefix(data, "9;9;"@) ==> osc_cwd(data) is None,
        trim(data).len() < "file://"@.len() ==> uri_path(data) is None,
        trim(data).len() >= "file://"@.len() && !same_ignoring_case(
            trim(data).take("file://"@.len() as int),
            "file://"@,
        ) ==> uri_path(data) is None,
{
}

/// What is carried on is the end of what was seen.
pub proof fn law_carried_text_is_the_end(s: Seq<char>)
    ensures
        next_carry(s).len() <= s.len(),
        next_carry(s) == s.skip(s.len() - next_carry(s).len()),
{
    let c = next_carry(s);
    assert(s.skip(s.len() as int) =~= Seq::<char>::empty());
    if s.len() > 0 {
        assert(s.skip(s.len() - 1) =~= seq![s.last()]);
    }
    lemma_last_pair_in_range(s, '\u{1b}', ']');
    assert(c =~= s.skip(s.len() - c.len()));
}

proof fn lemma_last_pair_in_range(s: Seq<char>, a: char, b: char)
    ensures
        find_last_pair(s, a, b) < s.len() || s.len() == 0,
        s.len() == 0 ==> find_last_pair(s, a, b) < 0,
    decreases s.len(),
{
    if s.len() >= 2 {
        lemma_last_pair_in_range(s.drop_last(), a, b);
    }
}

/// Both cases of a hexadecimal digit have its value, and nothing else has one.
pub proof fn law_digits_have_their_values(b: u8, v: u8)
    ensures
        v < 10 ==> hex_digit_value((0x30 + v) as u8) == Some(v),
        10 <= v < 16 ==> hex_digit_value((0x61 + v - 10) as u8) == Some(v) && hex_digit_value(
            (0x41 + v - 10) as u8,
        ) == Some(v),
        !(0x30 <= b <= 0x39 || 0x41 <= b <= 0x46 || 0x61 <= b <= 0x66) ==> hex_digit_value(b)
            is None,
{
}

/// The case of the scheme and of `localhost` does not matter.
pub proof fn law_case_of_a_uri_does_not_matter(
    scheme: Seq<char>,
    host: Seq<char>,
    path: Seq<char>,
)
    requires
        same_ignoring_case(scheme, "file://"@),
        same_ignoring_case(host, "localhost"@),
        path.len() > 0,
        path[0] == '/',
        !is_white_space(path.last()),
    ensures
        uri_path(scheme + host + path) == uri_path("file://"@ + path),
{
    reveal_strlit("file://");
    reveal_strlit("localhost");
    assert(ascii_lower(scheme[0]) == ascii_lower("file://"@[0]));
    assert(!is_white_space(scheme[0]));
    let u = scheme + host + path;
    let w = "file://"@ + path;
    assert(u.last() == path.last() && w.last() == path.last());
    assert(u[0] == scheme[0] && w[0] == 'f');
    lemma_trim_nothing(u);
    lemma_trim_nothing(w);
    assert(u.take(7) =~= scheme);
    assert(w.take(7) =~= "file://"@);
    let r = u.skip(7);
    assert(r =~= host + path);
    assert(w.skip(7) =~= path);
    lemma_find(r, '/');
    assert(r[9] == '/');
    assert forall|i: int| 0 <= i < 9 implies r[i] != '/' by {
        assert(r[i] == host[i]);
        assert(ascii_lower(host[i]) == ascii_lower("localhost"@[i]));
    }
    assert(find(r, '/') == 9);
    assert(r.take(9) =~= host);
    assert(r.skip(9) =~= path);
    lemma_find(path, '/');
    assert(find(path, '/') == 0);
    assert(path.take(0) =~= Seq::<char>::empty());
    assert(path.skip(0) =~= path);
}

/// A sequence ends at the first terminator, of whichever kind, and what stands
/// behind it is no part of the payload.
pub proof fn law_first_terminator_ends(data: Seq<char>, rest: Seq<char>)
    requires
        is_payload(data),
        data.len() == 0 || data.last() != '\u{1b}',
    ensures
        terminator(data + seq!['\u{7}'] + rest) == Some((data.len() as int, 1int)),
        terminator(data + seq!['\u{1b}', '\\'] + rest) == Some((data.len() as int, 2int)),
        terminator(data) is None,
{
    let n = data.len() as int;
    let a = data + seq!['\u{7}'] + rest;
    assert(a[n] == '\u{7}');
    lemma_find(a, '\u{7}');
    assert(find(a, '\u{7}') == n) by {
        if find(a, '\u{7}') < n {
            assert(a[find(a, '\u{7}')] == data[find(a, '\u{7}')]);
        }
    }
    lemma_find_pair(a, '\u{1b}', '\\');
    let x = find_pair(a, '\u{1b}', '\\');
    if x <= n && x + 1 < a.len() {
        assert(a[x] == '\u{1b}' && a[x + 1] == '\\');
        if x < n {
            assert(data[x] == '\u{1b}');
            if x + 1 < n {
                assert(data[x + 1] == '\\');
            }
        }
    }
    let b = data + seq!['\u{1b}', '\\'] + rest;
    assert(b[n] == '\u{1b}' && b[n + 1] == '\\');
    lemma_find(b, '\u{7}');
    let f = find(b, '\u{7}');
    if f < n {
        assert(b[f] == data[f]);
    }
    lemma_find_pair(b, '\u{1b}', '\\');
    let y = find_pair(b, '\u{1b}', '\\');
    if y < n {
        assert(b[y] == data[y]);
        if y + 1 < n {
            assert(b[y + 1] == data[y + 1]);
        }
    }
    lemma_find(data, '\u{7}');
    lemma_find_pair(data, '\u{1b}', '\\');
    let g = find(data, '\u{7}');
    let z = find_pair(data, '\u{1b}', '\\');
    if g < n {
        assert(data[g] == '\u{7}');
    }
    if z < n {
        assert(data[z] == '\u{1b}' && data[z + 1] == '\\');
    }
}

/// A path whose escapes are malformed is taken as it stands.
pub proof fn law_malformed_escapes_are_kept(path: Seq<char>)
    requires
        path.len() > 0,
        path[0] == '/',
        !is_white_space(path.last()),
        uri_decode(path) is None,
    ensures
        uri_path("file://"@ + path) == native_path(path),
{
    reveal_strlit("file://");
    let w = "file://"@ + path;
    assert(w.last() == path.last() && w[0] == 'f');
    lemma_trim_nothing(w);
    assert(w.take(7) =~= "file://"@);
    assert(w.skip(7) =~= path);
    lemma_find(path, '/');
    assert(find(path, '/') == 0);
    assert(path.take(0) =~= Seq::<char>::empty());
    assert(path.skip(0) =~= path);
}

/// An escape is complete or malformed: a `%` that is not followed by two digits
/// spoils the whole path, wherever it stands.
pub proof fn law_cut_escape_is_malformed(before: Seq<u8>, rest: Seq<u8>)
    requires
        rest.len() < 2 || hex_digit_value(rest[0]) is None || hex_digit_value(rest[1]) is None,
        !before.contains(0x25),
    ensures
        percent_decode(before + (seq![0x25u8] + rest)) is None,
    decreases before.len(),
{
    let s = before + (seq![0x25u8] + rest);
    if before.len() > 0 {
        assert(before.contains(before[0]));
        assert(s[0] == before[0]);
        let t = before.skip(1);
        assert(s.skip(1) =~= t + (seq![0x25u8] + rest));
        assert forall|i: int| 0 <= i < t.len() implies t[i] != 0x25 by {
            assert(before.contains(before[i + 1]));
        }
        law_cut_escape_is_malformed(t, rest);
    } else {
        assert(s[0] == 0x25);
        if rest.len() >= 2 {
            assert(s[1] == rest[0] && s[2] == rest[1]);
        }
    }
}

} // verus!
