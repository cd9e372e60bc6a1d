//! Working directories announced by shells: OSC 7 file URIs and OSC 9;9 paths.

use crate::text::{chars_of, equal_ignoring_case, find, find_char, find_char_pair,
    find_last_char_pair, find_last_pair, find_pair, has_prefix, is_ascii_letter, is_white_space,
    lemma_find, lemma_find_pair, lemma_find_pair_unique, lemma_find_unique, opt_view, owned,
    push_replaced, same_ignoring_case, ascii_upper, starts_with, string_of, to_upper, trim, trimmed,
    utf8_text, with_replaced};
use vstd::prelude::*;
use vstd::slice::*;
use vstd::string::*;
use vstd::utf8::*;

verus! {

/// The most bytes of an incomplete sequence that are carried on. One that
/// grows past this is junk.
pub const OSC_MAX: usize = 8192;

/// The value of a hexadecimal digit.
pub open spec fn hex_digit_value(b: u8) -> Option<u8> {
    if 0x30 <= b <= 0x39 {
        Some((b - 0x30) as u8)
    } else if 0x61 <= b <= 0x66 {
        Some((b - 0x57) as u8)
    } else if 0x41 <= b <= 0x46 {
        Some((b - 0x37) as u8)
    } else {
        None
    }
}

/// Bytes with each `%XX` replaced by the byte it names; nothing where an
/// escape is malformed.
pub open spec fn percent_decode(s: Seq<u8>) -> Option<Seq<u8>>
    decreases s.len(),
{
    if s.len() == 0 {
        Some(Seq::empty())
    } else if s[0] == 0x25 {
        if s.len() < 3 {
            None
        } else {
            match (hex_digit_value(s[1]), hex_digit_value(s[2]), percent_decode(s.skip(3))) {
                (Some(h), Some(l), Some(t)) => Some(seq![(h * 16 + l) as u8] + t),
                _ => None,
            }
        }
    } else {
        match percent_decode(s.skip(1)) {
            Some(t) => Some(seq![s[0]] + t),
            None => None,
        }
    }
}

/// Text with its `%XX` escapes decoded; nothing where one is malformed or the
/// result is no UTF-8.
pub open spec fn uri_decode(s: Seq<char>) -> Option<Seq<char>> {
    match percent_decode(encode_utf8(s)) {
        Some(b) => if valid_utf8(b) {
            Some(decode_utf8(b))
        } else {
            None
        },
        None => None,
    }
}

/// Whether `s` begins with a drive: a slash, a letter and `mark`.
pub open spec fn has_drive(s: Seq<char>, mark: char) -> bool {
    s.len() >= 3 && s[0] == '/' && is_ascii_letter(s[1]) && s[2] == mark
}

/// The local path that a decoded URI path stands for: `/C:/x` and `/c/x` are
/// paths on a drive, anything else is itself.
pub open spec fn native_path(s: Seq<char>) -> Option<Seq<char>> {
    if has_drive(s, ':') {
        Some(seq![ascii_upper(s[1])] + ":"@ + with_replaced(s.skip(3), '/', '\\'))
    } else if has_drive(s, '/') {
        Some(seq![ascii_upper(s[1])] + ":\\"@ + with_replaced(s.skip(3), '/', '\\'))
    } else if s.len() == 0 {
        None
    } else {
        Some(s)
    }
}

/// The local path that a `file://` URI names. A URI with an authority other
/// than `localhost` names a path on another machine, and so none here.
pub open spec fn uri_path(uri: Seq<char>) -> Option<Seq<char>> {
    let t = trim(uri);
    let n = "file://"@.len() as int;
    if t.len() < n || !same_ignoring_case(t.take(n), "file://"@) {
        None
    } else {
        let rest = t.skip(n);
        let k = find(rest, '/');
        let authority = rest.take(k);
        let path = rest.skip(k);
        if authority.len() > 0 && !same_ignoring_case(authority, "localhost"@) {
            None
        } else {
            native_path(
                match uri_decode(path) {
                    Some(d) => d,
                    None => path,
                },
            )
        }
    }
}

fn hex_val(b: u8) -> (r: Option<u8>)
    ensures
        r == hex_digit_value(b),
        r matches Some(v) ==> v < 16,
{
    if 0x30 <= b && b <= 0x39 {
        Some(b - 0x30)
    } else if 0x61 <= b && b <= 0x66 {
        Some(b - 0x57)
    } else if 0x41 <= b && b <= 0x46 {
        Some(b - 0x37)
    } else {
        None
    }
}

/// Decodes `%XX` escapes. `None` on a malformed escape or a result that is no
/// UTF-8.
fn decode_uri_component(s: &str) -> (r: Option<String>)
    ensures
        opt_view(r) == uri_decode(s@),
{
    let bytes = s.as_bytes();
    let mut out: Vec<u8> = Vec::new();
    let mut i: usize = 0;
    proof {
        assert(bytes@.skip(0) =~= bytes@);
        if let Some(t) = percent_decode(bytes@) {
            assert(out@ + t =~= t);
        }
    }
    while i < bytes.len()
        invariant
            i <= bytes@.len(),
            bytes@ == encode_utf8(s@),
            match percent_decode(bytes@.skip(i as int)) {
                Some(t) => percent_decode(bytes@) == Some(out@ + t),
                None => percent_decode(bytes@) is None,
            },
        decreases bytes.len() - i,
    {
        let ghost rest = bytes@.skip(i as int);
        let ghost before = out@;
        assert(rest[0] == bytes@[i as int]);
        if bytes[i] == 0x25 {
            if bytes.len() - i < 3 {
                return None;
            }
            assert(rest[1] == bytes@[i + 1] && rest[2] == bytes@[i + 2]);
            assert(rest.skip(3) =~= bytes@.skip(i + 3));
            match (hex_val(bytes[i + 1]), hex_val(bytes[i + 2])) {
                (Some(h), Some(l)) => {
                    out.push(h * 16 + l);
                    proof {
                        if let Some(t) = percent_decode(rest.skip(3)) {
                            assert(before + (seq![(h * 16 + l) as u8] + t) =~= out@ + t);
                        }
                    }
                },
                _ => {
                    return None;
                },
            }
            i = i + 3;
        } else {
            assert(rest.skip(1) =~= bytes@.skip(i + 1));
            out.push(bytes[i]);
            proof {
                if let Some(t) = percent_decode(rest.skip(1)) {
                    assert(before + (seq![rest[0]] + t) =~= out@ + t);
                }
            }
            i = i + 1;
        }
    }
    assert(out@ + Seq::<u8>::empty() =~= out@);
    utf8_text(out)
}

/// Converts a `file://` URI to a local absolute path, or `None` if it is none
/// that can be a local working directory.
pub fn file_uri_to_path(uri: &str) -> (r: Option<String>)
    ensures
        opt_view(r) == uri_path(uri@),
{
    let chars = chars_of(uri);
    let t = trimmed(chars.as_slice());
    let prefix = chars_of("file://");
    if t.len() < prefix.len() {
        return None;
    }
    let head = slice_subrange(t, 0, prefix.len());
    assert(head@ =~= t@.take(prefix@.len() as int));
    if !equal_ignoring_case(head, prefix.as_slice()) {
        return None;
    }
    let rest = slice_subrange(t, prefix.len(), t.len());
    assert(rest@ =~= t@.skip(prefix@.len() as int));
    let k: usize = find_char(rest, '/');
    let authority = slice_subrange(rest, 0, k);
    let path = slice_subrange(rest, k, rest.len());
    assert(authority@ =~= rest@.take(k as int));
    assert(path@ =~= rest@.skip(k as int));
    if authority.len() > 0 {
        let local = chars_of("localhost");
        if !equal_ignoring_case(authority, local.as_slice()) {
            return None;
        }
    }
    let text = string_of(path);
    let decoded = match decode_uri_component(text.as_str()) {
        Some(d) => d,
        None => text,
    };
    let d = chars_of(decoded.as_str());
    if d.len() >= 3 && d[0] == '/' && (('a' <= d[1] && d[1] <= 'z') || ('A' <= d[1] && d[1] <= 'Z'))
        && (d[2] == ':' || d[2] == '/') {
        let colon = d[2] == ':';
        let mut out = String::new();
        out.push(to_upper(d[1]));
        let ghost drive = ascii_upper(d@[1]);
        assert(out@ =~= seq![drive]);
        if colon {
            out.append(":");
        } else {
            out.append(":\\");
        }
        let tail = slice_subrange(d.as_slice(), 3, d.len());
        assert(tail@ =~= d@.skip(3));
        push_replaced(&mut out, tail, '/', '\\');
        return Some(out);
    }
    if d.len() == 0 {
        None
    } else {
        Some(decoded)
    }
}

/// The working directory that an OSC payload announces: `7;` and a file URI,
/// or `9;9;` and a path that may be quoted. Any other payload announces none.
pub open spec fn osc_cwd(data: Seq<char>) -> Option<Seq<char>> {
    if has_prefix(data, "7;"@) {
        uri_path(data.skip("7;"@.len() as int))
    } else if has_prefix(data, "9;9;"@) {
        let p = trim(data.skip("9;9;"@.len() as int));
        let q = if p.len() >= 2 && p[0] == '"' && p.last() == '"' {
            p.subrange(1, p.len() - 1)
        } else {
            p
        };
        if q.len() == 0 {
            None
        } else {
            Some(q)
        }
    } else {
        None
    }
}

fn osc_data_to_cwd(data: &[char]) -> (r: Option<String>)
    ensures
        opt_view(r) == osc_cwd(data@),
{
    let seven = chars_of("7;");
    if starts_with(data, seven.as_slice()) {
        let rest = slice_subrange(data, seven.len(), data.len());
        assert(rest@ =~= data@.skip(seven@.len() as int));
        let text = string_of(rest);
        return file_uri_to_path(text.as_str());
    }
    let nine = chars_of("9;9;");
    if starts_with(data, nine.as_slice()) {
        let rest = slice_subrange(data, nine.len(), data.len());
        assert(rest@ =~= data@.skip(nine@.len() as int));
        let p = trimmed(rest);
        let q = if p.len() >= 2 && p[0] == '"' && p[p.len() - 1] == '"' {
            slice_subrange(p, 1, p.len() - 1)
        } else {
            p
        };
        if q.len() == 0 {
            None
        } else {
            Some(string_of(q))
        }
    } else {
        None
    }
}

/// Where the first terminator of an OSC payload begins, and how long it is: a
/// BEL or an ST (`ESC \`), whichever comes first.
pub open spec fn terminator(t: Seq<char>) -> Option<(int, int)> {
    let b = find(t, '\u{7}');
    let x = find_pair(t, '\u{1b}', '\\');
    if b < t.len() && b < x {
        Some((b, 1))
    } else if x < t.len() {
        Some((x, 2))
    } else {
        None
    }
}

/// A terminator lies inside the text.
pub proof fn lemma_terminator(t: Seq<char>)
    ensures
        terminator(t) matches Some((e, w)) ==> 0 <= e && 1 <= w <= 2 && e + w <= t.len(),
{
    lemma_find(t, '\u{7}');
    lemma_find_pair(t, '\u{1b}', '\\');
}

/// The directory of the last complete sequence in `s` that announces one, or
/// else `found`.
pub open spec fn last_cwd(s: Seq<char>, found: Option<Seq<char>>) -> Option<Seq<char>>
    decreases s.len(),
{
    let i = find_pair(s, '\u{1b}', ']');
    if i < s.len() {
        let t = s.skip(i + 2);
        proof {
            lemma_find_pair(s, '\u{1b}', ']');
            lemma_terminator(t);
        }
        match terminator(t) {
            Some((e, w)) => last_cwd(
                t.skip(e + w),
                match osc_cwd(t.take(e)) {
                    Some(c) => Some(c),
                    None => found,
                },
            ),
            None => found,
        }
    } else {
        found
    }
}

/// What of `s` is carried to the next call: a sequence at its end that is not
/// complete, unless it is too long, or else an ESC at its end, which may begin
/// one.
pub open spec fn next_carry(s: Seq<char>) -> Seq<char> {
    let l = find_last_pair(s, '\u{1b}', ']');
    if l >= 0 && terminator(s.skip(l + 2)) is None {
        if encode_utf8(s.skip(l)).len() <= OSC_MAX {
            s.skip(l)
        } else {
            Seq::empty()
        }
    } else if s.len() > 0 && s.last() == '\u{1b}' {
        seq!['\u{1b}']
    } else {
        Seq::empty()
    }
}

/// Scans for OSC sequences that announce a working directory. Given the carry
/// of the previous call and the next chunk, returns the directory of the last
/// such sequence and the carry for the next call.
pub fn parse_osc_cwd(carry: &str, chunk: &str) -> (r: (Option<String>, String))
    ensures
        opt_view(r.0) == last_cwd(carry@ + chunk@, None),
        r.1@ == next_carry(carry@ + chunk@),
{
    let mut text = owned(carry);
    text.append(chunk);
    let buf = chars_of(text.as_str());
    let ghost s = buf@;
    let mut found: Option<String> = None;
    let mut from: usize = 0;
    assert(s.skip(0) =~= s);
    loop
        invariant
            from <= buf@.len(),
            s == buf@,
            last_cwd(s, None) == last_cwd(s.skip(from as int), opt_view(found)),
        ensures
            opt_view(found) == last_cwd(s, None),
        decreases buf.len() - from,
    {
        let ghost rest = s.skip(from as int);
        let tail = slice_subrange(buf.as_slice(), from, buf.len());
        assert(tail@ =~= rest);
        let i: usize = find_char_pair(tail, '\u{1b}', ']');
        if i == tail.len() {
            break;
        }
        let t = slice_subrange(tail, i + 2, tail.len());
        assert(t@ =~= rest.skip(i + 2));
        proof {
            lemma_terminator(t@);
        }
        let b: usize = find_char(t, '\u{7}');
        let x: usize = find_char_pair(t, '\u{1b}', '\\');
        let (end, width): (usize, usize) = if b < t.len() && b < x {
            (b, 1)
        } else if x < t.len() {
            (x, 2)
        } else {
            break;
        };
        let data = slice_subrange(t, 0, end);
        assert(data@ =~= t@.take(end as int));
        if let Some(cwd) = osc_data_to_cwd(data) {
            found = Some(cwd);
        }
        assert(t@.skip(end + width) =~= s.skip(from + i + 2 + end + width));
        from = from + i + 2 + end + width;
    }
    let mut open: Option<usize> = None;
    if let Some(l) = find_last_char_pair(buf.as_slice(), '\u{1b}', ']') {
        let after = slice_subrange(buf.as_slice(), l + 2, buf.len());
        assert(after@ =~= s.skip(l + 2));
        if find_char(after, '\u{7}') == after.len() && find_char_pair(after, '\u{1b}', '\\')
            == after.len() {
            open = Some(l);
        }
    }
    let carry = match open {
        Some(l) => {
            let tail = slice_subrange(buf.as_slice(), l, buf.len());
            assert(tail@ =~= s.skip(l as int));
            let text = string_of(tail);
            if text.as_str().as_bytes().len() <= OSC_MAX {
                text
            } else {
                String::new()
            }
        },
        None => {
            if buf.len() > 0 && buf[buf.len() - 1] == '\u{1b}' {
                let mut e = String::new();
                e.push('\u{1b}');
                assert(e@ =~= seq!['\u{1b}']);
                e
            } else {
                String::new()
            }
        },
    };
    (found, carry)
}

/// Whatever is carried is at most `OSC_MAX` bytes long.
pub proof fn law_carry_is_bounded(s: Seq<char>)
    ensures
        encode_utf8(next_carry(s)).len() <= OSC_MAX,
{
    let e: Seq<char> = seq!['\u{1b}'];
    assert(is_ascii_chars(e));
    is_ascii_chars_encode_utf8(e);
    assert(encode_utf8(Seq::<char>::empty()).len() == 0);
}

/// Where the last pair of a text is.
proof fn lemma_find_last_pair(s: Seq<char>, a: char, b: char)
    ensures
        -1 <= find_last_pair(s, a, b),
        find_last_pair(s, a, b) >= 0 ==> find_last_pair(s, a, b) + 1 < s.len() && s[find_last_pair(
            s,
            a,
            b,
        )] == a && s[find_last_pair(s, a, b) + 1] == b,
        forall|k: int|
            find_last_pair(s, a, b) < k && k + 1 < s.len() && 0 <= k ==> !(#[trigger] s[k] == a
                && s[k + 1] == b),
    decreases s.len(),
{
    if s.len() >= 2 && !(s[s.len() - 2] == a && s[s.len() - 1] == b) {
        let t = s.drop_last();
        lemma_find_last_pair(t, a, b);
        assert forall|k: int|
            find_last_pair(s, a, b) < k && k + 1 < s.len() && 0 <= k implies !(#[trigger] s[k]
            == a && s[k + 1] == b) by {
            if k + 1 < t.len() {
                assert(t[k] == s[k] && t[k + 1] == s[k + 1]);
            }
        }
    }
}

/// The last pair is the one that `find_last_pair` names.
proof fn lemma_find_last_pair_is(s: Seq<char>, a: char, b: char, l: int)
    requires
        -1 <= l,
        l >= 0 ==> l + 1 < s.len() && s[l] == a && s[l + 1] == b,
        forall|k: int|
            l < k && k + 1 < s.len() && 0 <= k ==> !(#[trigger] s[k] == a && s[k + 1] == b),
    ensures
        find_last_pair(s, a, b) == l,
{
    lemma_find_last_pair(s, a, b);
    let m = find_last_pair(s, a, b);
    if m > l {
        assert(s[m] == a && s[m + 1] == b);
    } else if m < l {
        assert(s[l] == a && s[l + 1] == b);
    }
}

/// An OSC sequence with the payload `data`, ended by an ST or by a BEL.
pub open spec fn osc_sequence(data: Seq<char>, st: bool) -> Seq<char> {
    seq!['\u{1b}', ']'] + data + (if st {
        seq!['\u{1b}', '\\']
    } else {
        seq!['\u{7}']
    })
}

/// Whether `data` can be the payload of a sequence: no terminator stands in it,
/// and no other sequence begins in it.
pub open spec fn is_payload(data: Seq<char>) -> bool {
    &&& forall|i: int| 0 <= i < data.len() ==> #[trigger] data[i] != '\u{7}'
    &&& forall|i: int|
        0 <= i && i + 1 < data.len() && #[trigger] data[i] == '\u{1b}' ==> data[i + 1] != ']'
            && data[i + 1] != '\\'
}

/// Whether every sequence that begins in `s` is complete.
pub open spec fn all_complete(s: Seq<char>) -> bool
    decreases s.len(),
{
    let i = find_pair(s, '\u{1b}', ']');
    if i < s.len() {
        let t = s.skip(i + 2);
        proof {
            lemma_find_pair(s, '\u{1b}', ']');
            lemma_terminator(t);
        }
        match terminator(t) {
            Some((e, w)) => all_complete(t.skip(e + w)),
            None => false,
        }
    } else {
        true
    }
}

/// A text that goes on with an ESC has its first pair where it had it, or in
/// what follows.
proof fn lemma_pair_before_esc(s: Seq<char>, x: Seq<char>, a: char, b: char)
    requires
        b != '\u{1b}',
        x.len() > 0 ==> x[0] == '\u{1b}',
    ensures
        find_pair(s, a, b) < s.len() ==> find_pair(s + x, a, b) == find_pair(s, a, b),
        find_pair(s, a, b) >= s.len() ==> find_pair(s + x, a, b) == s.len() + find_pair(x, a, b),
{
    lemma_find_pair(s, a, b);
    lemma_find_pair(x, a, b);
    let all = s + x;
    let k = find_pair(s, a, b);
    let n = if k < s.len() {
        k
    } else {
        s.len() + find_pair(x, a, b)
    };
    assert forall|i: int| 0 <= i < n && i + 1 < all.len() implies !(#[trigger] all[i] == a && all[i
        + 1] == b) by {
        if i + 1 < s.len() {
            assert(all[i] == s[i] && all[i + 1] == s[i + 1]);
        } else if i >= s.len() {
            assert(all[i] == x[i - s.len()] && all[i + 1] == x[i - s.len() + 1]);
        }
    }
    lemma_find_pair_unique(all, a, b, n);
}

/// A terminator stays the first one where the text goes on with an ESC.
proof fn lemma_terminator_before_esc(t: Seq<char>, x: Seq<char>)
    requires
        terminator(t) is Some,
        x.len() > 0 ==> x[0] == '\u{1b}',
    ensures
        terminator(t + x) == terminator(t),
{
    let all = t + x;
    lemma_find(t, '\u{7}');
    lemma_find(all, '\u{7}');
    lemma_find_pair(t, '\u{1b}', '\\');
    lemma_find_pair(x, '\u{1b}', '\\');
    lemma_pair_before_esc(t, x, '\u{1b}', '\\');
    let b = find(t, '\u{7}');
    if b < t.len() {
        assert forall|i: int| 0 <= i < b implies all[i] != '\u{7}' by {
            assert(all[i] == t[i]);
        }
        lemma_find_unique(all, '\u{7}', b);
    } else if find(all, '\u{7}') < t.len() {
        assert(t[find(all, '\u{7}')] == '\u{7}');
    }
}

/// Complete sequences and what follows them are scanned in turn.
proof fn lemma_scan(before: Seq<char>, x: Seq<char>, found: Option<Seq<char>>)
    requires
        all_complete(before),
        x.len() > 0 ==> x[0] == '\u{1b}',
    ensures
        last_cwd(before + x, found) == last_cwd(x, last_cwd(before, found)),
    decreases before.len(),
{
    let s = before + x;
    let i = find_pair(before, '\u{1b}', ']');
    lemma_find_pair(before, '\u{1b}', ']');
    lemma_pair_before_esc(before, x, '\u{1b}', ']');
    if i < before.len() {
        let t = before.skip(i + 2);
        assert(s.skip(i + 2) =~= t + x);
        lemma_terminator(t);
        lemma_terminator_before_esc(t, x);
        let (e, w) = terminator(t)->0;
        assert((t + x).take(e) =~= t.take(e));
        assert((t + x).skip(e + w) =~= t.skip(e + w) + x);
        let f = match osc_cwd(t.take(e)) {
            Some(c) => Some(c),
            None => found,
        };
        lemma_scan(t.skip(e + w), x, f);
    } else {
        let k = find_pair(x, '\u{1b}', ']');
        lemma_find_pair(x, '\u{1b}', ']');
        if k < x.len() {
            assert(s.skip(before.len() + k + 2) =~= x.skip(k + 2));
        }
    }
}

/// Where every sequence is complete, so is the one that begins last.
proof fn lemma_last_complete(s: Seq<char>)
    requires
        all_complete(s),
        find_last_pair(s, '\u{1b}', ']') >= 0,
    ensures
        terminator(s.skip(find_last_pair(s, '\u{1b}', ']') + 2)) is Some,
    decreases s.len(),
{
    let l = find_last_pair(s, '\u{1b}', ']');
    let i = find_pair(s, '\u{1b}', ']');
    lemma_find_last_pair(s, '\u{1b}', ']');
    lemma_find_pair(s, '\u{1b}', ']');
    assert(s[l] == '\u{1b}' && s[l + 1] == ']');
    let t = s.skip(i + 2);
    lemma_terminator(t);
    let (e, w) = terminator(t)->0;
    lemma_find(t, '\u{7}');
    lemma_find_pair(t, '\u{1b}', '\\');
    let o = i + 2 + e + w;
    if l >= o {
        let rest = t.skip(e + w);
        assert(rest =~= s.skip(o));
        assert forall|k: int| l - o < k && k + 1 < rest.len() && 0 <= k implies !(#[trigger] rest[k]
            == '\u{1b}' && rest[k + 1] == ']') by {
            assert(rest[k] == s[k + o] && rest[k + 1] == s[k + o + 1]);
        }
        lemma_find_last_pair_is(rest, '\u{1b}', ']', l - o);
        lemma_last_complete(rest);
        assert(rest.skip(l - o + 2) =~= s.skip(l + 2));
    } else if l > i {
        let j = l - i - 2;
        assert(t[e] == s[i + 2 + e]);
        if w == 2 {
            assert(t[e + 1] == s[i + 2 + e + 1]);
        }
        assert(j + 2 <= e);
        let u = s.skip(l + 2);
        let m = e - j - 2;
        assert(u[m] == t[e]);
        lemma_find(u, '\u{7}');
        lemma_find_pair(u, '\u{1b}', '\\');
        if w == 2 {
            assert(u[m + 1] == t[e + 1]);
        }
    }
}

/// A whole sequence at the start of the window announces what it holds, and
/// leaves nothing to carry.
proof fn lemma_whole_sequence(data: Seq<char>, st: bool, found: Option<Seq<char>>)
    requires
        is_payload(data),
    ensures
        last_cwd(osc_sequence(data, st), found) == (match osc_cwd(data) {
            Some(c) => Some(c),
            None => found,
        }),
        next_carry(osc_sequence(data, st)) == Seq::<char>::empty(),
{
    let q = osc_sequence(data, st);
    let n = data.len() as int;
    lemma_find_pair_unique(q, '\u{1b}', ']', 0);
    assert forall|p: int| 0 < p && p + 1 < q.len() && 0 <= p implies !(#[trigger] q[p] == '\u{1b}'
        && q[p + 1] == ']') by {
        if 2 <= p < n + 2 {
            assert(q[p] == data[p - 2]);
            if p + 1 < n + 2 {
                assert(q[p + 1] == data[p - 1]);
            }
        }
    }
    lemma_find_last_pair_is(q, '\u{1b}', ']', 0);
    let t = q.skip(2);
    assert forall|p: int| 0 <= p < n implies t[p] != '\u{7}' by {
        assert(t[p] == data[p]);
    }
    assert forall|p: int| 0 <= p < n && p + 1 < t.len() implies !(#[trigger] t[p] == '\u{1b}' && t[p
        + 1] == '\\') by {
        assert(t[p] == data[p]);
        if p + 1 < n {
            assert(t[p + 1] == data[p + 1]);
        }
    }
    if st {
        assert(t[n] == '\u{1b}' && t[n + 1] == '\\');
        lemma_find_unique(t, '\u{7}', t.len() as int);
        lemma_find_pair_unique(t, '\u{1b}', '\\', n);
    } else {
        assert(t[n] == '\u{7}');
        lemma_find_unique(t, '\u{7}', n);
        lemma_find_pair_unique(t, '\u{1b}', '\\', t.len() as int);
    }
    let w: int = if st {
        2
    } else {
        1
    };
    assert(terminator(t) == Some((n, w)));
    assert(t.take(n) =~= data);
    let rest = t.skip(n + w);
    assert(rest.len() == 0);
    let f = match osc_cwd(data) {
        Some(c) => Some(c),
        None => found,
    };
    assert(find_pair(rest, '\u{1b}', ']') == 0);
    assert(last_cwd(rest, f) == f);
}

/// A sequence that begins the window and is cut off after `k` characters is not
/// complete, and the last one that begins in it.
proof fn lemma_cut_sequence(data: Seq<char>, st: bool, k: int)
    requires
        is_payload(data),
        2 <= k < osc_sequence(data, st).len(),
    ensures
        ({
            let a = osc_sequence(data, st).take(k);
            &&& a[0] == '\u{1b}'
            &&& a[1] == ']'
            &&& terminator(a.skip(2)) is None
            &&& forall|p: int|
                0 < p && p + 1 < a.len() ==> !(#[trigger] a[p] == '\u{1b}' && a[p + 1] == ']')
        }),
{
    let q = osc_sequence(data, st);
    let a = q.take(k);
    let n = data.len() as int;
    assert forall|p: int| 0 < p && p + 1 < a.len() implies !(#[trigger] a[p] == '\u{1b}' && a[p + 1]
        == ']') by {
        assert(a[p] == q[p] && a[p + 1] == q[p + 1]);
        if 2 <= p < n + 2 {
            assert(q[p] == data[p - 2]);
            if p + 1 < n + 2 {
                assert(q[p + 1] == data[p - 1]);
            }
        }
    }
    let t = a.skip(2);
    assert forall|p: int| 0 <= p < t.len() implies t[p] != '\u{7}' by {
        assert(t[p] == q[p + 2]);
        if p < n {
            assert(q[p + 2] == data[p]);
        }
    }
    assert forall|p: int| 0 <= p < t.len() && p + 1 < t.len() implies !(#[trigger] t[p] == '\u{1b}'
        && t[p + 1] == '\\') by {
        assert(t[p] == q[p + 2] && t[p + 1] == q[p + 3]);
        if p < n {
            assert(q[p + 2] == data[p]);
            if p + 1 < n {
                assert(q[p + 3] == data[p + 1]);
            }
        }
    }
    lemma_find_unique(t, '\u{7}', t.len() as int);
    lemma_find_pair_unique(t, '\u{1b}', '\\', t.len() as int);
}

/// A sequence that is split anywhere between two chunks, behind any that are
/// complete, announces what it would announce in one: what has come of it is
/// carried whole and announces nothing yet, and the next chunk completes it and
/// leaves nothing to carry.
pub proof fn law_split_sequence_is_carried(
    before: Seq<char>,
    data: Seq<char>,
    st: bool,
    k: int,
)
    requires
        all_complete(before),
        is_payload(data),
        0 < k < osc_sequence(data, st).len(),
        encode_utf8(osc_sequence(data, st).take(k)).len() <= OSC_MAX,
    ensures
        ({
            let q = osc_sequence(data, st);
            let a = before + q.take(k);
            let b = q.skip(k);
            &&& last_cwd(a, None) == last_cwd(before, None)
            &&& next_carry(a) == q.take(k)
            &&& last_cwd(next_carry(a) + b, None) == osc_cwd(data)
            &&& next_carry(next_carry(a) + b) == Seq::<char>::empty()
            &&& last_cwd(before + q, None) == (match osc_cwd(data) {
                Some(c) => Some(c),
                None => last_cwd(before, None),
            })
        }),
{
    let q = osc_sequence(data, st);
    let head = q.take(k);
    let a = before + head;
    let n = before.len() as int;
    let f = last_cwd(before, None);
    assert(head + q.skip(k) =~= q);
    lemma_whole_sequence(data, st, None);
    lemma_whole_sequence(data, st, f);
    lemma_scan(before, q, None);
    lemma_scan(before, head, None);
    if k == 1 {
        assert(head =~= seq!['\u{1b}']);
        lemma_find_pair_unique(head, '\u{1b}', ']', 1);
        let l = find_last_pair(before, '\u{1b}', ']');
        lemma_find_last_pair(before, '\u{1b}', ']');
        assert forall|p: int| l < p && p + 1 < a.len() && 0 <= p implies !(#[trigger] a[p]
            == '\u{1b}' && a[p + 1] == ']') by {
            if p + 1 < n {
                assert(a[p] == before[p] && a[p + 1] == before[p + 1]);
            }
        }
        if l >= 0 {
            assert(a[l] == before[l] && a[l + 1] == before[l + 1]);
        }
        lemma_find_last_pair_is(a, '\u{1b}', ']', l);
        if l >= 0 {
            lemma_last_complete(before);
            lemma_terminator_before_esc(before.skip(l + 2), head);
            assert(a.skip(l + 2) =~= before.skip(l + 2) + head);
        }
        assert(a.last() == '\u{1b}');
    } else {
        lemma_cut_sequence(data, st, k);
        lemma_find_pair_unique(head, '\u{1b}', ']', 0);
        assert forall|p: int| n < p && p + 1 < a.len() && 0 <= p implies !(#[trigger] a[p]
            == '\u{1b}' && a[p + 1] == ']') by {
            assert(a[p] == head[p - n] && a[p + 1] == head[p - n + 1]);
        }
        assert(a[n] == head[0] && a[n + 1] == head[1]);
        lemma_find_last_pair_is(a, '\u{1b}', ']', n);
        assert(a.skip(n) =~= head);
        assert(a.skip(n + 2) =~= head.skip(2));
    }
    assert(next_carry(a) =~= head);
}

/// A sequence that names another machine never moves a pane: its URI is no
/// local path.
pub proof fn law_remote_host_is_rejected(uri: Seq<char>)
    requires
        ({
            let t = trim(uri);
            let n = "file://"@.len() as int;
            let rest = t.skip(n);
            &&& t.len() >= n
            &&& find(rest, '/') > 0
            &&& !same_ignoring_case(rest.take(find(rest, '/')), "localhost"@)
        }),
    ensures
        uri_path(uri) is None,
{
    let rest = trim(uri).skip("file://"@.len() as int);
    lemma_find(rest, '/');
}

/// Whether `e` writes the bytes `b`, each as it is or as `%` and two hexadecimal
/// digits; a `%` itself only in the second way.
pub open spec fn percent_encodes(e: Seq<u8>, b: Seq<u8>) -> bool
    decreases b.len(),
{
    if b.len() == 0 {
        e.len() == 0
    } else {
        ||| e.len() >= 1 && e[0] == b[0] && b[0] != 0x25 && percent_encodes(e.skip(1), b.skip(1))
        ||| e.len() >= 3 && e[0] == 0x25 && (hex_digit_value(e[1]) matches Some(h)
            && hex_digit_value(e[2]) matches Some(l) && h * 16 + l == b[0]) && percent_encodes(
            e.skip(3),
            b.skip(1),
        )
    }
}

proof fn lemma_percent_decode(e: Seq<u8>, b: Seq<u8>)
    requires
        percent_encodes(e, b),
    ensures
        percent_decode(e) == Some(b),
    decreases b.len(),
{
    if b.len() == 0 {
        assert(b =~= Seq::<u8>::empty());
    } else {
        assert(seq![b[0]] + b.skip(1) =~= b);
        if e[0] == 0x25 {
            lemma_percent_decode(e.skip(3), b.skip(1));
        } else {
            lemma_percent_decode(e.skip(1), b.skip(1));
        }
    }
}

/// A path that a shell announces is read back, whichever of its characters the
/// shell escaped: the URI of an absolute path without a drive stands for that
/// path, with no host in it or with `localhost`. A path that ends in white space
/// has its end escaped.
pub proof fn law_announced_path_is_read_back(path: Seq<char>, text: Seq<char>, host: Seq<char>)
    requires
        path.len() > 0,
        !has_drive(path, ':'),
        !has_drive(path, '/'),
        percent_encodes(encode_utf8(text), encode_utf8(path)),
        text.len() > 0,
        text[0] == '/',
        !is_white_space(text.last()),
        host.len() == 0 || host == "localhost"@,
    ensures
        uri_path("file://"@ + host + text) == Some(path),
        osc_cwd("7;"@ + "file://"@ + host + text) == Some(path),
{
    reveal_strlit("file://");
    reveal_strlit("localhost");
    reveal_strlit("7;");
    let uri = "file://"@ + host + text;
    let n = "file://"@.len() as int;
    assert(uri[0] == 'f');
    assert(uri.last() == text.last());
    assert(trim(uri) == uri);
    assert(uri.take(n) =~= "file://"@);
    let rest = uri.skip(n);
    assert(rest =~= host + text);
    assert(rest[host.len() as int] == text[0]);
    lemma_find_unique(rest, '/', host.len() as int);
    assert(rest.take(host.len() as int) =~= host);
    assert(rest.skip(host.len() as int) =~= text);
    lemma_percent_decode(encode_utf8(text), encode_utf8(path));
    encode_utf8_valid_utf8(path);
    encode_utf8_decode_utf8(path);
    assert(uri_path(uri) == Some(path));
    let data = "7;"@ + "file://"@ + host + text;
    assert(data.take("7;"@.len() as int) =~= "7;"@);
    assert(data.skip("7;"@.len() as int) =~= uri);
}

} // verus!
