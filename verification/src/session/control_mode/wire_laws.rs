//! How output, layouts, ids and names look on the wire, seen from outside.

use crate::session::control_mode::ids::{assign, home_id, next_id, probe};
use crate::session::control_mode::pane::{bare_pane, short_uid};
use crate::session::control_mode::wire::{checksum, escape, escape_byte, layout_body, pane_layout,
    unescape};
use crate::session::fnv::fnv1a;
use crate::text::{dec, find, has_prefix, hex, lemma_find};
use vstd::prelude::*;
use vstd::string::*;
use vstd::utf8::*;

verus! {

/// The bytes of output follow one another on the wire.
pub proof fn law_output_keeps_its_order(a: Seq<u8>, b: Seq<u8>)
    ensures
        escape(a + b) == escape(a) + escape(b),
    decreases a.len(),
{
    if a.len() > 0 {
        assert((a + b).skip(1) =~= a.skip(1) + b);
        law_output_keeps_its_order(a.skip(1), b);
        assert((a + b)[0] == a[0]);
        assert(escape(a + b) =~= escape(a) + escape(b));
    } else {
        assert(a + b =~= b);
        assert(escape(a) + escape(b) =~= escape(b));
    }
}

/// Bytes from the space on stand for themselves, but for the backslash; any
/// other is a backslash and its value in three octal digits.
pub proof fn law_bytes_stand_for_themselves_or_in_octal(b: u8)
    ensures
        b >= 0x20 && b != 0x5c ==> escape(seq![b]) == seq![b],
        b < 0x20 || b == 0x5c ==> {
            let e = escape(seq![b]);
            &&& e.len() == 4
            &&& e[0] == 0x5c
            &&& forall|i: int| 1 <= i < 4 ==> 0x30 <= #[trigger] e[i] <= 0x37
            &&& b == (e[1] - 0x30) * 64 + (e[2] - 0x30) * 8 + (e[3] - 0x30)
        },
{
    let s = seq![b];
    assert(s.skip(1) =~= Seq::<u8>::empty());
    assert(escape(s) == escape_byte(b) + escape(s.skip(1)));
    assert(escape(s.skip(1)) =~= Seq::<u8>::empty());
    assert(escape(s) =~= escape_byte(b));
}

/// A layout names the columns before the rows, and then the pane.
pub proof fn law_layout_is_columns_then_rows(cols: nat, rows: nat, pane: nat)
    ensures
        ({
            let s = pane_layout(cols, rows, pane);
            let (c, r, p) = (dec(cols), dec(rows), dec(pane));
            &&& s.len() == 5 + c.len() + 1 + r.len() + 5 + p.len()
            &&& s[4] == ','
            &&& s.subrange(5, 5 + c.len() as int) == c
            &&& s[5 + c.len() as int] == 'x'
            &&& s.subrange(6 + c.len() as int, 6 + c.len() + r.len() as int) == r
            &&& s.skip(s.len() - p.len()) == p
        }),
{
    reveal_strlit("x");
    reveal_strlit(",0,0,");
    reveal_strlit(",");
    let s = pane_layout(cols, rows, pane);
    let (c, r, p) = (dec(cols), dec(rows), dec(pane));
    let k = checksum(encode_utf8(layout_body(cols, rows, pane)));
    lemma_hex_len(k, 4);
    assert(s.len() == 5 + c.len() + 1 + r.len() + 5 + p.len());
    assert(s.subrange(5, 5 + c.len() as int) =~= c);
    assert(s.subrange(6 + c.len() as int, 6 + c.len() + r.len() as int) =~= r);
    assert(s.skip(s.len() - p.len()) =~= p);
}

proof fn lemma_hex_len(n: nat, w: nat)
    ensures
        hex(n, w).len() == w,
    decreases w,
{
    if w > 0 {
        lemma_hex_len(n / 16, (w - 1) as nat);
    }
}

/// An id that is taken moves on to the next one, and from the last to the first.
pub proof fn law_taken_id_moves_on(domain: Seq<char>, uids: Seq<Seq<char>>, uid: Seq<char>)
    ensures
        ({
            let taken = assign(domain, uids);
            let id = home_id(domain, uid);
            let all = assign(domain, uids.push(uid));
            &&& all.drop_last() == taken
            &&& !taken.contains(id) ==> all.last() == id
            &&& taken.contains(id) && id < 0x7fff_ffff && !taken.contains((id + 1) as u32)
                ==> all.last() == id + 1
            &&& taken.contains(id) && id == 0x7fff_ffff && !taken.contains(0u32) ==> all.last() == 0
        }),
{
    let all = uids.push(uid);
    assert(all.drop_last() =~= uids);
    let taken = assign(domain, uids);
    let id = home_id(domain, uid);
    assert(assign(domain, all).drop_last() =~= taken);
    if taken.contains(id) {
        assert(taken.len() > 0);
        assert(probe(id, taken, taken.len()) == probe(next_id(id), taken, (taken.len() - 1) as nat));
    }
}

/// A window without a title is called by the first part of its pane's uid, the
/// `pane-` left out.
pub proof fn law_short_name_is_the_first_part(a: Seq<char>, rest: Seq<char>)
    requires
        !a.contains('-'),
    ensures
        short_uid("pane-"@ + a + seq!['-'] + rest) == a,
        a != "pane"@ ==> short_uid(a + seq!['-'] + rest) == a,
        short_uid(a) == a,
{
    reveal_strlit("pane-");
    reveal_strlit("pane");
    let s = a + seq!['-'] + rest;
    lemma_first_dash(a, rest);
    let u = "pane-"@ + a + seq!['-'] + rest;
    assert(u.take(5) =~= "pane-"@);
    assert(u.skip(5) =~= s);
    if has_prefix(s, "pane-"@) {
        assert(s.take(5)[4] == '-');
        assert("pane-"@[4] == '-');
        assert(s[4] == '-');
        assert forall|i: int| 0 <= i < 4 implies s[i] == #[trigger] "pane"@[i] by {
            assert(s.take(5)[i] == "pane-"@[i]);
        }
        lemma_find(s, '-');
        assert(find(s, '-') == a.len());
        if a.len() > 4 {
            assert(a[4] == '-');
        } else if a.len() < 4 {
            assert(s[a.len() as int] == '-');
            assert("pane"@[a.len() as int] != '-');
        }
        assert(a =~= "pane"@);
    }
    if has_prefix(a, "pane-"@) {
        assert(a.take(5)[4] == '-');
        assert(a[4] == '-');
    }
    lemma_find(a, '-');
    if find(a, '-') < a.len() {
        assert(a.contains(a[find(a, '-')]));
    }
    assert(a.take(a.len() as int) =~= a);
}

proof fn lemma_first_dash(a: Seq<char>, rest: Seq<char>)
    requires
        !a.contains('-'),
    ensures
        find(a + seq!['-'] + rest, '-') == a.len(),
        (a + seq!['-'] + rest).take(a.len() as int) == a,
{
    let s = a + seq!['-'] + rest;
    lemma_find(s, '-');
    assert(s[a.len() as int] == '-');
    if find(s, '-') < a.len() {
        assert(a[find(s, '-')] == '-');
    }
    assert(s.take(a.len() as int) =~= a);
}

/// Of a pane that was only named nothing else is known.
pub proof fn law_named_pane_is_otherwise_unknown(uid: Seq<char>)
    ensures
        ({
            let p = bare_pane(uid);
            &&& p.uid == uid
            &&& p.cols is None
            &&& p.rows is None
            &&& p.cwd is None
            &&& p.title is None
            &&& p.screen is None
        }),
{
}

/// What is no escape stands for itself: bytes without a backslash, and three
/// digits whose value is more than a byte holds.
pub proof fn law_other_bytes_are_not_unescaped(s: Seq<u8>, a: u8, b: u8, c: u8)
    requires
        !s.contains(0x5c),
        0x34 <= a <= 0x37,
        0x30 <= b <= 0x37,
        0x30 <= c <= 0x37,
    ensures
        unescape(s) == s,
        unescape(seq![0x5cu8, a, b, c]) == seq![0x5cu8, a, b, c],
{
    lemma_plain_bytes(s);
    let t = seq![0x5cu8, a, b, c];
    let r = t.skip(1);
    assert(!r.contains(0x5c));
    lemma_plain_bytes(r);
    assert(seq![0x5cu8] + r =~= t);
}

proof fn lemma_plain_bytes(s: Seq<u8>)
    requires
        !s.contains(0x5c),
    ensures
        unescape(s) == s,
    decreases s.len(),
{
    if s.len() > 0 {
        assert(s.contains(s[0]));
        let t = s.skip(1);
        assert forall|i: int| 0 <= i < t.len() implies t[i] != 0x5c by {
            assert(s.contains(s[i + 1]));
        }
        lemma_plain_bytes(t);
        assert(seq![s[0]] + t =~= s);
    }
}

/// An id is made of both halves of a hash, mixed, without the highest bit.
pub proof fn law_id_mixes_both_halves(domain: Seq<char>, uid: Seq<char>)
    ensures
        ({
            let h = fnv1a(encode_utf8(domain) + encode_utf8(uid));
            let low = (h % 0x1_0000_0000) as u32;
            let high = (h / 0x1_0000_0000) as u32;
            home_id(domain, uid) == (low ^ high) % 0x8000_0000
        }),
{
    let h = fnv1a(encode_utf8(domain) + encode_utf8(uid));
    lemma_halves(h);
}

proof fn lemma_halves(h: u64)
    by (bit_vector)
    ensures
        ((h ^ (h >> 32)) as u32) & 0x7fff_ffffu32 == (((h % 0x1_0000_0000) as u32) ^ ((h
            / 0x1_0000_0000) as u32)) % 0x8000_0000u32,
{
}

} // verus!
