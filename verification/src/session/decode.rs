//! Decoding of a byte stream as UTF-8, chunk by chunk: a character that a chunk
//! boundary cuts in two is held back until the rest of it has come.

use crate::text::{lossy, lossy_text};
use vstd::prelude::*;
use vstd::utf8::*;

verus! {

/// Whether a byte starts an encoding of more than one byte.
pub open spec fn starts_long(b: u8) -> bool {
    0xc2 <= b <= 0xf4
}

/// How many bytes the encoding that a byte starts has.
pub open spec fn encoded_width(b: u8) -> int {
    if b < 0xe0 {
        2
    } else if b < 0xf0 {
        3
    } else {
        4
    }
}

/// Whether a byte can be the second of an encoding that starts with `first`.
pub open spec fn second_fits(first: u8, b: u8) -> bool {
    if first == 0xe0 {
        0xa0 <= b <= 0xbf
    } else if first == 0xed {
        0x80 <= b <= 0x9f
    } else if first == 0xf0 {
        0x90 <= b <= 0xbf
    } else if first == 0xf4 {
        0x80 <= b <= 0x8f
    } else {
        0x80 <= b <= 0xbf
    }
}

/// Whether bytes are the beginning of one character, and not all of it.
pub open spec fn is_cut(s: Seq<u8>) -> bool {
    &&& s.len() >= 1
    &&& starts_long(s[0])
    &&& s.len() < encoded_width(s[0])
    &&& s.len() >= 2 ==> second_fits(s[0], s[1])
    &&& s.len() >= 3 ==> 0x80 <= s[2] <= 0xbf
}

/// How many bytes at the end are the beginning of a character that is not all
/// there.
pub open spec fn cut_len(s: Seq<u8>) -> int {
    let n = s.len() as int;
    if n >= 3 && is_cut(s.skip(n - 3)) {
        3
    } else if n >= 2 && is_cut(s.skip(n - 2)) {
        2
    } else if n >= 1 && is_cut(s.skip(n - 1)) {
        1
    } else {
        0
    }
}

/// The bytes that can be decoded now.
pub open spec fn whole_part(s: Seq<u8>) -> Seq<u8> {
    s.take(s.len() - cut_len(s))
}

/// The bytes that wait for the rest of a character.
pub open spec fn cut_part(s: Seq<u8>) -> Seq<u8> {
    s.skip(s.len() - cut_len(s))
}

fn cut(s: &[u8]) -> (r: bool)
    ensures
        r == is_cut(s@),
{
    let n: usize = s.len();
    if n == 0 || n > 3 {
        return false;
    }
    let first: u8 = s[0];
    if !(0xc2 <= first && first <= 0xf4) {
        return false;
    }
    let width: usize = if first < 0xe0 {
        2
    } else if first < 0xf0 {
        3
    } else {
        4
    };
    if n >= width {
        return false;
    }
    if n >= 2 {
        let b: u8 = s[1];
        let ok = if first == 0xe0 {
            0xa0 <= b && b <= 0xbf
        } else if first == 0xed {
            0x80 <= b && b <= 0x9f
        } else if first == 0xf0 {
            0x90 <= b && b <= 0xbf
        } else if first == 0xf4 {
            0x80 <= b && b <= 0x8f
        } else {
            0x80 <= b && b <= 0xbf
        };
        if !ok {
            return false;
        }
    }
    n < 3 || (0x80 <= s[2] && s[2] <= 0xbf)
}

/// Decodes one chunk of a stream. What `carry` holds of an unfinished character
/// comes before the chunk, and what the chunk leaves unfinished is held there
/// for the next one.
pub fn decode_utf8_streaming(carry: &mut Vec<u8>, bytes: &[u8]) -> (r: String)
    ensures
        r@ == lossy_text(whole_part(old(carry)@ + bytes@)),
        valid_utf8(whole_part(old(carry)@ + bytes@)) ==> r@ == decode_utf8(
            whole_part(old(carry)@ + bytes@),
        ),
        final(carry)@ == cut_part(old(carry)@ + bytes@),
{
    let ghost all = carry@ + bytes@;
    let mut data: Vec<u8> = Vec::new();
    data.append(carry);
    let mut more: Vec<u8> = vstd::slice::slice_to_vec(bytes);
    data.append(&mut more);
    assert(data@ =~= all);
    let n: usize = data.len();
    let mut held: usize = 0;
    let s = data.as_slice();
    if n >= 3 && cut(vstd::slice::slice_subrange(s, n - 3, n)) {
        held = 3;
    } else if n >= 2 && cut(vstd::slice::slice_subrange(s, n - 2, n)) {
        held = 2;
    } else if n >= 1 && cut(vstd::slice::slice_subrange(s, n - 1, n)) {
        held = 1;
    }
    proof {
        assert(n >= 3 ==> all.subrange(n - 3, n as int) =~= all.skip(n - 3));
        assert(n >= 2 ==> all.subrange(n - 2, n as int) =~= all.skip(n - 2));
        assert(n >= 1 ==> all.subrange(n - 1, n as int) =~= all.skip(n - 1));
        assert(held == cut_len(all));
    }
    let whole = vstd::slice::slice_subrange(s, 0, n - held);
    let rest = vstd::slice::slice_subrange(s, n - held, n);
    assert(whole@ =~= whole_part(all));
    assert(rest@ =~= cut_part(all));
    let text = lossy(whole);
    *carry = vstd::slice::slice_to_vec(rest);
    text
}

// ---------------------------------------------------------------------------
// Laws
// ---------------------------------------------------------------------------

proof fn lemma_two(a: u8, b: u8)
    by (bit_vector)
    requires
        0xc0 <= a && a <= 0xdf,
        0x80u32 <= ((((a & 0x1F) as u32) << 6u32) | ((b & 0x3f) as u32)),
    ensures
        0xc2 <= a,
{
}

proof fn lemma_three(a: u8, b: u8, c: u8)
    by (bit_vector)
    requires
        0xe0 <= a && a <= 0xef,
        0x80 <= b && b <= 0xbf,
        0x80 <= c && c <= 0xbf,
        0x800u32 <= ((((a & 0x0F) as u32) << 12u32) | (((b & 0x3f) as u32) << 6u32) | ((c & 0x3f)
            as u32)),
        !(0xD800u32 <= ((((a & 0x0F) as u32) << 12u32) | (((b & 0x3f) as u32) << 6u32) | ((c
            & 0x3f) as u32)) && ((((a & 0x0F) as u32) << 12u32) | (((b & 0x3f) as u32) << 6u32) | ((
        c & 0x3f) as u32)) <= 0xDFFFu32),
    ensures
        a == 0xe0 ==> 0xa0 <= b,
        a == 0xed ==> b <= 0x9f,
{
}

proof fn lemma_four(a: u8, b: u8, c: u8, d: u8)
    by (bit_vector)
    requires
        0xf0 <= a && a <= 0xf7,
        0x80 <= b && b <= 0xbf,
        0x80 <= c && c <= 0xbf,
        0x80 <= d && d <= 0xbf,
        0x10000u32 <= ((((a & 0x07) as u32) << 18u32) | (((b & 0x3f) as u32) << 12u32) | (((c
            & 0x3f) as u32) << 6u32) | ((d & 0x3f) as u32)),
        ((((a & 0x07) as u32) << 18u32) | (((b & 0x3f) as u32) << 12u32) | (((c & 0x3f) as u32)
            << 6u32) | ((d & 0x3f) as u32)) <= 0x10ffffu32,
    ensures
        a <= 0xf4,
        a == 0xf0 ==> 0x90 <= b,
        a == 0xf4 ==> b <= 0x8f,
{
}

/// A proper prefix of an encoding is the beginning of a character.
proof fn lemma_prefix_is_cut(s: Seq<u8>, n: int)
    requires
        valid_first_scalar(s),
        1 <= n < length_of_first_scalar(s),
    ensures
        is_cut(s.take(n)),
{
    let p = s.take(n);
    if is_leading_byte_width_2(s[0]) {
        lemma_two(s[0], s[1]);
    } else if is_leading_byte_width_3(s[0]) {
        lemma_three(s[0], s[1], s[2]);
        assert(n >= 2 ==> p[1] == s[1]);
    } else {
        lemma_four(s[0], s[1], s[2], s[3]);
        assert(n >= 2 ==> p[1] == s[1]);
        assert(n >= 3 ==> p[2] == s[2]);
    }
    assert(p[0] == s[0]);
}

proof fn lemma_more_bytes(x: Seq<u8>, y: Seq<u8>)
    requires
        valid_first_scalar(x),
    ensures
        valid_first_scalar(x + y),
        length_of_first_scalar(x + y) == length_of_first_scalar(x),
        decode_first_scalar(x + y) == decode_first_scalar(x),
        1 <= length_of_first_scalar(x) <= x.len(),
        pop_first_scalar(x + y) == pop_first_scalar(x) + y,
{
    let z = x + y;
    assert(z[0] == x[0]);
    assert(x.len() >= 2 ==> z[1] == x[1]);
    assert(x.len() >= 3 ==> z[2] == x[2]);
    assert(x.len() >= 4 ==> z[3] == x[3]);
    assert(pop_first_scalar(z) =~= pop_first_scalar(x) + y);
}

proof fn lemma_cut_len_of_rest(x: Seq<u8>)
    requires
        valid_first_scalar(x),
    ensures
        cut_len(x) == cut_len(pop_first_scalar(x)),
        0 <= cut_len(x) <= pop_first_scalar(x).len(),
{
    let l = length_of_first_scalar(x);
    let r = pop_first_scalar(x);
    let n = x.len() as int;
    let m = r.len() as int;
    assert(m == n - l);
    assert forall|k: int| 1 <= k <= 3 && k <= m implies #[trigger] x.skip(n - k) =~= r.skip(
        m - k,
    ) by {}
    assert forall|k: int| 1 <= k <= 3 && m < k <= n implies !is_cut(#[trigger] x.skip(n - k)) by {
        let s = x.skip(n - k);
        let at = n - k;
        assert(s[0] == x[at]);
        assert(0 <= at < l);
        if at == 0 {
            assert(s =~= x);
        }
    }
}

/// A valid stream that is cut in two anywhere is decoded as a whole: what the
/// first chunk gives and what the second gives after it are what the stream
/// holds, and nothing is left over.
pub proof fn law_cut_stream_decodes_as_a_whole(x: Seq<u8>, y: Seq<u8>)
    requires
        valid_utf8(x + y),
    ensures
        valid_utf8(whole_part(x)),
        valid_utf8(cut_part(x) + y),
        cut_part(cut_part(x) + y) == Seq::<u8>::empty(),
        whole_part(cut_part(x) + y) == cut_part(x) + y,
        decode_utf8(whole_part(x)) + decode_utf8(cut_part(x) + y) == decode_utf8(x + y),
    decreases x.len(),
{
    let z = x + y;
    if x.len() == 0 {
        assert(whole_part(x) =~= Seq::<u8>::empty());
        assert(cut_part(x) + y =~= z);
        lemma_whole_has_no_cut(z);
        assert(cut_part(z) =~= Seq::<u8>::empty());
        assert(whole_part(z) =~= z);
        assert(decode_utf8(whole_part(x)) + decode_utf8(z) =~= decode_utf8(z));
    } else if valid_first_scalar(x) {
        lemma_more_bytes(x, y);
        let r = pop_first_scalar(x);
        law_cut_stream_decodes_as_a_whole(r, y);
        lemma_cut_len_of_rest(x);
        let l = length_of_first_scalar(x);
        assert(cut_part(x) =~= cut_part(r));
        let w = whole_part(x);
        assert(x =~= w + cut_part(x));
        assert(w.len() >= l);
        assert(valid_first_scalar(w)) by {
            assert(w[0] == x[0]);
            assert(w.len() >= 2 ==> w[1] == x[1]);
            assert(w.len() >= 3 ==> w[2] == x[2]);
            assert(w.len() >= 4 ==> w[3] == x[3]);
        }
        assert(pop_first_scalar(w) =~= whole_part(r));
        lemma_more_bytes(w, cut_part(x));
        assert(decode_utf8(w) + decode_utf8(cut_part(x) + y) =~= seq![
            decode_first_scalar(w) as char,
        ] + (decode_utf8(whole_part(r)) + decode_utf8(cut_part(r) + y)));
    } else {
        let l = length_of_first_scalar(z);
        assert(z[0] == x[0]);
        if x.len() >= l {
            assert(x.len() >= 2 ==> z[1] == x[1]);
            assert(x.len() >= 3 ==> z[2] == x[2]);
            assert(x.len() >= 4 ==> z[3] == x[3]);
            assert(valid_first_scalar(x));
        }
        lemma_prefix_is_cut(z, x.len() as int);
        assert(z.take(x.len() as int) =~= x);
        assert(x.skip(0) =~= x);
        assert(cut_len(x) == x.len());
        assert(whole_part(x) =~= Seq::<u8>::empty());
        assert(cut_part(x) =~= x);
        lemma_whole_has_no_cut(z);
        assert(cut_part(z) =~= Seq::<u8>::empty());
        assert(whole_part(z) =~= z);
        assert(decode_utf8(whole_part(x)) + decode_utf8(z) =~= decode_utf8(z));
    }
}

proof fn lemma_whole_has_no_cut(z: Seq<u8>)
    requires
        valid_utf8(z),
    ensures
        cut_len(z) == 0,
    decreases z.len(),
{
    if z.len() > 0 {
        lemma_more_bytes(z, Seq::empty());
        lemma_cut_len_of_rest(z);
        lemma_whole_has_no_cut(pop_first_scalar(z));
    }
}

proof fn lemma_two_fits(a: u8, b: u8)
    by (bit_vector)
    requires
        0xc2 <= a && a <= 0xdf,
        0x80 <= b && b <= 0xbf,
    ensures
        0x80u32 <= ((((a & 0x1F) as u32) << 6u32) | ((b & 0x3f) as u32)),
        ((((a & 0x1F) as u32) << 6u32) | ((b & 0x3f) as u32)) <= 0x7ffu32,
{
}

proof fn lemma_three_fits(a: u8, b: u8, c: u8)
    by (bit_vector)
    requires
        0xe0 <= a && a <= 0xef,
        0x80 <= b && b <= 0xbf,
        0x80 <= c && c <= 0xbf,
        a == 0xe0 ==> 0xa0 <= b,
        a == 0xed ==> b <= 0x9f,
    ensures
        0x800u32 <= ((((a & 0x0F) as u32) << 12u32) | (((b & 0x3f) as u32) << 6u32) | ((c & 0x3f)
            as u32)),
        !(0xD800u32 <= ((((a & 0x0F) as u32) << 12u32) | (((b & 0x3f) as u32) << 6u32) | ((c
            & 0x3f) as u32)) && ((((a & 0x0F) as u32) << 12u32) | (((b & 0x3f) as u32) << 6u32) | ((
        c & 0x3f) as u32)) <= 0xDFFFu32),
{
}

proof fn lemma_four_fits(a: u8, b: u8, c: u8, d: u8)
    by (bit_vector)
    requires
        0xf0 <= a && a <= 0xf4,
        0x80 <= b && b <= 0xbf,
        0x80 <= c && c <= 0xbf,
        0x80 <= d && d <= 0xbf,
        a == 0xf0 ==> 0x90 <= b,
        a == 0xf4 ==> b <= 0x8f,
    ensures
        0x10000u32 <= ((((a & 0x07) as u32) << 18u32) | (((b & 0x3f) as u32) << 12u32) | (((c
            & 0x3f) as u32) << 6u32) | ((d & 0x3f) as u32)),
        ((((a & 0x07) as u32) << 18u32) | (((b & 0x3f) as u32) << 12u32) | (((c & 0x3f) as u32)
            << 6u32) | ((d & 0x3f) as u32)) <= 0x10ffffu32,
{
}

proof fn lemma_whole_character(s: Seq<u8>)
    requires
        s.len() >= 2,
        starts_long(s[0]),
        s.len() == encoded_width(s[0]),
        second_fits(s[0], s[1]),
        forall|i: int| 2 <= i < s.len() ==> 0x80 <= #[trigger] s[i] <= 0xbf,
    ensures
        valid_utf8(s),
{
    if s.len() == 2 {
        lemma_two_fits(s[0], s[1]);
    } else if s.len() == 3 {
        lemma_three_fits(s[0], s[1], s[2]);
    } else {
        lemma_four_fits(s[0], s[1], s[2], s[3]);
    }
    assert(valid_first_scalar(s));
    assert(pop_first_scalar(s) =~= Seq::<u8>::empty());
    assert(valid_utf8(pop_first_scalar(s)));
}

/// Bytes wait only where more can make a character of them. Any others are
/// decoded at once, as what they are.
pub proof fn law_only_beginnings_wait(s: Seq<u8>)
    ensures
        cut_part(s).len() <= 3,
        whole_part(s) + cut_part(s) == s,
        cut_part(s).len() > 0 ==> exists|y: Seq<u8>|
            y.len() > 0 && valid_utf8(#[trigger] (cut_part(s) + y)),
{
    let c = cut_part(s);
    assert(whole_part(s) + c =~= s);
    if c.len() > 0 {
        assert(is_cut(c));
        let second: u8 = if c[0] == 0xe0 {
            0xa0
        } else if c[0] == 0xf0 {
            0x90
        } else {
            0x80
        };
        let w = encoded_width(c[0]);
        let y = Seq::new(
            (w - c.len()) as nat,
            |i: int|
                if c.len() + i == 1 {
                    second
                } else {
                    0x80u8
                },
        );
        let z = c + y;
        assert(z[0] == c[0]);
        assert(second_fits(z[0], z[1]));
        lemma_whole_character(z);
    }
}

} // verus!
