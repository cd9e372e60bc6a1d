//! The bytes of the control-mode stream: `%output` escaping, the `-CC`
//! envelope, layout strings.

use crate::text::{dec, decimal, hex, hexadecimal};
use vstd::prelude::*;
use vstd::string::*;
use vstd::utf8::*;

verus! {

/// One control-mode line, without its terminating newline.
///
/// Bytes rather than text: an escaped `%output` payload keeps every byte from
/// 0x80 up as it is, which in general is not UTF-8.
pub type Line = Vec<u8>;

/// Opening DCS of the `-CC` envelope, `ESC P 1000 p`.
pub const DCS_OPEN: &'static [u8; 7] = &[0x1b, 0x50, 0x31, 0x30, 0x30, 0x30, 0x70];

/// Closing ST of the `-CC` envelope, `ESC \`.
pub const DCS_CLOSE: &'static [u8; 2] = &[0x1b, 0x5c];

/// Whether `a` and `b` hold the same bytes.
pub fn same_bytes(a: &[u8], b: &[u8]) -> (r: bool)
    ensures
        r == (a@ == b@),
{
    if a.len() != b.len() {
        return false;
    }
    let mut i: usize = 0;
    while i < a.len()
        invariant
            i <= a.len(),
            a.len() == b.len(),
            forall|k: int| 0 <= k < i ==> a@[k] == b@[k],
        decreases a.len() - i,
    {
        if a[i] != b[i] {
            return false;
        }
        i = i + 1;
    }
    assert(a@ =~= b@);
    true
}

/// Whether an emitted line takes a trailing newline on the wire: every line
/// does but the two strings of the `-CC` envelope.
pub fn needs_newline(line: &[u8]) -> (r: bool)
    ensures
        r == (line@ != DCS_OPEN@ && line@ != DCS_CLOSE@),
{
    !same_bytes(line, DCS_OPEN.as_slice()) && !same_bytes(line, DCS_CLOSE.as_slice())
}

// ---------------------------------------------------------------------------
// %output escaping
// ---------------------------------------------------------------------------

/// Whether a byte is escaped in a `%output` payload.
pub open spec fn escaped(b: u8) -> bool {
    b < 0x20 || b == 0x5c
}

/// How one byte is written in a `%output` payload: as `\` and three octal
/// digits, or as it is.
pub open spec fn escape_byte(b: u8) -> Seq<u8> {
    if escaped(b) {
        seq![0x5c, (0x30 + b / 64) as u8, (0x30 + (b / 8) % 8) as u8, (0x30 + b % 8) as u8]
    } else {
        seq![b]
    }
}

/// How bytes are written in a `%output` payload.
pub open spec fn escape(s: Seq<u8>) -> Seq<u8>
    decreases s.len(),
{
    if s.len() == 0 {
        Seq::empty()
    } else {
        escape_byte(s[0]) + escape(s.skip(1))
    }
}

/// Escapes raw pane bytes for a `%output` payload.
///
/// Bytes below 0x20 and the backslash become three-digit octal escapes; every
/// other byte, DEL and the range from 0x80 included, passes through.
pub fn escape_output(bytes: &[u8]) -> (r: Vec<u8>)
    ensures
        r@ == escape(bytes@),
{
    let mut out: Vec<u8> = Vec::new();
    let mut i: usize = 0;
    assert(bytes@.skip(0) =~= bytes@);
    assert(out@ + escape(bytes@) =~= escape(bytes@));
    while i < bytes.len()
        invariant
            i <= bytes.len(),
            out@ + escape(bytes@.skip(i as int)) == escape(bytes@),
        decreases bytes.len() - i,
    {
        let ghost before = out@;
        let b: u8 = bytes[i];
        if b < 0x20 || b == 0x5c {
            out.push(0x5c);
            out.push(0x30 + b / 64);
            out.push(0x30 + (b / 8) % 8);
            out.push(0x30 + b % 8);
        } else {
            out.push(b);
        }
        proof {
            let rest = bytes@.skip(i as int);
            assert(rest.skip(1) =~= bytes@.skip(i + 1));
            assert(out@ =~= before + escape_byte(b));
            assert(out@ + escape(rest.skip(1)) =~= before + (escape_byte(b) + escape(
                rest.skip(1),
            )));
        }
        i = i + 1;
    }
    assert(out@ + escape(bytes@.skip(i as int)) =~= out@);
    out
}

/// Whether a byte is an octal digit.
pub open spec fn octal(b: u8) -> bool {
    0x30 <= b <= 0x37
}

/// The value of three octal digits.
pub open spec fn octal_value(a: u8, b: u8, c: u8) -> int {
    (a - 0x30) * 64 + (b - 0x30) * 8 + (c - 0x30)
}

/// Whether `s` begins with an escape: a backslash and three octal digits whose
/// value is a byte.
pub open spec fn at_escape(s: Seq<u8>) -> bool {
    &&& s.len() > 3
    &&& s[0] == 0x5c
    &&& octal(s[1]) && octal(s[2]) && octal(s[3])
    &&& octal_value(s[1], s[2], s[3]) <= 0xff
}

/// What a `%output` payload stands for. A malformed escape stands for itself.
pub open spec fn unescape(s: Seq<u8>) -> Seq<u8>
    decreases s.len(),
{
    if s.len() == 0 {
        Seq::empty()
    } else if at_escape(s) {
        seq![octal_value(s[1], s[2], s[3]) as u8] + unescape(s.skip(4))
    } else {
        seq![s[0]] + unescape(s.skip(1))
    }
}

/// Reads a `%output` payload back. A malformed escape is passed through
/// literally rather than dropped.
pub fn unescape_output(bytes: &[u8]) -> (r: Vec<u8>)
    ensures
        r@ == unescape(bytes@),
{
    let mut out: Vec<u8> = Vec::new();
    let mut i: usize = 0;
    assert(bytes@.skip(0) =~= bytes@);
    assert(out@ + unescape(bytes@) =~= unescape(bytes@));
    while i < bytes.len()
        invariant
            i <= bytes.len(),
            out@ + unescape(bytes@.skip(i as int)) == unescape(bytes@),
        decreases bytes.len() - i,
    {
        let ghost before = out@;
        let ghost rest = bytes@.skip(i as int);
        let mut step: usize = 1;
        let mut v: u8 = bytes[i];
        if bytes[i] == 0x5c && bytes.len() - i > 3 {
            let a: u8 = bytes[i + 1];
            let b: u8 = bytes[i + 2];
            let c: u8 = bytes[i + 3];
            assert(rest[1] == a && rest[2] == b && rest[3] == c);
            if 0x30 <= a && a <= 0x37 && 0x30 <= b && b <= 0x37 && 0x30 <= c && c <= 0x37 {
                let wide: u16 = (a - 0x30) as u16 * 64 + (b - 0x30) as u16 * 8 + (c - 0x30) as u16;
                if wide <= 0xff {
                    step = 4;
                    v = wide as u8;
                }
            }
        }
        out.push(v);
        proof {
            assert(rest[0] == bytes@[i as int]);
            assert(at_escape(rest) == (step == 4));
            assert(rest.skip(step as int) =~= bytes@.skip(i + step));
            assert(out@ =~= before + seq![v]);
            assert(out@ + unescape(rest.skip(step as int)) =~= before + (seq![v] + unescape(
                rest.skip(step as int),
            )));
        }
        i = i + step;
    }
    assert(out@ + unescape(bytes@.skip(i as int)) =~= out@);
    out
}

/// Reading back an escaped payload gives the bytes that were escaped.
pub proof fn law_unescape_undoes_escape(s: Seq<u8>)
    ensures
        unescape(escape(s)) == s,
    decreases s.len(),
{
    if s.len() == 0 {
        assert(unescape(escape(s)) =~= s);
    } else {
        let b = s[0];
        let t = escape(s.skip(1));
        let e = escape_byte(b) + t;
        law_unescape_undoes_escape(s.skip(1));
        if escaped(b) {
            assert(e[1] == (0x30 + b / 64) as u8);
            assert(e[2] == (0x30 + (b / 8) % 8) as u8);
            assert(e[3] == (0x30 + b % 8) as u8);
            assert(octal_value(e[1], e[2], e[3]) == b);
            assert(e.skip(4) =~= t);
        } else {
            assert(e[0] == b);
            assert(e.skip(1) =~= t);
        }
        assert(seq![b] + s.skip(1) =~= s);
    }
}

/// An escaped payload holds no control byte, so neither a raw newline nor a
/// raw carriage return can end its line early.
pub proof fn law_escaped_payload_has_no_control_byte(s: Seq<u8>)
    ensures
        forall|i: int| 0 <= i < escape(s).len() ==> (#[trigger] escape(s)[i]) >= 0x20,
    decreases s.len(),
{
    if s.len() > 0 {
        law_escaped_payload_has_no_control_byte(s.skip(1));
        let e = escape_byte(s[0]);
        let t = escape(s.skip(1));
        assert forall|i: int| 0 <= i < escape(s).len() implies (#[trigger] escape(s)[i])
            >= 0x20 by {
            if i < e.len() {
                assert(escape(s)[i] == e[i]);
            } else {
                assert(escape(s)[i] == t[i - e.len()]);
            }
        }
    }
}

// ---------------------------------------------------------------------------
// Layout strings
// ---------------------------------------------------------------------------

/// A 16-bit value rotated right by one bit.
pub open spec fn rotate_right(c: nat) -> nat {
    c / 2 + (c % 2) * 0x8000
}

/// The layout checksum of a layout body: rotate right, then add the byte, in
/// 16 bits.
pub open spec fn checksum(s: Seq<u8>) -> nat
    decreases s.len(),
{
    if s.len() == 0 {
        0
    } else {
        (rotate_right(checksum(s.drop_last())) + s.last() as nat) % 0x10000
    }
}

/// The layout checksum of `body`.
pub fn layout_checksum(body: &str) -> (r: u16)
    ensures
        r as nat == checksum(encode_utf8(body@)),
{
    let b = body.as_bytes();
    let mut csum: u16 = 0;
    let mut i: usize = 0;
    assert(b@.take(0) =~= Seq::<u8>::empty());
    while i < b.len()
        invariant
            i <= b.len(),
            csum as nat == checksum(b@.take(i as int)),
        decreases b.len() - i,
    {
        assert((csum >> 1) | ((csum & 1) << 15) == csum / 2 + (csum % 2) * 0x8000)
            by (bit_vector);
        csum = (csum >> 1) | ((csum & 1) << 15);
        csum = csum.wrapping_add(b[i] as u16);
        assert(b@.take(i + 1).drop_last() =~= b@.take(i as int));
        i = i + 1;
    }
    assert(b@.take(b@.len() as int) =~= b@);
    csum
}

/// The body of the layout of a window that holds one pane.
pub open spec fn layout_body(cols: nat, rows: nat, pane_id: nat) -> Seq<char> {
    dec(cols) + "x"@ + dec(rows) + ",0,0,"@ + dec(pane_id)
}

/// The layout of a window that holds one pane.
pub open spec fn pane_layout(cols: nat, rows: nat, pane_id: nat) -> Seq<char> {
    let body = layout_body(cols, rows, pane_id);
    hex(checksum(encode_utf8(body)), 4) + ","@ + body
}

/// The layout string of a window that holds exactly one pane.
pub fn single_pane_layout(cols: u16, rows: u16, pane_id: u32) -> (r: String)
    ensures
        r@ == pane_layout(cols as nat, rows as nat, pane_id as nat),
{
    let mut body = decimal(cols as u64);
    body.append("x");
    body.append(decimal(rows as u64).as_str());
    body.append(",0,0,");
    body.append(decimal(pane_id as u64).as_str());
    let mut out = hexadecimal(layout_checksum(body.as_str()) as u64, 4);
    out.append(",");
    out.append(body.as_str());
    out
}

} // verus!
