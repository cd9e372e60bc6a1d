//! The identity of a build, carried in the handshake with the daemon.
//!
//! It is the version and a hash of the executable's identity on disk: its path,
//! its length and its modification time. Two builds are the same or they are
//! not; there is no order between them.

use crate::session::fnv::{fnv1a, Fnv};
use crate::text::{hex, hexadecimal, owned, same};
use vstd::prelude::*;
use vstd::string::*;
use vstd::utf8::*;

verus! {

/// The `n` low bytes of `v`, the lowest first.
pub open spec fn le_bytes(v: nat, n: nat) -> Seq<u8>
    decreases n,
{
    if n == 0 {
        Seq::empty()
    } else {
        seq![(v % 256) as u8] + le_bytes(v / 256, (n - 1) as nat)
    }
}

fn push_le_bytes(out: &mut Vec<u8>, v: u64, n: u8)
    ensures
        final(out)@ == old(out)@ + le_bytes(v as nat, n as nat),
    decreases n,
{
    if n == 0 {
        assert(out@ =~= old(out)@ + le_bytes(v as nat, 0));
        return;
    }
    let ghost before = out@;
    out.push((v % 256) as u8);
    push_le_bytes(out, v / 256, n - 1);
    assert(out@ =~= before + le_bytes(v as nat, n as nat));
}

/// The bytes that identify an executable: its path, its length, and its
/// modification time in seconds and nanoseconds, where it has one.
pub open spec fn identity_bytes(path: Seq<char>, len: u64, modified: Option<(u64, u32)>) -> Seq<
    u8,
> {
    let head = encode_utf8(path) + le_bytes(len as nat, 8);
    match modified {
        Some((secs, nanos)) => head + le_bytes(secs as nat, 8) + le_bytes(nanos as nat, 4),
        None => head,
    }
}

/// The hash of an executable's identity.
pub fn fingerprint(path: &str, len: u64, modified: Option<(u64, u32)>) -> (r: u64)
    ensures
        r == fnv1a(identity_bytes(path@, len, modified)),
{
    let mut bytes = path.as_bytes_vec();
    push_le_bytes(&mut bytes, len, 8);
    if let Some((secs, nanos)) = modified {
        push_le_bytes(&mut bytes, secs, 8);
        push_le_bytes(&mut bytes, nanos as u64, 4);
    }
    let mut h = Fnv::new();
    h.write(bytes.as_slice());
    h.finish()
}

/// The identity of a build: its version, and the hash or `unknown`.
pub open spec fn build_name(version: Seq<char>, hash: Option<u64>) -> Seq<char> {
    match hash {
        Some(h) => version + "+"@ + hex(h as nat, 16),
        None => version + "+unknown"@,
    }
}

/// The identity of the build `version` whose executable has the hash `hash`.
pub fn build_id(version: &str, hash: Option<u64>) -> (r: String)
    ensures
        r@ == build_name(version@, hash),
{
    let mut s = owned(version);
    match hash {
        Some(h) => {
            s.append("+");
            s.append(hexadecimal(h, 16).as_str());
        },
        None => {
            s.append("+unknown");
        },
    }
    s
}

/// Whether a peer's build is known and is not our own.
pub open spec fn is_other_build(own: Seq<char>, peer: Seq<char>) -> bool {
    peer.len() > 0 && peer != own
}

/// Whether the build id that a peer reports names a build that is not `own`.
/// An empty id is unknown, and unknown never differs.
pub fn differs(own: &str, peer: &str) -> (r: bool)
    ensures
        r == is_other_build(own@, peer@),
{
    !peer.is_empty() && !same(peer, own)
}

/// Neither an unknown build nor our own is ever another build; any other is.
pub proof fn law_unknown_build_never_differs(own: Seq<char>, peer: Seq<char>)
    ensures
        !is_other_build(own, Seq::empty()),
        !is_other_build(own, own),
        peer.len() > 0 && peer != own ==> is_other_build(own, peer),
{
}

} // verus!
