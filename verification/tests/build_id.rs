//! The identity of a build.

use hyperpanes_core::session::build_id::{build_id, differs, fingerprint};

const VERSION: &str = "1.4.2";

fn own() -> String {
    build_id(VERSION, Some(fingerprint("/opt/hyperpanes", 4096, Some((1_700_000_000, 5)))))
}

#[test]
fn the_build_id_is_stable_within_a_process() {
    assert_eq!(own(), own());
}

#[test]
fn the_build_id_carries_the_crate_version() {
    assert!(own().starts_with(VERSION), "id {} should be prefixed by the version", own());
}

#[test]
fn an_unknown_peer_build_never_forces_an_upgrade() {
    let own = own();
    assert!(!differs(&own, ""), "an unknown build is not a mismatch");
    assert!(!differs(&own, &own), "our own build is not a mismatch");
    assert!(differs(&own, "0.0.0+deadbeefdeadbeef"), "another build is");
}

#[test]
fn a_build_without_a_file_is_of_an_unknown_build() {
    assert_eq!(build_id(VERSION, None), "1.4.2+unknown");
}

#[test]
fn the_hash_is_sixteen_hexadecimal_digits() {
    assert_eq!(build_id(VERSION, Some(0xdead_beef)), "1.4.2+00000000deadbeef");
}

#[test]
fn every_part_of_the_file_counts() {
    let a = fingerprint("/opt/hyperpanes", 4096, Some((1_700_000_000, 5)));
    assert_ne!(a, fingerprint("/opt/hyperpaneS", 4096, Some((1_700_000_000, 5))));
    assert_ne!(a, fingerprint("/opt/hyperpanes", 4097, Some((1_700_000_000, 5))));
    assert_ne!(a, fingerprint("/opt/hyperpanes", 4096, Some((1_700_000_000, 6))));
    assert_ne!(a, fingerprint("/opt/hyperpanes", 4096, None));
}

#[test]
fn the_fingerprint_of_nothing_is_the_offset_basis_over_eight_zero_bytes() {
    let mut h: u64 = 0xcbf2_9ce4_8422_2325;
    for _ in 0..8 {
        h = h.wrapping_mul(0x100_0000_01b3);
    }
    assert_eq!(fingerprint("", 0, None), h);
}
