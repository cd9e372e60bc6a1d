//! The batching of a session's output.

use hyperpanes_core::session::batcher::{DataBatcher, BATCH_MAX_SIZE};

#[test]
fn small_writes_do_not_flush_synchronously_and_arm_a_timer() {
    let mut b = DataBatcher::new();
    assert_eq!(b.write("hello", 1000), None);
    assert_eq!(b.write(" world", 1002), None);
    assert_eq!(b.deadline(), Some(1016));
    assert!(b.has_pending());
}

#[test]
fn time_flush_returns_the_coalesced_data_and_clears_state() {
    let mut b = DataBatcher::new();
    b.write("a", 0);
    b.write("b", 5);
    b.write("c", 10);
    assert_eq!(b.deadline(), Some(16));
    assert_eq!(b.flush(), Some("abc".to_string()));
    assert_eq!(b.deadline(), None);
    assert!(!b.has_pending());
    assert_eq!(b.flush(), None);
}

#[test]
fn size_overflow_flushes_existing_data_then_rebatches_the_new_chunk() {
    let mut b = DataBatcher::new();
    let half = "x".repeat(BATCH_MAX_SIZE - 10);
    assert_eq!(b.write(&half, 100), None);
    assert_eq!(b.deadline(), Some(116));

    let next = "y".repeat(50);
    let flushed = b.write(&next, 200).expect("size-triggered flush");
    assert_eq!(flushed, half);
    assert_eq!(b.deadline(), Some(216));
    assert_eq!(b.flush(), Some(next));
}

#[test]
fn a_single_oversized_chunk_does_not_flush_immediately() {
    let mut b = DataBatcher::new();
    let huge = "z".repeat(BATCH_MAX_SIZE + 100);
    assert_eq!(b.write(&huge, 0), None);
    assert!(b.has_pending());
    assert_eq!(b.deadline(), Some(16));
    assert_eq!(b.flush(), Some(huge));
}

#[test]
fn size_threshold_counts_utf16_code_units_not_bytes() {
    let mut b = DataBatcher::new();
    let emoji = "😀"; // 1 char, 2 UTF-16 units, 4 bytes
    b.write(emoji, 0);
    assert_eq!(b.len_u16, 2);
    assert_eq!(b.flush(), Some(emoji.to_string()));
}

#[test]
fn idle_batcher_has_no_deadline() {
    let b = DataBatcher::new();
    assert_eq!(b.deadline(), None);
    assert!(!b.has_pending());
}

#[test]
fn written_characters_leave_in_order_and_none_is_lost() {
    let mut b = DataBatcher::default();
    let first = "a".repeat(BATCH_MAX_SIZE - 1);
    let mut out = String::new();
    for chunk in [first.as_str(), "b", "c"] {
        if let Some(s) = b.write(chunk, 0) {
            out.push_str(&s);
        }
    }
    out.push_str(&b.flush().unwrap());
    assert_eq!(out, format!("{first}bc"));
}

#[test]
fn whatever_the_calls_the_output_is_handed_out_once() {
    let big = "x".repeat(BATCH_MAX_SIZE - 1);
    let mut b = DataBatcher::new();
    let mut out = Vec::new();
    let mut written = String::new();
    for (i, chunk) in ["a", "", "bc", big.as_str(), "d", big.as_str(), "é"].iter().enumerate() {
        written.push_str(chunk);
        out.extend(b.write(chunk, i as u64));
        if i % 3 == 2 {
            out.extend(b.flush());
        }
    }
    out.extend(b.flush());
    assert_eq!(out.concat(), written);
    assert!(out.iter().all(|s| !s.is_empty()));
    assert_eq!(b.deadline(), None);
    assert!(!b.has_pending());
    assert_eq!(b.flush(), None);
}
