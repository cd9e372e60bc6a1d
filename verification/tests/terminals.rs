//! Terminals that were handed over, and the decoding of what they write.

use hyperpanes_core::session::adopt::{
    foreground_pgrp, grid_size, read_step, write_step, AdoptedPty, ReadStep, WriteStep, KILLED,
    UNKNOWN_EXIT,
};
use hyperpanes_core::session::attach::Fault;
use hyperpanes_core::session::decode::decode_utf8_streaming;

#[test]
fn a_stream_decodes_the_same_however_it_is_cut() {
    let text = "a\u{e9}\u{20ac}\u{1f600}z";
    let bytes = text.as_bytes();
    for cut in 0..=bytes.len() {
        let mut carry: Vec<u8> = Vec::new();
        let mut got = decode_utf8_streaming(&mut carry, &bytes[..cut]);
        got.push_str(&decode_utf8_streaming(&mut carry, &bytes[cut..]));
        assert_eq!(got, text, "cut at {cut}");
        assert!(carry.is_empty());
    }
}

#[test]
fn a_cut_character_is_kept_back() {
    let mut carry: Vec<u8> = Vec::new();
    assert_eq!(decode_utf8_streaming(&mut carry, &[b'x', 0xE2, 0x82]), "x");
    assert_eq!(carry, vec![0xE2, 0x82]);
    assert_eq!(decode_utf8_streaming(&mut carry, &[0xAC]), "\u{20ac}");
}

#[test]
fn bytes_that_begin_no_character_are_replaced() {
    let mut carry: Vec<u8> = Vec::new();
    assert_eq!(decode_utf8_streaming(&mut carry, &[b'a', 0xFF, b'b']), "a\u{fffd}b");
    assert!(carry.is_empty());
}

#[test]
fn partial_writes_go_on_and_interruptions_are_tried_again() {
    assert_eq!(write_step(10, 0, Ok(4)), WriteStep::Continue(4));
    assert_eq!(write_step(10, 4, Err(Fault::Interrupted)), WriteStep::Continue(4));
    assert_eq!(write_step(10, 4, Ok(6)), WriteStep::Done);
    assert_eq!(write_step(10, 4, Err(Fault::BrokenPipe)), WriteStep::Failed(Fault::BrokenPipe));
}

#[test]
fn the_end_of_the_output_is_the_end_of_the_session() {
    assert_eq!(read_step(Ok(0)), ReadStep::Exit(UNKNOWN_EXIT));
    assert_eq!(read_step(Ok(3)), ReadStep::Data(3));
    assert_eq!(read_step(Err(Fault::Interrupted)), ReadStep::Again);
    assert_eq!(read_step(Err(Fault::Other)), ReadStep::Exit(UNKNOWN_EXIT));
}

#[test]
fn a_killed_terminal_is_hung_up_once() {
    let mut pty = AdoptedPty::new(Some(30));
    assert_eq!(pty.check_open(), Ok(()));
    assert_eq!(pty.handoff_info(Some(40)), Some(Some(40)));
    assert_eq!(pty.handoff_info(None), Some(Some(30)));
    assert_eq!(pty.kill(None), Some(Some(30)));
    assert_eq!(pty.kill(None), None);
    assert_eq!(pty.handoff_info(None), None);
    assert_eq!(pty.check_open(), Err(KILLED.to_string()));
}

#[test]
fn only_a_positive_number_is_a_process_group() {
    assert_eq!(foreground_pgrp(12), Some(12));
    assert_eq!(foreground_pgrp(0), None);
    assert_eq!(foreground_pgrp(-1), None);
}

#[test]
fn a_terminal_has_at_least_one_cell() {
    assert_eq!(grid_size(0, 0), (1, 1));
    assert_eq!(grid_size(80, 24), (80, 24));
}
