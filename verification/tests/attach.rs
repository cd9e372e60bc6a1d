//! A client that follows one session.

use hyperpanes_core::session::attach::{
    detach_key_label, fits, handshake, is_disconnect, no_daemon_error, parse_detach_key,
    pump_input, resolve_uid, AttachWriter, Attachment, DetachFilter, Fault, Opening, PumpEnd,
    ResizePolicy, UidMatch, DEFAULT_DETACH_PREFIX,
};
use hyperpanes_core::session::proto::{ClientMsg, DaemonMsg, SessionEvent, SessionMeta};

fn meta(uid: &str) -> SessionMeta {
    SessionMeta {
        uid: uid.to_string(),
        cwd: None,
        output_bytes: 0,
        last_output_at: None,
        alive: true,
        cols: None,
        rows: None,
        foreground: None,
        fg_cwd: None,
    }
}

#[test]
fn detach_key_accepts_the_spellings_a_person_types() {
    assert_eq!(parse_detach_key("C-\\"), Ok(0x1C));
    assert_eq!(parse_detach_key("c-\\"), Ok(0x1C));
    assert_eq!(parse_detach_key("ctrl-\\"), Ok(0x1C));
    assert_eq!(parse_detach_key("^\\"), Ok(0x1C));
    assert_eq!(parse_detach_key("C-]"), Ok(0x1D));
    assert_eq!(parse_detach_key("C-a"), Ok(0x01));
    assert_eq!(parse_detach_key("C-A"), Ok(0x01));
    assert_eq!(parse_detach_key("ctrl-o"), Ok(0x0F));
    assert_eq!(parse_detach_key("\u{1c}"), Ok(0x1C));
    assert_eq!(DEFAULT_DETACH_PREFIX, 0x1C);
}

#[test]
fn detach_key_rejects_anything_that_would_eat_a_normal_keystroke() {
    assert!(parse_detach_key("x").is_err());
    assert!(parse_detach_key("C-1").is_err());
    assert!(parse_detach_key("C-").is_err());
    assert!(parse_detach_key("").is_err());
    assert!(parse_detach_key("C-esc").is_err());
}

#[test]
fn detach_key_label_round_trips_the_default() {
    assert_eq!(detach_key_label(DEFAULT_DETACH_PREFIX), "C-\\");
    assert_eq!(detach_key_label(0x01), "C-A");
    assert_eq!(
        parse_detach_key(&detach_key_label(DEFAULT_DETACH_PREFIX)),
        Ok(DEFAULT_DETACH_PREFIX)
    );
}

#[test]
fn ordinary_keystrokes_pass_through_untouched() {
    let mut f = DetachFilter::new(DEFAULT_DETACH_PREFIX);
    let out = f.feed(b"ls -la\r");
    assert_eq!(out.forward, b"ls -la\r");
    assert!(!out.detach);
    assert!(!f.armed());
}

#[test]
fn prefix_then_d_detaches_and_forwards_nothing_after_it() {
    let mut f = DetachFilter::new(DEFAULT_DETACH_PREFIX);
    let out = f.feed(b"echo\x1cdrest");
    assert_eq!(out.forward, b"echo", "the prefix is never forwarded");
    assert!(out.detach);
}

#[test]
fn the_prefix_is_stateful_across_read_boundaries() {
    let mut f = DetachFilter::new(DEFAULT_DETACH_PREFIX);
    let first = f.feed(b"\x1c");
    assert!(first.forward.is_empty());
    assert!(!first.detach);
    assert!(f.armed());
    let second = f.feed(b"d");
    assert!(second.detach);
}

#[test]
fn doubling_the_prefix_sends_one_literal_through() {
    let mut f = DetachFilter::new(DEFAULT_DETACH_PREFIX);
    let out = f.feed(b"\x1c\x1c");
    assert_eq!(out.forward, b"\x1c", "SIGQUIT is still reachable");
    assert!(!out.detach);
    assert!(!f.armed());
}

#[test]
fn an_unknown_command_key_drops_the_prefix_and_keeps_the_key() {
    let mut f = DetachFilter::new(DEFAULT_DETACH_PREFIX);
    let out = f.feed(b"\x1cz");
    assert_eq!(out.forward, b"z");
    assert!(!out.detach);
}

#[test]
fn a_custom_prefix_is_honoured_and_the_default_becomes_ordinary_input() {
    let mut f = DetachFilter::new(parse_detach_key("C-]").unwrap());
    let out = f.feed(b"\x1c\x1dd");
    assert_eq!(out.forward, b"\x1c", "C-\\ is just a byte now");
    assert!(out.detach);
}

#[test]
fn resolve_uid_prefers_an_exact_match_over_a_prefix_of_another() {
    let s = [meta("pane-ab"), meta("pane-abcd")];
    assert_eq!(resolve_uid(&s, "pane-ab"), UidMatch::One("pane-ab".into()));
}

#[test]
fn resolve_uid_accepts_a_unique_prefix_or_substring() {
    let s = [meta("pane-aaa111"), meta("pane-bbb222")];
    assert_eq!(
        resolve_uid(&s, "pane-aaa"),
        UidMatch::One("pane-aaa111".into())
    );
    assert_eq!(resolve_uid(&s, "bbb"), UidMatch::One("pane-bbb222".into()));
}

#[test]
fn resolve_uid_reports_ambiguity_rather_than_guessing() {
    let s = [meta("pane-aaa111"), meta("pane-aaa222")];
    match resolve_uid(&s, "pane-aaa") {
        UidMatch::Ambiguous(v) => assert_eq!(v.len(), 2),
        other => panic!("expected ambiguity, got {other:?}"),
    }
    assert_eq!(resolve_uid(&s, "zzz"), UidMatch::Nothing);
    assert_eq!(resolve_uid(&s, "  "), UidMatch::Nothing);
}

#[test]
fn observe_is_the_default_resize_policy() {
    assert_eq!(ResizePolicy::default(), ResizePolicy::Observe);
}

#[test]
fn fits_is_the_letterbox_test() {
    assert_eq!(fits((120, 40), (Some(80), Some(24))), Some(true));
    assert_eq!(fits((80, 24), (Some(80), Some(24))), Some(true));
    assert_eq!(fits((60, 40), (Some(80), Some(24))), Some(false));
    assert_eq!(fits((120, 20), (Some(80), Some(24))), Some(false));
    assert_eq!(fits((80, 24), (None, None)), None);
    assert_eq!(fits((80, 24), (Some(80), None)), None);
}

/// A `Data` event without a cursor.
fn data(uid: &str, s: &str) -> DaemonMsg {
    at(uid, s, 0)
}

/// A `Data` event that ends at `cursor`.
fn at(uid: &str, s: &str, cursor: u64) -> DaemonMsg {
    DaemonMsg::Event(SessionEvent::Data { uid: uid.into(), data: s.into(), cursor })
}

fn exit(uid: &str, code: i32) -> DaemonMsg {
    DaemonMsg::Event(SessionEvent::Exit { uid: uid.into(), code })
}

fn replay(uid: &str, data: &str, cursor: u64) -> DaemonMsg {
    DaemonMsg::Replay { uid: uid.into(), data: data.into(), cursor }
}

/// An attachment whose seed had no cursor.
fn attachment(uid: &str, repaint_prefix: &[u8]) -> Attachment {
    let mut att = Opening::new(uid).0.attached(0);
    att.set_repaint_prefix(repaint_prefix.to_vec());
    att
}

#[test]
fn pump_output_copies_data_repaints_on_replay_and_stops_at_exit() {
    let mut att = attachment("pane-1", b"<CLR>");
    let out = att.pump_output(&[
        data("pane-1", "hi "),
        replay("pane-1", "redrawn", 0),
        data("pane-2", "LEAK"),
        exit("pane-1", 3),
    ]);
    assert_eq!(out.end, Some(PumpEnd::Exited(3)));
    assert_eq!(String::from_utf8(out.bytes).expect("utf8"), "hi <CLR>redrawn");
}

#[test]
fn data_already_inside_the_replay_seed_is_not_painted_twice() {
    let (mut att, seed) =
        Attachment::open("pane-1", vec![replay("pane-1", "SEED", 10)]).expect("open");
    assert_eq!(seed, "SEED");
    let out = att.pump_output(&[
        at("pane-1", "SEED-tail", 10),
        at("pane-1", "older", 4),
        at("pane-1", "NEW", 13),
        exit("pane-1", 0),
    ]);
    assert_eq!(out.end, Some(PumpEnd::Exited(0)));
    assert_eq!(
        String::from_utf8(out.bytes).expect("utf8"),
        "NEW",
        "only output past the seed's cursor reaches the terminal"
    );
}

#[test]
fn a_repaint_moves_the_splice_point_to_its_own_snapshot() {
    let mut att = attachment("pane-1", b"<CLR>");
    let out = att.pump_output(&[
        replay("pane-1", "REDRAWN", 40),
        at("pane-1", "already-drawn", 40),
        at("pane-1", "after", 45),
        replay("pane-1", "", 5),
        at("pane-1", "stale", 20),
        exit("pane-1", 0),
    ]);
    assert_eq!(out.end, Some(PumpEnd::Exited(0)));
    assert_eq!(String::from_utf8(out.bytes).expect("utf8"), "<CLR>REDRAWNafter<CLR>");
}

#[test]
fn an_uncursored_daemon_still_gets_every_byte_forwarded() {
    let mut att = attachment("pane-1", b"");
    let out = att.pump_output(&[data("pane-1", "one "), data("pane-1", "two"), exit("pane-1", 0)]);
    assert_eq!(out.end, Some(PumpEnd::Exited(0)));
    assert_eq!(String::from_utf8(out.bytes).expect("utf8"), "one two");
}

#[test]
fn pump_output_reports_a_closed_connection_as_a_detach_not_an_error() {
    let mut att = attachment("pane-1", b"");
    let out = att.pump_output(&[]);
    assert_eq!(out.end, Some(PumpEnd::Disconnected));
    for fault in [
        Fault::ConnectionReset,
        Fault::ConnectionAborted,
        Fault::BrokenPipe,
        Fault::NotConnected,
        Fault::UnexpectedEof,
    ] {
        assert!(is_disconnect(fault), "{fault:?}");
    }
    assert!(!is_disconnect(Fault::Interrupted));
    assert!(!is_disconnect(Fault::Other));
}

#[test]
fn open_stashes_events_that_arrive_before_the_replay_seed() {
    let (mut att, seed) =
        Attachment::open("pane-1", vec![data("pane-1", "early"), replay("pane-1", "SEED", 0)])
            .expect("open");
    assert_eq!(seed, "SEED");
    let out = att.pump_output(&[data("pane-1", "late"), exit("pane-1", 0)]);
    assert_eq!(out.end, Some(PumpEnd::Exited(0)));
    assert_eq!(
        String::from_utf8(out.bytes).expect("utf8"),
        "earlylate",
        "the pre-seed event is not lost, and stays ahead of the live stream"
    );
}

#[test]
fn without_a_seed_there_is_no_attachment() {
    assert!(Attachment::open("pane-1", vec![data("pane-1", "x"), replay("pane-2", "y", 1)]).is_none());
    assert_eq!(
        Opening::new("pane-1").0.timeout_error(),
        "the session daemon did not answer Attach for 'pane-1'"
    );
}

#[test]
fn an_opening_attaches_and_waits_for_its_seed() {
    let (mut opening, request) = Opening::new("pane-1");
    assert_eq!(request, ClientMsg::Attach { uid: "pane-1".into() });
    assert_eq!(opening.receive(data("pane-1", "x")), None);
    assert_eq!(opening.receive(DaemonMsg::Pong), None);
    assert_eq!(opening.receive(replay("pane-1", "y", 9)), Some(("y".to_string(), 9)));
    let mut att = opening.attached(9);
    assert_eq!(att.uid(), "pane-1");
    assert!(att.next_pending().is_some());
    assert!(att.next_pending().is_none());
}

fn writer() -> AttachWriter {
    AttachWriter { uid: "pane-1".into() }
}

/// Feeds reads to the input pump until it ends. Returns the messages that it
/// sends and whether the detach key ended it.
fn pump(reads: &[&[u8]], filter: &mut DetachFilter) -> (Vec<ClientMsg>, bool) {
    let mut carry: Vec<u8> = Vec::new();
    let mut sent = Vec::new();
    for buf in reads {
        let (msg, detached) = pump_input(buf, &mut carry, &writer(), filter);
        sent.extend(msg);
        if detached {
            return (sent, true);
        }
    }
    (sent, false)
}

fn typed(msgs: &[ClientMsg]) -> String {
    let mut got = String::new();
    for m in msgs {
        if let ClientMsg::Write { data, .. } = m {
            got.push_str(data);
        }
    }
    got
}

#[test]
fn pump_input_forwards_keystrokes_as_write_frames_and_stops_on_detach() {
    let mut filter = DetachFilter::new(DEFAULT_DETACH_PREFIX);
    let (sent, detached) = pump(&[b"ls\r\x1cdxyz"], &mut filter);
    assert!(detached, "the detach key ends the pump");
    assert_eq!(typed(&sent), "ls\r", "only the pre-detach bytes are written");
}

#[test]
fn pump_input_reassembles_a_multibyte_char_split_across_reads() {
    let mut filter = DetachFilter::new(DEFAULT_DETACH_PREFIX);
    let (sent, detached) = pump(&[&[0xC3], &[0xA9, b'!']], &mut filter);
    assert!(!detached);
    assert_eq!(typed(&sent), "é!");
}

#[test]
fn observe_policy_never_puts_a_resize_on_the_wire() {
    let mut filter = DetachFilter::new(DEFAULT_DETACH_PREFIX);
    let (mut msgs, _) = pump(&[b"hello\x1cd"], &mut filter);
    msgs.push(writer().request_resize(100, 30));
    let resizes: Vec<_> = msgs
        .iter()
        .filter(|m| matches!(m, ClientMsg::Resize { .. }))
        .collect();
    assert_eq!(
        resizes.len(),
        1,
        "exactly the one explicit request_resize, none from typing"
    );
    assert!(
        !msgs.iter().any(|m| matches!(
            m,
            ClientMsg::Kill { .. } | ClientMsg::KillAll | ClientMsg::Shutdown
        )),
        "an attach client must never kill or shut anything down"
    );
}

#[test]
fn only_a_requesting_terminal_resizes_the_session() {
    assert_eq!(
        writer().terminal_resized(ResizePolicy::Observe, 100, 30),
        ClientMsg::Attach { uid: "pane-1".into() }
    );
    assert_eq!(
        writer().terminal_resized(ResizePolicy::Request, 100, 30),
        ClientMsg::Resize { uid: "pane-1".into(), cols: 100, rows: 30 }
    );
}

#[test]
fn nothing_typed_sends_nothing() {
    assert_eq!(writer().send_input(""), None);
    assert_eq!(
        writer().send_input("x"),
        Some(ClientMsg::Write { uid: "pane-1".into(), data: "x".into() })
    );
}

#[test]
fn how_input_is_cut_does_not_matter() {
    let input = b"ab\x1c\x1cc\x1czd";
    let mut whole = DetachFilter::new(DEFAULT_DETACH_PREFIX);
    let all = whole.feed(input);
    for cut in 0..=input.len() {
        let mut f = DetachFilter::new(DEFAULT_DETACH_PREFIX);
        let mut forward = f.feed(&input[..cut]).forward;
        forward.extend(f.feed(&input[cut..]).forward);
        assert_eq!(forward, all.forward, "cut at {cut}");
    }
}

#[test]
fn every_control_key_has_a_label_that_parses_back() {
    for key in 1u8..=0x1f {
        assert_eq!(parse_detach_key(&detach_key_label(key)), Ok(key), "{key:#04x}");
    }
}

#[test]
fn a_detach_key_that_is_refused_says_why() {
    assert_eq!(parse_detach_key(" "), Err("empty detach key".to_string()));
    for spec in ["x", "C-1", "C-", "C-esc", "C-?", "^?"] {
        assert!(parse_detach_key(spec).unwrap_err().contains(spec), "{spec}");
    }
}

#[test]
fn the_first_greeting_gives_the_version() {
    let hello = |v| DaemonMsg::Hello {
        proto_ver: v,
        daemon_pid: 1,
        conn_id: 1,
        build_id: String::new(),
    };
    assert_eq!(handshake(&[DaemonMsg::Pong, hello(2), hello(3)]), Some(2));
    assert_eq!(handshake(&[DaemonMsg::Pong]), None);
}

#[test]
fn a_missing_daemon_is_named_by_its_endpoint() {
    assert_eq!(
        no_daemon_error("/run/hp.sock"),
        "no hyperpanes session daemon is running for this install (/run/hp.sock). Start hyperpanes, or check HYPERPANES_USER_DATA_DIR."
    );
}

#[test]
fn a_filter_watches_for_no_key_by_default() {
    let mut f = DetachFilter::default();
    assert_eq!(f, DetachFilter::new(0));
    assert_eq!(f.feed(b"\x1cd").forward, b"\x1cd");
}

#[test]
fn the_outermost_control_keys_are_the_at_sign_and_the_underscore() {
    assert_eq!(parse_detach_key("C-@"), Ok(0x00));
    assert_eq!(parse_detach_key("C-_"), Ok(0x1f));
    assert_eq!(
        parse_detach_key("C-?"),
        Err("'C-?' is not a control key (Ctrl- works on @, A-Z, [, \\, ], ^, _)".to_string())
    );
}
