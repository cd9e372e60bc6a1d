//! The client's side of the session daemon.

use hyperpanes_core::assoc::StrMap;
use hyperpanes_core::session::claims::{ClaimInfo, ClaimRegistry};
use hyperpanes_core::session::daemon::{Action, Connection, Identity};
use hyperpanes_core::session::daemon_client::{
    live_session_count, next_backoff, probe_daemon_identity, probe_frame, stale_daemon_fallback,
    DaemonSessionManager, Move, Negotiation, Outcome, ProtoCheck, Received, StaleFallback,
    VersionPolicy, GONE, MIN_CLAIM_DAEMON_VER,
};
use hyperpanes_core::session::env::EnvMap;
use hyperpanes_core::session::proto::{
    spawn_spec_from, ClientMsg, DaemonMsg, Integration, SessionEvent, SessionMeta, SpawnOptions,
    PROTO_VER,
};
use hyperpanes_core::session::replay::{utf16_tail, Replay, REPLAY_MAX};
use hyperpanes_core::session::shadow::{
    apply_event_to_shadow, reconcile_snapshot, seed_snapshot, splice_replay, Shadow,
};

const BUILD: &str = "1.0.0+0123456789abcdef";

fn env(pairs: &[(&str, &str)]) -> EnvMap {
    let mut env: EnvMap = StrMap::new();
    for (k, v) in pairs {
        env.insert(k, v.to_string());
    }
    env
}

#[test]
fn spawn_spec_from_pins_uid_and_flattens_integration() {
    let opts = SpawnOptions {
        uid: "pane-9".into(),
        shell: Some("/bin/zsh".into()),
        command: Some("ls".into()),
        cwd: Some("/tmp".into()),
        integration: Some(Integration {
            args: vec!["-i".into()],
            env: env(&[("HP", "1")]),
        }),
        control_file: Some("/c.json".into()),
        ..Default::default()
    };
    let spec = spawn_spec_from(opts);
    assert_eq!(
        spec.uid.as_deref(),
        Some("pane-9"),
        "the GUI's uid is pinned on the wire"
    );
    assert_eq!(spec.command.as_deref(), Some("ls"));
    assert_eq!(spec.integration_args, vec!["-i".to_string()]);
    assert_eq!(
        spec.integration_env.get("HP").map(String::as_str),
        Some("1")
    );
    assert_eq!(spec.control_file.as_deref(), Some("/c.json"));
    assert_eq!(spec.into_options("pane-9".into()).uid, "pane-9");
}

#[test]
fn spawn_spec_from_no_integration_is_a_plain_shell() {
    let spec = spawn_spec_from(SpawnOptions {
        uid: "p1".into(),
        ..Default::default()
    });
    assert!(spec.integration_args.is_empty());
    assert!(spec.integration_env.is_empty());
    assert!(spec.into_options("p1".into()).integration.is_none());
}

#[test]
fn options_survive_the_wire() {
    let opts = SpawnOptions {
        uid: "p1".into(),
        command: Some("top".into()),
        args: Some(vec!["-b".into()]),
        cols: Some(80),
        rows: Some(24),
        env: Some(env(&[("A", "1")])),
        ..Default::default()
    };
    assert_eq!(spawn_spec_from(opts.clone()).into_options("p1".into()), opts);
}

fn shadows() -> StrMap<Shadow> {
    StrMap::new()
}

fn meta(uid: &str, foreground: Option<&str>) -> SessionMeta {
    SessionMeta {
        uid: uid.to_string(),
        cwd: None,
        output_bytes: 0,
        last_output_at: None,
        alive: true,
        cols: None,
        rows: None,
        foreground: foreground.map(str::to_string),
        fg_cwd: None,
    }
}

fn data(uid: &str, text: &str, cursor: u64) -> SessionEvent {
    SessionEvent::Data { uid: uid.into(), data: text.into(), cursor }
}

#[test]
fn a_snapshot_carries_the_foreground_name_in_both_directions() {
    let mut s = shadows();
    reconcile_snapshot(&mut s, &[meta("u1", Some("vim"))]);
    assert_eq!(s.get("u1").unwrap().foreground.as_deref(), Some("vim"));

    reconcile_snapshot(&mut s, &[meta("u1", None)]);
    assert_eq!(
        s.get("u1").unwrap().foreground,
        None,
        "a stale name would outlive the command that produced it"
    );
}

#[test]
fn a_snapshot_carries_the_sniffed_directory_without_touching_the_reported_one() {
    let mut s = shadows();
    let mut reported = meta("u1", Some("ssh"));
    reported.cwd = Some("/on/the/far/host".into());
    reconcile_snapshot(&mut s, &[reported]);

    let mut sniffed = meta("u1", Some("ssh"));
    sniffed.fg_cwd = Some("/here".into());
    reconcile_snapshot(&mut s, &[sniffed]);
    let shadow = s.get("u1").unwrap();
    assert_eq!(shadow.fg_cwd.as_deref(), Some("/here"));
    assert_eq!(
        shadow.cwd.as_deref(),
        Some("/on/the/far/host"),
        "the sniffed directory must not overwrite the reported one"
    );
}

#[test]
fn a_late_snapshot_never_walks_the_output_cursor_backwards() {
    let mut s = shadows();
    apply_event_to_shadow(&mut s, &data("u1", "abcd", 4), 1);
    let mut stale = meta("u1", None);
    stale.output_bytes = 2;
    reconcile_snapshot(&mut s, &[stale]);
    assert_eq!(s.get("u1").unwrap().output_bytes, 4);
}

#[test]
fn replay_splice_keeps_the_live_tail_past_the_cursor() {
    let mut sh = Shadow::new();
    sh.output_bytes = 2;
    sh.replay.append("cd");
    sh.output_bytes = 4;
    splice_replay(&mut sh, 3, "abc");
    assert_eq!(sh.replay.get(), "abcd");
    assert_eq!(sh.output_bytes, 4);
}

#[test]
fn replay_splice_replaces_a_fully_covered_mirror() {
    let mut sh = Shadow::new();
    sh.replay.append("bc");
    sh.output_bytes = 3;
    splice_replay(&mut sh, 5, "abcde");
    assert_eq!(sh.replay.get(), "abcde");
    assert_eq!(sh.output_bytes, 5, "the cursor advances to the replay's end");
}

#[test]
fn replay_splice_seeds_an_empty_mirror() {
    let mut sh = Shadow::new();
    splice_replay(&mut sh, 3, "abc");
    assert_eq!(sh.replay.get(), "abc");
    assert_eq!(sh.output_bytes, 3);
}

#[test]
fn utf16_tail_never_splits_a_surrogate_pair() {
    assert_eq!(utf16_tail("ab😀", 2), "😀");
    assert_eq!(utf16_tail("ab😀", 1), "", "one unit cannot hold a 2-unit char");
    assert_eq!(utf16_tail("ab😀", 3), "b😀");
    assert_eq!(utf16_tail("abc", 10), "abc");
    assert_eq!(utf16_tail("abc", 0), "");
}

#[test]
fn a_replay_keeps_the_newest_output() {
    let mut r = Replay::new();
    r.append(&"a".repeat(REPLAY_MAX as usize));
    r.append("bc");
    assert_eq!(r.get().len(), REPLAY_MAX as usize);
    assert!(r.get().ends_with("abc"));
}

#[test]
fn data_event_grows_mirror_and_counters() {
    let mut s = shadows();
    apply_event_to_shadow(&mut s, &data("u1", "ab", 2), 1);
    apply_event_to_shadow(&mut s, &data("u1", "😀", 4), 2);
    let sh = s.get("u1").unwrap();
    assert_eq!(sh.replay.get(), "ab😀");
    assert_eq!(sh.output_bytes, 4, "ab=2 + emoji=2 UTF-16 units");
    assert!(sh.last_output_at.is_some());
}

#[test]
fn cwd_event_updates_shadow_cwd() {
    let mut s = shadows();
    apply_event_to_shadow(
        &mut s,
        &SessionEvent::Cwd { uid: "u1".into(), cwd: "/tmp".into() },
        1,
    );
    assert_eq!(s.get("u1").unwrap().cwd.as_deref(), Some("/tmp"));
}

#[test]
fn exit_event_drops_the_shadow() {
    let mut s = shadows();
    apply_event_to_shadow(&mut s, &data("u1", "x", 1), 1);
    assert!(s.contains("u1"));
    apply_event_to_shadow(&mut s, &SessionEvent::Exit { uid: "u1".into(), code: 0 }, 2);
    assert!(!s.contains("u1"), "Exit drops the session shadow");
}

#[test]
fn an_event_touches_its_own_session_alone() {
    let mut s = shadows();
    apply_event_to_shadow(&mut s, &data("u1", "x", 1), 1);
    let before = s.get("u1").unwrap().replay.get().to_string();
    apply_event_to_shadow(&mut s, &data("u2", "y", 1), 2);
    apply_event_to_shadow(&mut s, &SessionEvent::Exit { uid: "u2".into(), code: 0 }, 3);
    assert_eq!(s.get("u1").unwrap().replay.get(), before);
    assert_eq!(s.get("u1").unwrap().last_output_at, Some(1));
}

#[test]
fn a_snapshot_drops_the_dead_and_spares_the_unconfirmed() {
    let mut s = shadows();
    s.insert("gone", Shadow::new());
    s.insert("new", Shadow::new_pending());
    reconcile_snapshot(&mut s, &[meta("live", None)]);
    assert_eq!(s.keys(), vec!["live", "new"]);
    reconcile_snapshot(&mut s, &[meta("live", None), meta("new", None)]);
    reconcile_snapshot(&mut s, &[meta("live", None)]);
    assert_eq!(s.keys(), vec!["live"], "once confirmed it is like any other");
}

#[test]
fn a_seeded_session_knows_its_grid() {
    let mut s = shadows();
    let mut m = meta("u1", None);
    m.cols = Some(132);
    m.rows = Some(43);
    seed_snapshot(&mut s, &[m]);
    assert_eq!(s.get("u1").unwrap().dims, Some((132, 43)));
}

fn hello(proto_ver: u32, build: &str) -> DaemonMsg {
    DaemonMsg::Hello { proto_ver, daemon_pid: 4242, conn_id: 1, build_id: build.into() }
}

#[test]
fn version_probe_matches_real_daemon_and_manager_works_after() {
    assert_eq!(
        probe_daemon_identity(PROTO_VER, BUILD, &[hello(PROTO_VER, BUILD)]),
        ProtoCheck::Match,
        "a same-version daemon must match"
    );
    let mut mgr = DaemonSessionManager::new();
    mgr.create(SpawnOptions { uid: "pm".into(), ..Default::default() });
    assert_eq!(
        mgr.write("pm", "echo PROBE_OK\n"),
        Ok(ClientMsg::Write { uid: "pm".into(), data: "echo PROBE_OK\n".into() })
    );
    assert!(matches!(
        mgr.receive(DaemonMsg::Event(data("pm", "PROBE_OK", 8)), 1),
        Received::Forward(_)
    ));
    assert_eq!(mgr.replay("pm").as_deref(), Some("PROBE_OK"));
}

#[test]
fn version_probe_detects_a_mismatched_daemon() {
    assert_eq!(
        probe_daemon_identity(PROTO_VER, BUILD, &[hello(PROTO_VER + 1, BUILD)]),
        ProtoCheck::Mismatch { daemon_ver: PROTO_VER + 1 },
        "a different-version daemon must be a Mismatch carrying the daemon's version"
    );
}

#[test]
fn version_probe_detects_a_daemon_of_another_build() {
    assert_eq!(
        probe_daemon_identity(PROTO_VER, BUILD, &[hello(PROTO_VER, "0.0.0+deadbeefdeadbeef")]),
        ProtoCheck::BuildMismatch { daemon_build: "0.0.0+deadbeefdeadbeef".into() },
        "a same-proto, other-build daemon must be a BuildMismatch carrying its build id"
    );
}

#[test]
fn a_daemon_that_reports_no_build_is_still_a_match() {
    assert_eq!(
        probe_daemon_identity(PROTO_VER, BUILD, &[hello(PROTO_VER, "")]),
        ProtoCheck::Match,
        "an unknown build must never look like a build worth upgrading to"
    );
}

#[test]
fn a_probe_skips_what_overtakes_the_answer_but_not_forever() {
    let frames = |n: usize| {
        let mut v: Vec<DaemonMsg> = (0..n).map(|_| DaemonMsg::Claims(vec![])).collect();
        v.push(hello(PROTO_VER + 1, BUILD));
        v
    };
    let seen = ProtoCheck::Mismatch { daemon_ver: PROTO_VER + 1 };
    assert_eq!(probe_daemon_identity(PROTO_VER, BUILD, &frames(7)), seen);
    assert_eq!(probe_daemon_identity(PROTO_VER, BUILD, &frames(8)), ProtoCheck::Match);
    assert_eq!(probe_frame(PROTO_VER, BUILD, &DaemonMsg::Pong), None);
}

#[test]
fn a_stale_daemon_holding_live_sessions_is_driven_not_torn_down() {
    let answer = DaemonMsg::Sessions(vec![meta("keepme", None)]);
    assert_eq!(live_session_count(&[answer]), Some(1), "one live session");
    assert_eq!(
        stale_daemon_fallback(Some(1), PROTO_VER - 1),
        StaleFallback::Drive,
        "a stale daemon with a live terminal must be driven, not killed"
    );
}

#[test]
fn an_empty_stale_daemon_is_still_torn_down_and_replaced() {
    assert_eq!(live_session_count(&[DaemonMsg::Sessions(vec![])]), Some(0), "no sessions");
    assert_eq!(
        stale_daemon_fallback(Some(0), PROTO_VER - 1),
        StaleFallback::TearDown,
        "an empty stale daemon is safe to replace"
    );
}

#[test]
fn an_unreadable_session_count_counts_as_occupied() {
    assert_eq!(live_session_count(&[DaemonMsg::Pong]), None, "no answer");
    assert_ne!(
        stale_daemon_fallback(None, PROTO_VER - 1),
        StaleFallback::TearDown,
        "an unconfirmed session count must never authorise a tear-down"
    );
    assert_eq!(stale_daemon_fallback(None, 0), StaleFallback::Refuse);
}

#[test]
fn dead_sessions_do_not_count() {
    let mut dead = meta("d", None);
    dead.alive = false;
    let answer = DaemonMsg::Sessions(vec![meta("a", None), dead, meta("b", None)]);
    assert_eq!(live_session_count(&[DaemonMsg::Pong, answer]), Some(2));
}

#[test]
fn no_claim_traffic_is_ever_sent_to_a_pre_m7_daemon() {
    let mut mgr = DaemonSessionManager::new();
    mgr.greeted(0, MIN_CLAIM_DAEMON_VER - 1);
    assert!(
        !mgr.claims_supported(),
        "a proto-{} daemon must be recognised as claim-blind",
        MIN_CLAIM_DAEMON_VER - 1
    );
    assert_eq!(mgr.claim("orphan"), None);
    assert_eq!(mgr.announce_claim("orphan"), None);
    assert_eq!(mgr.release("orphan"), None);
    assert_eq!(mgr.request_claims(), None);
    assert!(
        mgr.claims_held_elsewhere().is_empty(),
        "no snapshots arrive, so nothing reads as somebody else's"
    );
}

#[test]
fn a_current_daemon_enables_the_claim_surface() {
    let mut claims = ClaimRegistry::new();
    let mut cwds: StrMap<String> = StrMap::new();
    let mut conn = Connection::new();
    let me = Identity {
        proto_ver: PROTO_VER,
        daemon_pid: 1,
        conn_id: claims.next_conn_id(),
        build_id: BUILD.into(),
    };
    let mut mgr = DaemonSessionManager::new();
    let greeting = conn.dispatch(
        &mut cwds,
        &mut claims,
        ClientMsg::Hello { proto_ver: PROTO_VER },
        &me,
        "",
    );
    let Action::Reply(DaemonMsg::Hello { proto_ver, conn_id, .. }) = greeting.action else {
        panic!("a greeting is answered");
    };
    mgr.greeted(conn_id, proto_ver);
    assert!(mgr.claims_supported(), "a daemon of this build speaks the claim protocol");
    assert_ne!(mgr.conn_id(), 0, "and it minted us a connection id");
    let request = mgr.claim("orphan").unwrap();
    let served = conn.dispatch(&mut cwds, &mut claims, request, &me, "");
    let Action::Reply(reply) = served.action else {
        panic!("a claim is answered");
    };
    assert!(
        DaemonSessionManager::claim_granted(Some(&reply), "orphan"),
        "an unheld uid is granted"
    );
    mgr.receive(DaemonMsg::Claims(served.claims.unwrap()), 1);
    assert!(mgr.claims_held_elsewhere().is_empty(), "it is our own");
}

#[test]
fn a_claim_without_an_answer_is_lost() {
    assert!(!DaemonSessionManager::claim_granted(None, "u"));
    let other = DaemonMsg::ClaimResult { uid: "v".into(), granted: true, owner: None };
    assert!(!DaemonSessionManager::claim_granted(Some(&other), "u"));
}

#[test]
fn only_other_peoples_claims_are_elsewhere() {
    let mut mgr = DaemonSessionManager::new();
    mgr.greeted(7, PROTO_VER);
    let list = vec![
        ClaimInfo { uid: "mine".into(), owner: 7 },
        ClaimInfo { uid: "theirs".into(), owner: 8 },
    ];
    assert!(matches!(mgr.receive(DaemonMsg::Claims(list), 1), Received::Absorbed));
    assert_eq!(mgr.claims_held_elsewhere(), vec!["theirs"]);
}

#[test]
fn a_dead_socket_empties_has_and_uids_and_fails_writes() {
    let mut mgr = DaemonSessionManager::new();
    mgr.create(SpawnOptions { uid: "g".into(), ..Default::default() });
    mgr.receive(DaemonMsg::Event(data("g", "GONE_READY", 10)), 1);
    assert!(mgr.has("g"));
    assert!(mgr.is_connected());

    mgr.note_disconnected();
    assert!(!mgr.is_connected());
    assert!(
        !mgr.has("g"),
        "a dead daemon holds no sessions, whatever the frozen shadow still says"
    );
    assert!(mgr.uids().is_empty(), "and no uids either");
    assert_eq!(mgr.write("g", "x"), Err(GONE.to_string()));
}

#[test]
fn manager_shutdown_daemon_tears_the_daemon_down() {
    let mut mgr = DaemonSessionManager::new();
    mgr.create(SpawnOptions { uid: "s".into(), ..Default::default() });
    assert!(mgr.has("s"), "session present before shutdown");
    assert_eq!(mgr.shutdown_daemon(), ClientMsg::Shutdown);
    assert!(!mgr.has("s"), "shutdown_daemon clears the local shadow");
}

#[test]
fn a_reconnect_attaches_every_survivor_and_restores_its_output() {
    let mut mgr = DaemonSessionManager::new();
    let mut survivor = meta("s", None);
    survivor.cols = Some(100);
    survivor.rows = Some(30);
    let requests = mgr.seed_from_daemon(&[survivor]);
    assert_eq!(requests, vec![ClientMsg::Attach { uid: "s".into() }, ClientMsg::Ping]);
    assert!(DaemonSessionManager::new().seed_from_daemon(&[]).is_empty());
    assert_eq!(mgr.dims("s"), Some((100, 30)));
    mgr.receive(DaemonMsg::Event(data("s", "tail", 14)), 9);
    mgr.receive(DaemonMsg::Replay { uid: "s".into(), data: "0123456789".into(), cursor: 10 }, 9);
    assert_eq!(mgr.uids(), vec!["s"]);
    assert!(mgr.replay("s").unwrap().starts_with("0123456789"));
    assert_eq!(mgr.replay_with_cursor("s").unwrap().1, mgr.output_bytes("s").unwrap());
}

#[test]
fn requests_name_their_session() {
    let mut mgr = DaemonSessionManager::new();
    assert_eq!(mgr.resize("u", 80, 24), ClientMsg::Resize { uid: "u".into(), cols: 80, rows: 24 });
    assert_eq!(mgr.render_screen("u"), ClientMsg::RenderScreen { uid: "u".into() });
    assert_eq!(mgr.kill("u"), ClientMsg::Kill { uid: "u".into() });
    assert_eq!(mgr.kill_all(), ClientMsg::KillAll);
    let screen = DaemonMsg::Screen { uid: "u".into(), text: Some("text".into()) };
    assert_eq!(DaemonSessionManager::screen_reply(&screen, "u"), Some(Some("text".into())));
    assert_eq!(DaemonSessionManager::screen_reply(&screen, "v"), None);
}

#[test]
fn what_the_daemon_sniffed_is_answered_from_the_shadow() {
    let mut mgr = DaemonSessionManager::new();
    let mut m = meta("u", Some("vim"));
    m.fg_cwd = Some("/here".into());
    m.last_output_at = Some(3);
    mgr.receive(DaemonMsg::SessionsChanged(vec![m]), 5);
    assert_eq!(mgr.foreground_name("u").as_deref(), Some("vim"));
    assert_eq!(mgr.foreground_cwd("u").as_deref(), Some("/here"));
    assert_eq!(mgr.foreground_name("v"), None);
    mgr.receive(DaemonMsg::Event(data("u", "x", 1)), 8);
    assert_eq!(mgr.last_output_at("u"), Some(8));
}

#[test]
fn a_matching_daemon_is_used() {
    let (n, m) = Negotiation::new(VersionPolicy::LockStep);
    assert_eq!(m, Move::Probe);
    assert_eq!(n.next(Outcome::Matched).1, Move::UseIt);
}

#[test]
fn a_stale_daemon_is_asked_to_hand_over_and_spared_where_it_holds_sessions() {
    let (n, _) = Negotiation::new(VersionPolicy::LockStep);
    let (n, m) = n.next(Outcome::OtherVersion(2));
    assert_eq!(m, Move::HandOver);
    let (n, m) = n.next(Outcome::HandedOver(false));
    assert_eq!(m, Move::CountSessions);
    assert_eq!(n.next(Outcome::Counted(Some(8))).1, Move::ReconnectAndUse);
    assert_eq!(n.next(Outcome::Counted(None)).1, Move::ReconnectAndUse);
    let (n, m) = n.next(Outcome::Counted(Some(0)));
    assert_eq!(m, Move::TearDown);
    assert_eq!(n.next(Outcome::TornDown).1, Move::Probe);
}

#[test]
fn a_daemon_too_old_to_drive_is_left_alone() {
    let (n, _) = Negotiation::new(VersionPolicy::LockStep);
    let (n, _) = n.next(Outcome::OtherVersion(0));
    let (n, _) = n.next(Outcome::HandedOver(false));
    assert_eq!(n.next(Outcome::Counted(Some(1))).1, Move::Refuse);
}

#[test]
fn another_build_is_taken_over_once() {
    let (n, _) = Negotiation::new(VersionPolicy::LockStep);
    let (n, m) = n.next(Outcome::OtherBuild);
    assert_eq!(m, Move::HandOver);
    let (n, m) = n.next(Outcome::HandedOver(true));
    assert_eq!(m, Move::Probe);
    assert_eq!(n.next(Outcome::OtherBuild).1, Move::UseIt);
}

#[test]
fn a_tolerant_client_takes_what_is_there() {
    let (n, _) = Negotiation::new(VersionPolicy::Tolerant);
    for o in [Outcome::Matched, Outcome::OtherBuild, Outcome::OtherVersion(1)] {
        assert_eq!(n.next(o).1, Move::UseIt);
    }
}

#[test]
fn pauses_grow_to_a_fifth_of_a_second() {
    assert_eq!(next_backoff(25), 50);
    assert_eq!(next_backoff(100), 200);
    assert_eq!(next_backoff(150), 200);
    assert_eq!(next_backoff(200), 200);
}
