//! The session daemon: what it answers, when it exits, how it hands over.

use hyperpanes_core::assoc::StrMap;
use hyperpanes_core::session::claims::ClaimRegistry;
use hyperpanes_core::session::daemon::{
    bind_budget_ms, creation_replies, daemon_names, fault_message, fnv1a64, handover_batches,
    handover_entries, idle_grace_from, keeps_open, list_sessions, note_event, pair_descriptors,
    replay_reply, runtime_dir, socket_path_for, stop_move, takeover_answered,
    takeover_lock_budget_ms, Action, Connection, Identity, IdleMonitor, Lifecycle, LockState, Reach,
    Served, SessionInfo, Startup, StartupEvent, StartupFault, StartupMove, StopMove,
    DEFAULT_IDLE_GRACE_MS, NO_ANSWER,
};
use hyperpanes_core::session::proto::{
    ClientMsg, DaemonMsg, SessionEvent, SpawnSpec, PROTO_VER,
};

/// A daemon without terminals: it mints `pane-1`, `pane-2` and so on.
struct Bench {
    cwds: StrMap<String>,
    claims: ClaimRegistry,
    minted: u32,
}

impl Bench {
    fn new() -> Bench {
        Bench { cwds: StrMap::new(), claims: ClaimRegistry::new(), minted: 0 }
    }

    fn accept(&mut self) -> (Connection, Identity) {
        let me = Identity {
            proto_ver: PROTO_VER,
            daemon_pid: 77,
            conn_id: self.claims.next_conn_id(),
            build_id: "1.0.0+unknown".into(),
        };
        (Connection::new(), me)
    }

    fn serve(&mut self, c: &mut (Connection, Identity), msg: ClientMsg) -> Served {
        self.minted += 1;
        let minted = format!("pane-{}", self.minted);
        c.0.dispatch(&mut self.cwds, &mut self.claims, msg, &c.1, &minted)
    }
}

fn data(uid: &str, text: &str) -> SessionEvent {
    SessionEvent::Data { uid: uid.into(), data: text.into(), cursor: text.len() as u64 }
}

fn shell() -> SpawnSpec {
    SpawnSpec {
        shell: Some("/bin/sh".into()),
        args: Some(vec!["-i".into()]),
        ..Default::default()
    }
}

#[test]
fn ping_and_empty_list_sessions() {
    let mut bench = Bench::new();
    let mut c = bench.accept();
    assert_eq!(bench.serve(&mut c, ClientMsg::Ping).action, Action::Reply(DaemonMsg::Pong));
    assert_eq!(bench.serve(&mut c, ClientMsg::ListSessions).action, Action::ListSessions);
    assert!(list_sessions(&vec![], &bench.cwds).is_empty(), "no sessions yet");
}

#[test]
fn a_greeting_is_answered_and_told_to_everyone() {
    let mut bench = Bench::new();
    let mut c = bench.accept();
    let s = bench.serve(&mut c, ClientMsg::Hello { proto_ver: 99 });
    assert_eq!(
        s.action,
        Action::Reply(DaemonMsg::Hello {
            proto_ver: PROTO_VER,
            daemon_pid: 77,
            conn_id: 1,
            build_id: "1.0.0+unknown".into(),
        })
    );
    assert_eq!(s.claims, Some(vec![]));
    assert!(s.sessions);
}

#[test]
fn two_clients_attached_to_one_session_both_receive_data() {
    let mut bench = Bench::new();
    let mut a = bench.accept();
    let mut b = bench.accept();
    let Action::Spawn(opts) = bench.serve(&mut a, ClientMsg::Create(shell())).action else {
        panic!("a create spawns");
    };
    let uid = opts.uid;
    assert!(a.0.forwards(&data(&uid, "x")), "the creator is attached already");
    assert!(!b.0.forwards(&data(&uid, "x")));
    for c in [&mut a, &mut b] {
        assert_eq!(
            bench.serve(c, ClientMsg::Attach { uid: uid.clone() }).action,
            Action::SendReplay { uid: uid.clone() }
        );
    }
    assert_eq!(
        bench.serve(&mut a, ClientMsg::Write { uid: uid.clone(), data: "echo MUX_MARKER\n".into() })
            .action,
        Action::Write { uid: uid.clone(), data: "echo MUX_MARKER\n".into() }
    );
    assert!(a.0.forwards(&data(&uid, "MUX_MARKER")), "client A should see the echoed marker");
    assert!(b.0.forwards(&data(&uid, "MUX_MARKER")), "client B should see the echoed marker");
    assert!(!a.0.forwards(&data("pane-other", "x")));
}

#[test]
fn a_pinned_uid_is_honored_and_a_missing_one_is_minted() {
    let mut bench = Bench::new();
    let mut c = bench.accept();
    let Action::Spawn(opts) = bench.serve(&mut c, ClientMsg::Create(shell())).action else {
        panic!("a create spawns");
    };
    assert_eq!(opts.uid, "pane-1");
    assert_eq!(opts.shell.as_deref(), Some("/bin/sh"));
    let spec = SpawnSpec { uid: Some("pane-mine".into()), ..shell() };
    let Action::Spawn(opts) = bench.serve(&mut c, ClientMsg::Create(spec)).action else {
        panic!("a create spawns");
    };
    assert_eq!(opts.uid, "pane-mine");
}

#[test]
fn a_failed_spawn_is_created_and_exits() {
    assert_eq!(
        creation_replies("u", false),
        (
            DaemonMsg::Created { uid: "u".into() },
            Some(SessionEvent::Exit { uid: "u".into(), code: -1 })
        )
    );
    assert_eq!(creation_replies("u", true), (DaemonMsg::Created { uid: "u".into() }, None));
}

#[test]
fn an_attach_is_answered_with_what_is_retained() {
    assert_eq!(
        replay_reply("u", Some(("out".into(), 3))),
        DaemonMsg::Replay { uid: "u".into(), data: "out".into(), cursor: 3 }
    );
    assert_eq!(
        replay_reply("u", None),
        DaemonMsg::Replay { uid: "u".into(), data: "".into(), cursor: 0 }
    );
}

#[test]
fn the_list_carries_directories_and_grids() {
    let mut bench = Bench::new();
    note_event(
        &mut bench.cwds,
        &mut bench.claims,
        &SessionEvent::Cwd { uid: "a".into(), cwd: "/tmp".into() },
    );
    let info = |uid: &str, dims| SessionInfo {
        uid: uid.into(),
        output_bytes: None,
        last_output_at: Some(5),
        dims,
        foreground: Some("vim".into()),
        fg_cwd: None,
    };
    let list = list_sessions(&vec![info("a", Some((80, 24))), info("b", None)], &bench.cwds);
    assert_eq!(list[0].cwd.as_deref(), Some("/tmp"));
    assert_eq!((list[0].cols, list[0].rows), (Some(80), Some(24)));
    assert_eq!(list[0].output_bytes, 0);
    assert_eq!(list[0].foreground.as_deref(), Some("vim"));
    assert!(list[0].alive);
    assert_eq!(list[1].cwd, None);
    assert_eq!((list[1].cols, list[1].rows), (None, None));
}

#[test]
fn killed_sessions_lose_their_directories() {
    let mut bench = Bench::new();
    let mut c = bench.accept();
    bench.cwds.insert("a", "/a".into());
    bench.cwds.insert("b", "/b".into());
    bench.cwds.insert("c", "/c".into());
    bench.serve(&mut c, ClientMsg::Kill { uid: "b".into() });
    assert_eq!(bench.cwds.keys(), vec!["a", "c"]);
    bench.serve(&mut c, ClientMsg::KillAll);
    assert!(bench.cwds.is_empty());
}

#[test]
fn a_claim_has_one_winner_and_everyone_is_told() {
    let mut bench = Bench::new();
    let mut a = bench.accept();
    let mut b = bench.accept();
    let claim = || ClientMsg::Claim { uid: "orphan".into() };
    let won = bench.serve(&mut a, claim());
    assert_eq!(
        won.action,
        Action::Reply(DaemonMsg::ClaimResult { uid: "orphan".into(), granted: true, owner: None })
    );
    assert_eq!(won.claims.unwrap()[0].owner, 1);
    let again = bench.serve(&mut a, claim());
    assert_eq!(again.claims, None, "claiming again changes nothing");
    let lost = bench.serve(&mut b, claim());
    assert_eq!(
        lost.action,
        Action::Reply(DaemonMsg::ClaimResult {
            uid: "orphan".into(),
            granted: false,
            owner: Some(1),
        })
    );
    assert_eq!(lost.claims, None);
}

#[test]
fn claims_are_released_listed_and_forgotten() {
    let mut bench = Bench::new();
    let mut a = bench.accept();
    let mut b = bench.accept();
    for uid in ["p", "q", "r"] {
        bench.serve(&mut a, ClientMsg::Claim { uid: uid.into() });
    }
    let refused = bench.serve(&mut b, ClientMsg::Release { uid: "p".into() });
    assert_eq!((refused.action, refused.claims), (Action::Nothing, None));
    let freed = bench.serve(&mut a, ClientMsg::Release { uid: "p".into() });
    assert_eq!(freed.claims.unwrap().len(), 2);
    let killed = bench.serve(&mut b, ClientMsg::Kill { uid: "q".into() });
    assert_eq!(killed.claims.unwrap().len(), 1);
    let Action::Reply(DaemonMsg::Claims(list)) =
        bench.serve(&mut b, ClientMsg::ListClaims).action
    else {
        panic!("a list is answered with the table");
    };
    assert_eq!(list[0].uid, "r");
    let exited = note_event(
        &mut bench.cwds,
        &mut bench.claims,
        &SessionEvent::Exit { uid: "r".into(), code: 0 },
    );
    assert_eq!(exited, Some(vec![]));
}

#[test]
fn a_connection_that_ends_frees_what_it_held() {
    let mut bench = Bench::new();
    let mut a = bench.accept();
    let mut b = bench.accept();
    bench.serve(&mut a, ClientMsg::Claim { uid: "p".into() });
    bench.serve(&mut b, ClientMsg::Claim { uid: "q".into() });
    let (conn, me) = a;
    let told = conn.closed(&mut bench.claims, me.conn_id).unwrap();
    assert_eq!(told.len(), 1);
    assert_eq!(told[0].uid, "q");
    assert!(Connection::new().closed(&mut bench.claims, me.conn_id).is_none());
}

#[test]
fn shutdown_message_tears_the_daemon_down() {
    let mut bench = Bench::new();
    let mut life = Lifecycle::new();
    let mut c = bench.accept();
    assert!(!life.is_shutting_down(), "not shutting down before the message");
    let a = bench.serve(&mut c, ClientMsg::Shutdown).action;
    assert_eq!(a, Action::Shutdown);
    assert!(!keeps_open(&a));
    assert!(life.shutdown(), "the first call tears down");
    assert!(!life.shutdown(), "and any other finds it done");
    assert!(life.is_shutting_down());
}

#[test]
fn a_takeover_ends_the_connection_and_a_ping_does_not() {
    let mut bench = Bench::new();
    let mut c = bench.accept();
    let a = bench.serve(&mut c, ClientMsg::Takeover).action;
    assert_eq!(a, Action::HandOver);
    assert!(!keeps_open(&a));
    assert!(keeps_open(&bench.serve(&mut c, ClientMsg::Ping).action));
}

#[test]
fn daemon_names_are_deterministic_and_hashed() {
    let dir = "/run/user/1000";
    let a = daemon_names("C:\\Users\\me\\AppData\\Roaming\\hyperpanes", dir);
    let b = daemon_names("C:\\Users\\me\\AppData\\Roaming\\hyperpanes", dir);
    assert_eq!(a.socket, b.socket);
    assert_eq!(a.lock, b.lock);
    let c = daemon_names("someone-else", dir);
    assert_ne!(a.socket, c.socket);
    let fname = a.socket.rsplit('/').next().unwrap();
    assert!(fname.starts_with("hyperpanesd."), "got {fname}");
    assert!(fname.ends_with(".sock"));
    assert_eq!(fname.len(), "hyperpanesd.".len() + 16 + ".sock".len());
    assert_eq!(socket_path_for("someone-else", dir), c.socket);
}

#[test]
fn the_hash_is_the_usual_one() {
    assert_eq!(fnv1a64(""), 0xcbf2_9ce4_8422_2325);
    assert_eq!(fnv1a64("a"), 0xaf63_dc4c_8601_ec8c);
    assert_eq!(fnv1a64("foobar"), 0x8594_4171_f739_67e8);
    assert_eq!(daemon_names("foobar", "/t").socket, "/t/hyperpanesd.85944171f73967e8.sock");
    assert_eq!(daemon_names("foobar", "/t").lock, "/t/hyperpanesd.85944171f73967e8.lock");
}

#[test]
fn the_runtime_directory_falls_back() {
    assert_eq!(runtime_dir(Some("/run/user/1"), Some("/var/tmp")), "/run/user/1");
    assert_eq!(runtime_dir(Some("relative"), Some("/var/tmp")), "/var/tmp");
    assert_eq!(runtime_dir(None, None), "/tmp");
    assert_eq!(runtime_dir(Some(""), Some("")), "/tmp");
}

#[test]
fn idle_daemon_exits_within_grace() {
    let mut m = IdleMonitor::new();
    assert!(!m.tick(0, 1, 0, 150), "a client is there");
    assert!(!m.tick(0, 0, 100, 150), "the countdown starts");
    assert!(!m.tick(0, 0, 200, 150));
    assert!(!m.tick(0, 0, 249, 150));
    assert!(m.tick(0, 0, 250, 150), "an idle daemon should exit within the grace");
}

#[test]
fn idle_exit_is_held_off_by_a_connected_client() {
    let mut life = Lifecycle::new();
    let mut m = IdleMonitor::new();
    assert_eq!(life.conn_opened(), 1);
    for now in (0..6).map(|i| i * 100) {
        assert!(!m.tick(0, life.conn_count(), now, 100), "a connected client must keep it alive");
    }
    life.conn_closed();
    assert!(!m.tick(0, life.conn_count(), 600, 100));
    assert!(m.tick(0, life.conn_count(), 700, 100));
}

#[test]
fn idle_exit_is_held_off_by_a_live_session() {
    let mut m = IdleMonitor::new();
    assert!(!m.tick(0, 0, 0, 100));
    for now in (1..6).map(|i| i * 100) {
        assert!(!m.tick(1, 0, now, 100));
    }
    assert!(!m.tick(0, 0, 600, 100), "the grace starts anew");
}

#[test]
fn idle_grace_honors_the_override() {
    assert_eq!(idle_grace_from(Some("250")), 250);
    assert_eq!(idle_grace_from(None), DEFAULT_IDLE_GRACE_MS);
    assert_eq!(idle_grace_from(Some("not-a-number")), DEFAULT_IDLE_GRACE_MS);
}

#[test]
fn a_daemon_that_holds_sessions_is_given_longer() {
    assert_eq!(takeover_lock_budget_ms(true), 30_000);
    assert_eq!(takeover_lock_budget_ms(false), 5_000);
    assert_eq!(bind_budget_ms(true), 30_000);
    assert_eq!(bind_budget_ms(false), 0);
}

#[test]
fn takeover_against_a_daemon_that_does_not_answer_is_an_error() {
    assert_eq!(takeover_answered(0), Err(NO_ANSWER.to_string()));
    assert_eq!(takeover_answered(1), Ok(()), "an empty handover is an answer");
}

#[test]
fn handovers_are_cut_into_batches_and_never_into_none() {
    assert_eq!(handover_batches(0, 4), vec![(0, 0)]);
    assert_eq!(handover_batches(4, 4), vec![(0, 4)]);
    assert_eq!(handover_batches(9, 4), vec![(0, 4), (4, 4), (8, 1)]);
}

#[test]
fn each_batch_numbers_its_own_descriptors() {
    let uids: Vec<String> = vec!["a".into(), "b".into(), "c".into()];
    let mut cwds: StrMap<String> = StrMap::new();
    cwds.insert("c", "/c".into());
    assert_eq!(
        handover_entries(&uids, 1, 2, &cwds),
        vec![("b".to_string(), 0, None), ("c".to_string(), 1, Some("/c".to_string()))]
    );
}

#[test]
fn each_session_names_a_descriptor_of_its_own() {
    let named = |v: &[(&str, usize)]| v.iter().map(|(u, i)| (u.to_string(), *i)).collect();
    assert_eq!(pair_descriptors(&named(&[("a", 1), ("b", 0)]), 2), Ok(()));
    assert_eq!(
        pair_descriptors(&named(&[("a", 0), ("b", 2)]), 2),
        Err("session b claims descriptor 2 of 2".to_string())
    );
    assert_eq!(
        pair_descriptors(&named(&[("a", 0), ("b", 0)]), 2),
        Err("session b claims descriptor 0 of 2".to_string())
    );
}

#[test]
fn answers_are_written_before_events_and_only_followed_sessions_are() {
    let mut bench = Bench::new();
    let mut c = bench.accept();
    bench.serve(&mut c, ClientMsg::Attach { uid: "a".into() });
    let frames =
        c.0.writer_pass(vec![DaemonMsg::Pong], vec![data("a", "1"), data("b", "2"), data("a", "3")]);
    assert_eq!(
        frames,
        vec![
            DaemonMsg::Pong,
            DaemonMsg::Event(data("a", "1")),
            DaemonMsg::Event(data("a", "3")),
        ]
    );
}

#[test]
fn a_free_salt_is_bound_at_once() {
    let (s, m) = Startup::Locking.next(StartupEvent::Lock(LockState::Acquired));
    assert_eq!(m, StartupMove::Bind { budget_ms: 0 });
    assert_eq!(s.next(StartupEvent::Bound(true)).1, StartupMove::Serve { sessions: 0 });
    assert_eq!(s.next(StartupEvent::Bound(false)).1, StartupMove::Fail(StartupFault::Bind));
}

#[test]
fn a_successor_with_sessions_in_hand_waits_longer() {
    let (s, m) = Startup::Locking.next(StartupEvent::Lock(LockState::Held));
    assert_eq!(m, StartupMove::TakeOver);
    let (empty, m) = s.next(StartupEvent::TakenOver(Some(0)));
    assert_eq!(m, StartupMove::AwaitLock { budget_ms: 5_000 });
    assert_eq!(
        empty.next(StartupEvent::Released(false)).1,
        StartupMove::Fail(StartupFault::IncumbentStays)
    );
    let (s, m) = s.next(StartupEvent::TakenOver(Some(3)));
    assert_eq!(m, StartupMove::AwaitLock { budget_ms: 30_000 });
    let (s, m) = s.next(StartupEvent::Released(true));
    assert_eq!(m, StartupMove::Bind { budget_ms: 30_000 });
    assert_eq!(s.next(StartupEvent::Bound(true)).1, StartupMove::Serve { sessions: 3 });
}

#[test]
fn an_incumbent_that_does_not_hand_over_keeps_the_salt() {
    let m = Startup::TakingOver.next(StartupEvent::TakenOver(None)).1;
    assert_eq!(m, StartupMove::Fail(StartupFault::AlreadyServed));
    assert_eq!(
        fault_message(StartupFault::AlreadyServed),
        Some("a daemon already holds this salt")
    );
    assert_eq!(
        fault_message(StartupFault::IncumbentStays),
        Some("the incumbent daemon handed over but did not exit")
    );
    assert_eq!(fault_message(StartupFault::Lock), None);
    assert_eq!(
        Startup::Locking.next(StartupEvent::Lock(LockState::Failed)).1,
        StartupMove::Fail(StartupFault::Lock)
    );
}

#[test]
fn what_one_daemon_hands_over_another_can_pair() {
    let uids: Vec<String> = (0..5).map(|i| format!("pane-{i}")).collect();
    let cwds: StrMap<String> = StrMap::new();
    let mut seen = Vec::new();
    for (start, len) in handover_batches(uids.len(), 2) {
        let entries = handover_entries(&uids, start, len, &cwds);
        let named: Vec<(String, usize)> = entries.into_iter().map(|(u, i, _)| (u, i)).collect();
        assert_eq!(pair_descriptors(&named, len), Ok(()));
        seen.extend(named.into_iter().map(|(u, _)| u));
    }
    assert_eq!(seen, uids);
}

#[test]
fn a_daemon_that_does_not_run_needs_no_stop() {
    assert_eq!(stop_move(Reach::Refused), StopMove::NoneRan);
    assert_eq!(stop_move(Reach::Missing), StopMove::NoneRan);
    assert_eq!(stop_move(Reach::Failed), StopMove::Fail);
    assert_eq!(
        stop_move(Reach::Connected),
        StopMove::Shutdown { budget_ms: 3000, poll_ms: 50 }
    );
}
