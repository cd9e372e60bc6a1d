//! What a control client stores and reads back, and what it cannot change.

use hyperpanes_core::session::control_mode::clock::timestamp;
use hyperpanes_core::session::control_mode::{
    hash31, key_name_to_bytes, quote_option_value, split_words, Action, Args, Clock, ControlMode,
    ControlServer, FmtCtx, IdMap, Line, PaneInfo,
};

const A: &str = "pane-aaaaaaaa-1111-4111-8111-111111111111";
const B: &str = "pane-bbbbbbbb-2222-4222-8222-222222222222";
const PID: u32 = 4711;

fn server() -> ControlServer {
    ControlServer::new("cap", vec![PaneInfo::new(B), PaneInfo::new(A)], PID).with_clock(Clock::Fixed(7))
}

fn text(lines: &[Line]) -> Vec<String> {
    lines.iter().map(|l| String::from_utf8_lossy(l).into_owned()).collect()
}

/// The body of a command's block, or its error.
fn run(s: &mut ControlServer, cmd: &str) -> Result<Vec<String>, Vec<String>> {
    let lines = text(&s.command(cmd).lines);
    let close = lines
        .iter()
        .position(|l| l.starts_with("%end ") || l.starts_with("%error "))
        .expect("a block is closed");
    let body = lines[1..close].to_vec();
    if lines[close].starts_with("%end ") {
        Ok(body)
    } else {
        Err(body)
    }
}

fn lines(body: &[&str]) -> Result<Vec<String>, Vec<String>> {
    Ok(body.iter().map(|l| l.to_string()).collect())
}

#[test]
fn a_user_option_is_shown_as_it_was_set() {
    let mut s = server();
    assert_eq!(run(&mut s, "set-option @iterm2_id 1234"), lines(&[]));
    assert_eq!(run(&mut s, "show-options @iterm2_id"), lines(&["@iterm2_id 1234"]));
    assert_eq!(run(&mut s, "show-options -v @iterm2_id"), lines(&["1234"]));
    assert_eq!(run(&mut s, "set -a @iterm2_id 5"), lines(&[]));
    assert_eq!(run(&mut s, "show -v @iterm2_id"), lines(&["12345"]));
}

#[test]
fn a_removed_option_is_unset() {
    let mut s = server();
    run(&mut s, "set @a 1").unwrap();
    run(&mut s, "set -u @a").unwrap();
    assert_eq!(run(&mut s, "show @a"), Err(vec!["unknown option: @a".to_string()]));
    assert_eq!(run(&mut s, "show -q @a"), lines(&[]));
    assert_eq!(run(&mut s, "show -v @a"), lines(&[]));
}

#[test]
fn each_scope_holds_its_own_options() {
    let mut s = server();
    let w = s.ids().window_id(B).unwrap();
    run(&mut s, "set -g @a global").unwrap();
    run(&mut s, "set -s @a server").unwrap();
    run(&mut s, "set @a session").unwrap();
    run(&mut s, &format!("setw -t @{w} @a window")).unwrap();
    assert_eq!(run(&mut s, "show -gv @a"), lines(&["global"]));
    assert_eq!(run(&mut s, "show -sv @a"), lines(&["server"]));
    assert_eq!(run(&mut s, "show -v @a"), lines(&["session"]));
    assert_eq!(run(&mut s, &format!("showw -v -t @{w} @a")), lines(&["window"]));
    assert_eq!(run(&mut s, &format!("show -wv -t @{w} @a")), lines(&["window"]));
}

#[test]
fn options_are_listed_by_name() {
    let mut s = server();
    run(&mut s, "set @b 2").unwrap();
    run(&mut s, "set @a 'x y'").unwrap();
    assert_eq!(run(&mut s, "show"), lines(&["@a \"x y\"", "@b 2"]));
    assert_eq!(run(&mut s, "show -v"), lines(&["x y", "2"]));
}

#[test]
fn only_user_options_are_stored() {
    let mut s = server();
    let err = run(&mut s, "set status off").unwrap_err();
    assert!(err[0].starts_with("status is not supported by hyperpanes control mode"), "{err:?}");
    assert_eq!(run(&mut s, "set"), Err(vec!["set-option: not enough arguments".to_string()]));
}

#[test]
fn a_shown_value_lexes_back_to_itself() {
    for v in ["1234", "", "a b", "say \"hi\"", "back\\slash", "$HOME", "semi;colon", "#{x}", "it's"] {
        let shown = quote_option_value(v);
        assert_eq!(split_words(&shown).unwrap(), vec![v.to_string()], "{shown}");
    }
    assert_eq!(quote_option_value("1234"), "1234");
    assert_eq!(quote_option_value(""), "\"\"");
    assert_eq!(quote_option_value("a\"$\\"), "\"a\\\"\\$\\\\\"");
}

#[test]
fn a_refused_command_changes_nothing_but_the_block_number() {
    let mut s = server();
    run(&mut s, "set @a 1").unwrap();
    for cmd in ["kill-server", "nonsense", "select-pane -t %999999", "send -H zz", "set mouse on"] {
        assert!(run(&mut s, cmd).is_err(), "{cmd}");
        assert_eq!(s.window_flags(A), "*");
        assert_eq!(s.uids(), vec![A.to_string(), B.to_string()]);
        assert_eq!(run(&mut s, "show -v @a"), lines(&["1"]));
    }
}

#[test]
fn a_target_is_a_published_pane() {
    let mut s = server();
    let p = s.ids().pane_id(B).unwrap();
    let w = s.ids().window_id(B).unwrap();
    for target in [format!("%{p}"), format!("@{w}"), B.to_string()] {
        let r = s.command(&format!("send -l -t '{target}' x"));
        assert_eq!(
            r.actions,
            vec![Action::Write { uid: B.to_string(), data: b"x".to_vec() }],
            "{target}"
        );
    }
}

#[test]
fn has_session_knows_the_one_session() {
    let mut s = server();
    assert_eq!(run(&mut s, "has-session"), lines(&[]));
    assert_eq!(run(&mut s, "has -t $0"), lines(&[]));
    assert_eq!(
        run(&mut s, "has -t nowhere"),
        Err(vec!["can't find session: nowhere".to_string()])
    );
}

#[test]
fn the_one_client_is_listed() {
    let mut s = server();
    assert_eq!(
        run(&mut s, "list-clients"),
        lines(&["hyperpanes: cap [80x24 control] (control mode)"])
    );
    run(&mut s, "refresh-client -C 120,40").unwrap();
    assert_eq!(
        run(&mut s, "lsc"),
        lines(&["hyperpanes: cap [120x40 control] (control mode)"])
    );
}

#[test]
fn the_process_id_is_the_one_given() {
    let s = server();
    assert_eq!(s.expand("#{pid}", &FmtCtx { uid: None }), "4711");
}

#[test]
fn a_pane_that_is_not_published_shows_nothing_of_its_own() {
    let s = server();
    let gone = FmtCtx { uid: Some("pane-gone".into()) };
    assert_eq!(s.expand("#{pane_id}#{window_name}#{pane_width}", &gone), "");
    assert_eq!(s.expand("#{window_index}#{pane_active}#{version}", &gone), "003.2");
    assert_eq!(s.expand("#{?pane_active,#{window_layout},-}", &gone), "-");
}

#[test]
fn without_a_collision_an_id_is_the_hash() {
    let map = IdMap::rebuild(&[A.to_string(), B.to_string(), A.to_string()]);
    for uid in [A, B] {
        assert_eq!(map.pane_id(uid), Some(hash31("pane", uid)));
        assert_eq!(map.window_id(uid), Some(hash31("window", uid)));
    }
    assert_eq!(map.pane_id("pane-nope"), None);
    assert_eq!(map.uid_for_pane(hash31("pane", "pane-nope")), None);
    assert_eq!(IdMap::default(), IdMap::rebuild(&[]));
}

#[test]
fn a_hash_is_the_folded_offset_basis() {
    let mut h: u64 = 0xcbf2_9ce4_8422_2325;
    for b in b"panex" {
        h ^= u64::from(*b);
        h = h.wrapping_mul(0x100_0000_01b3);
    }
    let folded = ((h >> 32) ^ h) as u32 & 0x7fff_ffff;
    assert_eq!(hash31("pane", "x"), folded);
}

#[test]
fn the_envelope_is_the_default() {
    assert_eq!(ControlMode::default(), ControlMode::Wrapped);
}

#[test]
fn a_clock_of_the_system_moves_on_from_the_past() {
    let now = Clock::System.now();
    assert!(now > 1_600_000_000, "{now}");
    assert_eq!(Clock::Fixed(5).now(), 5);
}

#[test]
fn keys_that_have_no_name_are_their_characters() {
    assert_eq!(key_name_to_bytes("a"), Ok(b"a".to_vec()));
    assert_eq!(key_name_to_bytes("é"), Ok("é".as_bytes().to_vec()));
    assert_eq!(key_name_to_bytes("C-a"), Ok(vec![1]));
    assert_eq!(key_name_to_bytes("M-Enter"), Ok(b"\x1b\r".to_vec()));
}

#[test]
fn ctrl_reaches_from_the_at_sign_to_the_underscore_and_to_delete() {
    assert_eq!(key_name_to_bytes("C-@"), Ok(vec![0x00]));
    assert_eq!(key_name_to_bytes("C-["), Ok(vec![0x1b]));
    assert_eq!(key_name_to_bytes("C-_"), Ok(vec![0x1f]));
    assert_eq!(key_name_to_bytes("C-?"), Ok(vec![0x7f]));
    assert_eq!(key_name_to_bytes("C-M-?"), Ok(vec![0x1b, 0x7f]));
    assert_eq!(key_name_to_bytes("C->"), Ok(b">".to_vec()));
    assert_eq!(key_name_to_bytes("C-S-a"), Ok(vec![0x01]));
    assert_eq!(key_name_to_bytes("S-Up"), Ok(b"S-Up".to_vec()));
    assert_eq!(key_name_to_bytes("C-"), Ok(Vec::new()));
}

#[test]
fn a_quoted_word_behind_a_line_is_one_word_more() {
    for line in ["", "  ", "show -v", "set 'a b", "x \"y\\\" z\"", "a\\ b "] {
        let Ok(mut words) = split_words(line) else {
            assert_eq!(line, "set 'a b");
            continue;
        };
        for w in ["", "plain", " a \"b\" \\ $c; #d "] {
            words.push(w.to_string());
            assert_eq!(split_words(&format!("{line} '{w}'")), Ok(words.clone()), "{line}");
            words.pop();
        }
    }
}

#[test]
fn flags_may_follow_words_and_the_first_value_counts() {
    let words = split_words("-a x -b - -5").unwrap();
    let args = Args::parse(&words, "t:").unwrap();
    assert!(args.flag('a') && args.flag('b'));
    assert_eq!(args.positionals, vec!["x", "-", "-5"]);
    let words = split_words("-t one -t two").unwrap();
    assert_eq!(Args::parse(&words, "t:").unwrap().value('t'), Some("one"));
    let words = split_words("-t").unwrap();
    assert_eq!(Args::parse(&words, "t:"), Err("-t needs an argument".to_string()));
}

#[test]
fn a_command_at_a_given_time_is_dated() {
    let mut s = server();
    let r = s.command_at("list-sessions", 99);
    assert_eq!(text(&r.lines)[0], "%begin 99 1 1");
    assert_eq!(text(&s.greeting_at(3))[1], "%begin 3 0 0");
}

#[test]
fn a_time_before_the_epoch_has_the_timestamp_zero() {
    assert_eq!(timestamp(None), 0);
    assert_eq!(timestamp(Some(1_700_000_000)), 1_700_000_000);
    assert_eq!(Clock::Fixed(9).now(), 9);
    assert!(Clock::System.now() > 1_600_000_000);
}

#[test]
fn a_stored_option_is_read_back_and_forgotten_by_whole_lines() {
    let mut s = server();
    assert_eq!(run(&mut s, "set -t $0 @origins 'a \"b\" #1'"), Ok(vec![]));
    assert_eq!(run(&mut s, "show -v -q -t $0 @origins"), Ok(vec!["a \"b\" #1".to_string()]));
    assert_eq!(run(&mut s, "set -u -t $0 @origins"), Ok(vec![]));
    assert_eq!(run(&mut s, "show -v -q -t $0 @origins"), Ok(vec![]));
    assert_eq!(
        run(&mut s, "show -t $0 @origins"),
        Err(vec!["unknown option: @origins".to_string()])
    );
}

#[test]
fn repeats_of_a_pane_are_one_pane() {
    let a: Vec<String> = [A, B, A, A].iter().map(|u| u.to_string()).collect();
    let b: Vec<String> = [B, A].iter().map(|u| u.to_string()).collect();
    assert_eq!(IdMap::rebuild(&a), IdMap::rebuild(&b));
    let s = ControlServer::new("cap", vec![PaneInfo::new(A), PaneInfo::new(B), PaneInfo::new(A)], PID);
    assert_eq!(s.uids(), vec![A.to_string(), B.to_string()]);
}
