//! The environment of a new session.

use hyperpanes_core::assoc::StrMap;
use hyperpanes_core::session::env::unix::{
    fresh_or_process, layer_process_only, login_env, parse_env_dump, shell_of, split_env_entry,
    EnvCache,
};
use hyperpanes_core::session::env::windows::{
    merged_or_process, registry_value, RegistryScan, ERROR_MORE_DATA, ERROR_SUCCESS, REG_EXPAND_SZ,
    REG_SZ,
};
use hyperpanes_core::session::env::{
    expand_value, merge_fresh_env, EnvMap, FreshEnvProvider, PlatformEnv, RawVar,
};

fn raw(pairs: &[(&str, &str, bool)]) -> Vec<RawVar> {
    pairs
        .iter()
        .map(|(n, v, e)| (n.to_string(), v.to_string(), *e))
        .collect()
}

fn map(pairs: &[(&str, &str)]) -> EnvMap {
    let mut env: EnvMap = StrMap::new();
    for (k, v) in pairs {
        env.insert(k, v.to_string());
    }
    env
}

fn get<'a>(env: &'a EnvMap, name: &str) -> Option<&'a str> {
    env.entries
        .iter()
        .find(|(k, _)| k.eq_ignore_ascii_case(name))
        .map(|(_, v)| v.as_str())
}

#[test]
fn user_var_wins_over_machine_case_insensitively() {
    let machine = raw(&[("JAVA_HOME", "C:\\jdk8", false)]);
    let user = raw(&[("Java_Home", "C:\\jdk21", false)]);
    let env = merge_fresh_env(&machine, &user, &map(&[]));
    assert_eq!(get(&env, "JAVA_HOME"), Some("C:\\jdk21"));
    assert_eq!(
        env.keys()
            .iter()
            .filter(|k| k.eq_ignore_ascii_case("JAVA_HOME"))
            .count(),
        1
    );
}

#[test]
fn path_is_machine_then_user_concatenated() {
    let machine = raw(&[("Path", "C:\\Windows;C:\\Windows\\system32", false)]);
    let user = raw(&[("PATH", "C:\\Users\\me\\bin", false)]);
    let env = merge_fresh_env(&machine, &user, &map(&[]));
    assert_eq!(
        get(&env, "PATH"),
        Some("C:\\Windows;C:\\Windows\\system32;C:\\Users\\me\\bin")
    );
}

#[test]
fn user_only_path_passes_through() {
    let user = raw(&[("PATH", "C:\\me\\bin", false)]);
    let env = merge_fresh_env(&[], &user, &map(&[]));
    assert_eq!(get(&env, "PATH"), Some("C:\\me\\bin"));
}

#[test]
fn expand_sz_resolves_against_merged_then_process() {
    let machine = raw(&[("SystemRoot", "C:\\Windows", false)]);
    let user = raw(&[
        ("TEMP", "%USERPROFILE%\\AppData\\Local\\Temp", true),
        ("WINDIR2", "%SystemRoot%\\sub", true),
    ]);
    let process = map(&[("USERPROFILE", "C:\\Users\\me")]);
    let env = merge_fresh_env(&machine, &user, &process);
    assert_eq!(
        get(&env, "TEMP"),
        Some("C:\\Users\\me\\AppData\\Local\\Temp")
    );
    assert_eq!(get(&env, "WINDIR2"), Some("C:\\Windows\\sub"));
}

#[test]
fn unknown_expand_token_stays_literal() {
    let user = raw(&[("X", "%NOPE%\\bin", true)]);
    let env = merge_fresh_env(&[], &user, &map(&[]));
    assert_eq!(get(&env, "X"), Some("%NOPE%\\bin"));
}

#[test]
fn unpaired_percent_passes_through() {
    let user = raw(&[("X", "100%", true)]);
    let env = merge_fresh_env(&[], &user, &map(&[]));
    assert_eq!(get(&env, "X"), Some("100%"));
}

#[test]
fn non_expand_value_is_never_expanded() {
    let machine = raw(&[("SystemRoot", "C:\\Windows", false)]);
    let user = raw(&[("X", "%SystemRoot%", false)]);
    let env = merge_fresh_env(&machine, &user, &map(&[]));
    assert_eq!(get(&env, "X"), Some("%SystemRoot%"));
}

#[test]
fn process_only_vars_are_layered_in() {
    let machine = raw(&[("Path", "C:\\Windows", false)]);
    let process = map(&[
        ("HYPERPANES_CONTROL_TOKEN", "tok"),
        ("SESSIONNAME", "Console"),
    ]);
    let env = merge_fresh_env(&machine, &[], &process);
    assert_eq!(get(&env, "HYPERPANES_CONTROL_TOKEN"), Some("tok"));
    assert_eq!(get(&env, "SESSIONNAME"), Some("Console"));
}

#[test]
fn fresh_registry_value_beats_stale_process_copy() {
    let machine = raw(&[("Path", "C:\\fresh", false)]);
    let process = map(&[("PATH", "C:\\stale"), ("Path", "C:\\stale2")]);
    let env = merge_fresh_env(&machine, &[], &process);
    assert_eq!(get(&env, "PATH"), Some("C:\\fresh"));
    assert_eq!(
        env.keys()
            .iter()
            .filter(|k| k.eq_ignore_ascii_case("PATH"))
            .count(),
        1
    );
}

#[test]
fn empty_machine_path_does_not_lead_with_semicolon() {
    let machine = raw(&[("Path", "", false)]);
    let user = raw(&[("Path", "C:\\me\\bin", false)]);
    let env = merge_fresh_env(&machine, &user, &map(&[]));
    assert_eq!(get(&env, "PATH"), Some("C:\\me\\bin"));
}

#[test]
fn parses_a_nul_delimited_dump_with_newlines_in_values() {
    let env = parse_env_dump(b"PATH=/login/bin\0MULTI=a\nb\0_OK=1\0");
    assert_eq!(env.get("PATH").map(String::as_str), Some("/login/bin"));
    assert_eq!(env.get("MULTI").map(String::as_str), Some("a\nb"));
    assert_eq!(env.get("_OK").map(String::as_str), Some("1"));
}

#[test]
fn parses_a_newline_dump_and_folds_continuations() {
    let env = parse_env_dump(
        b"rc noise line\nPATH=/login/bin\nMULTI=a\nstill the value\nHOME=/home/me\n",
    );
    assert_eq!(env.get("PATH").map(String::as_str), Some("/login/bin"));
    assert_eq!(
        env.get("MULTI").map(String::as_str),
        Some("a\nstill the value")
    );
    assert_eq!(env.get("HOME").map(String::as_str), Some("/home/me"));
    assert_eq!(env.len(), 3);
}

#[test]
fn invalid_names_are_skipped() {
    let env = parse_env_dump(b"1BAD=x\0has space=y\0GOOD=z\0");
    assert_eq!(env.len(), 1);
    assert_eq!(env.get("GOOD").map(String::as_str), Some("z"));
}

#[test]
fn fresh_wins_and_process_only_vars_are_layered_in() {
    let fresh = map(&[("PATH", "/login/bin"), ("LANG", "en_US.UTF-8")]);
    let process = map(&[("PATH", "/stale/bin"), ("HYPERPANES_CONTROL_TOKEN", "tok")]);
    let env = layer_process_only(fresh, process);
    assert_eq!(env.get("PATH").map(String::as_str), Some("/login/bin"));
    assert_eq!(env.get("LANG").map(String::as_str), Some("en_US.UTF-8"));
    assert_eq!(
        env.get("HYPERPANES_CONTROL_TOKEN").map(String::as_str),
        Some("tok")
    );
}

#[test]
fn cache_coalesces_repeat_captures_and_keys_on_the_shell() {
    let mut cache = EnvCache::new();
    let mut calls = 0;
    let a = cache.get_or_capture("/bin/fake-a", 5, || {
        calls += 1;
        (Some(map(&[("X", "1")])), 5)
    });
    assert_eq!(a, Some(map(&[("X", "1")])));
    let again = cache.get_or_capture("/bin/fake-a", 5, || {
        calls += 1;
        (Some(map(&[("X", "2")])), 6)
    });
    assert_eq!(again, Some(map(&[("X", "1")])));
    assert_eq!(calls, 1);
    let b = cache.get_or_capture("/bin/fake-b", 5, || {
        calls += 1;
        (Some(map(&[("Y", "1")])), 7)
    });
    assert_eq!(b, Some(map(&[("Y", "1")])));
    assert_eq!(calls, 2);
}

#[test]
fn cache_remembers_failures_too() {
    let mut cache = EnvCache::new();
    let mut calls = 0;
    assert_eq!(
        cache.get_or_capture("/bin/broken", 5, || {
            calls += 1;
            (None, 5)
        }),
        None
    );
    assert_eq!(
        cache.get_or_capture("/bin/broken", 5, || {
            calls += 1;
            (None, 5)
        }),
        None
    );
    assert_eq!(calls, 1);
}

#[test]
fn a_failed_or_silent_shell_counts_as_no_capture() {
    assert_eq!(login_env(false, b"PATH=/login/bin\0"), None);
    assert_eq!(login_env(true, b""), None);
    assert_eq!(
        login_env(true, b"FRESH_ONLY=from-login\0PATH=/login/bin\0"),
        Some(map(&[("FRESH_ONLY", "from-login"), ("PATH", "/login/bin")]))
    );
}

#[test]
fn bytes_that_are_no_utf8_are_replaced() {
    let env = parse_env_dump(b"X=a\xffb\0");
    assert_eq!(env.get("X").map(String::as_str), Some("a\u{fffd}b"));
}

#[test]
fn provider_uses_dollar_shell_and_falls_back_on_failure() {
    let process = map(&[
        ("SHELL", "/bin/fake"),
        ("PATH", "/stale/bin"),
        ("HYPERPANES_PANE_ID", "p1"),
    ]);
    assert_eq!(shell_of(&process), "/bin/fake");
    let login = login_env(true, b"FROM_LOGIN=1\0PATH=/login/bin\0");
    let env = PlatformEnv::Login(login).fresh_env_with_process(process);
    assert_eq!(env.get("FROM_LOGIN").map(String::as_str), Some("1"));
    assert_eq!(env.get("PATH").map(String::as_str), Some("/login/bin"));
    assert_eq!(env.get("HYPERPANES_PANE_ID").map(String::as_str), Some("p1"));

    let broken = map(&[("SHELL", "/no/such/shell"), ("PATH", "/stale/bin")]);
    assert_eq!(PlatformEnv::Login(None).fresh_env_with_process(broken.clone()), broken);
    assert_eq!(fresh_or_process(&None, broken.clone()), broken);
}

#[test]
fn a_process_without_a_shell_uses_the_standard_one() {
    assert_eq!(shell_of(&map(&[])), "/bin/sh");
    assert_eq!(shell_of(&map(&[("SHELL", "")])), "/bin/sh");
}

#[test]
fn a_registry_that_cannot_be_read_gives_the_process_environment() {
    let process = map(&[("A", "1")]);
    assert_eq!(merged_or_process(&None, &None, process.clone()), process);
    let env = PlatformEnv::Registry(Some(raw(&[("B", "2", false)])), None)
        .fresh_env_with_process(process);
    assert_eq!(env, map(&[("A", "1"), ("B", "2")]));
}

#[test]
fn tokens_are_taken_from_the_merged_values_first() {
    let merged = raw(&[("NAME", "fresh", false)]);
    let process = map(&[("NAME", "stale"), ("ONLY", "here")]);
    assert_eq!(expand_value("<%name%|%ONLY%|%none%>", &merged, &process), "<fresh|here|%none%>");
    assert_eq!(expand_value("%%", &merged, &process), "%%");
}

#[test]
fn the_cache_forgets_after_its_time() {
    let mut cache = EnvCache::new();
    cache.get_or_capture("/bin/sh", 0, || (Some(map(&[("X", "1")])), 100));
    let kept = cache.get_or_capture("/bin/sh", 30_099, || (Some(map(&[("X", "2")])), 30_099));
    assert_eq!(kept, Some(map(&[("X", "1")])));
    let fresh = cache.get_or_capture("/bin/sh", 30_100, || (Some(map(&[("X", "2")])), 30_100));
    assert_eq!(fresh, Some(map(&[("X", "2")])));
}

#[test]
fn entries_are_names_and_values() {
    let of = |s: &str| split_env_entry(&s.chars().collect::<Vec<char>>());
    assert_eq!(of("A=b=c"), Some(("A".to_string(), "b=c".to_string())));
    assert_eq!(of("_9="), Some(("_9".to_string(), String::new())));
    assert_eq!(of("9A=b"), None);
    assert_eq!(of("=b"), None);
    assert_eq!(of("none"), None);
}

fn wide(s: &str) -> Vec<u16> {
    s.encode_utf16().collect()
}

fn bytes(s: &str) -> Vec<u8> {
    wide(s).into_iter().flat_map(u16::to_le_bytes).collect()
}

#[test]
fn registry_strings_are_decoded() {
    assert_eq!(
        registry_value(REG_EXPAND_SZ, &wide("TEMP"), &bytes("%USERPROFILE%\\é😀\0\0")),
        Some(("TEMP".to_string(), "%USERPROFILE%\\é😀".to_string(), true))
    );
    assert_eq!(
        registry_value(REG_SZ, &wide("X"), &bytes("")),
        Some(("X".to_string(), String::new(), false))
    );
    let mut odd = bytes("ab");
    odd.push(7);
    assert_eq!(
        registry_value(REG_SZ, &wide("X"), &odd),
        Some(("X".to_string(), "ab".to_string(), false)),
        "a byte too many is dropped"
    );
    assert_eq!(
        registry_value(REG_SZ, &wide("X"), &[0x00, 0xd8]),
        Some(("X".to_string(), "\u{fffd}".to_string(), false)),
        "half a pair is replaced"
    );
}

#[test]
fn what_is_no_string_or_has_no_name_is_no_variable() {
    assert_eq!(registry_value(4, &wide("X"), &[1, 0, 0, 0]), None);
    assert_eq!(registry_value(REG_SZ, &[], &bytes("v")), None);
}

#[test]
fn a_registry_key_is_read_to_its_end() {
    let mut scan = RegistryScan::new();
    assert_eq!(scan.capacity, 32 * 1024);
    assert!(scan.take(ERROR_MORE_DATA, 0, &[], &[], 100_000));
    assert_eq!((scan.index, scan.capacity), (0, 100_000));
    assert!(scan.take(ERROR_MORE_DATA, 0, &[], &[], 1));
    assert_eq!((scan.index, scan.capacity), (0, 200_000));
    assert!(scan.take(ERROR_SUCCESS, REG_SZ, &wide("A"), &bytes("1\0"), 0));
    assert!(scan.take(ERROR_SUCCESS, 3, &wide("B"), &[1], 0));
    assert!(scan.take(ERROR_SUCCESS, REG_EXPAND_SZ, &wide("C"), &bytes("%A%"), 0));
    assert!(!scan.take(259, 0, &[], &[], 0));
    assert_eq!(scan.index, 3);
    assert_eq!(scan.vars, raw(&[("A", "1", false), ("C", "%A%", true)]));
}

#[test]
fn what_env_prints_is_read_back() {
    let pairs = [("A", "1=2"), ("EMPTY", ""), ("LINES", "x\ny\n"), ("_U", "héé")];
    let mut dump = Vec::new();
    for (n, v) in pairs {
        dump.extend_from_slice(format!("{n}={v}\0").as_bytes());
    }
    assert_eq!(parse_env_dump(&dump), map(&pairs));
    assert_eq!(parse_env_dump(b""), map(&[]));
}

#[test]
fn the_winner_keeps_its_spelling() {
    let env = merge_fresh_env(
        &raw(&[("JAVA_HOME", "C:\\jdk8", false), ("Only", "m", false)]),
        &raw(&[("Java_Home", "C:\\jdk21", false)]),
        &map(&[("java_home", "stale"), ("only", "stale")]),
    );
    assert_eq!(env, map(&[("Java_Home", "C:\\jdk21"), ("Only", "m")]));
}

#[test]
fn no_two_names_of_a_merge_agree_but_for_case() {
    let env = merge_fresh_env(
        &raw(&[("Path", "C:\\m", false), ("Temp", "t", false)]),
        &raw(&[("PATH", "C:\\u", false), ("TEMP", "u", false), ("temp", "v", false)]),
        &map(&[("Home", "h"), ("HOME", "H"), ("path", "p"), ("Temp", "q")]),
    );
    let names: Vec<String> = env.entries.iter().map(|e| e.0.to_ascii_lowercase()).collect();
    assert_eq!(names, vec!["home", "path", "temp"]);
    assert_eq!(get(&env, "Path"), Some("C:\\m;C:\\u"));
    assert_eq!(get(&env, "temp"), Some("v"));
    assert_eq!(get(&env, "HOME"), Some("H"));
}
