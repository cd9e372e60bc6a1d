//! Working directories out of the terminal's output.

use hyperpanes_core::session::cwd::{file_uri_to_path, parse_osc_cwd};

const BEL: &str = "\u{07}";
const ESC: &str = "\u{1b}";

fn seq(uri: &str) -> String {
    format!("{ESC}]7;{uri}{BEL}")
}

#[test]
fn converts_a_pwsh_windows_file_uri() {
    assert_eq!(
        file_uri_to_path("file:///C:/Users/me/repo").as_deref(),
        Some("C:\\Users\\me\\repo")
    );
}

#[test]
fn cwd_uppercases_the_drive_letter() {
    assert_eq!(
        file_uri_to_path("file:///c:/temp").as_deref(),
        Some("C:\\temp")
    );
}

#[test]
fn converts_an_msys_git_bash_drive_path() {
    assert_eq!(
        file_uri_to_path("file:///c/Users/me/repo").as_deref(),
        Some("C:\\Users\\me\\repo")
    );
}

#[test]
fn percent_decodes_space_and_friends() {
    assert_eq!(
        file_uri_to_path("file:///C:/Users/My%20Repo").as_deref(),
        Some("C:\\Users\\My Repo")
    );
    assert_eq!(
        file_uri_to_path("file:///c/Users/My%20Repo").as_deref(),
        Some("C:\\Users\\My Repo")
    );
}

#[test]
fn handles_a_percent_encoded_colon() {
    assert_eq!(
        file_uri_to_path("file:///c%3A/temp").as_deref(),
        Some("C:\\temp")
    );
}

#[test]
fn accepts_an_explicit_localhost_authority() {
    assert_eq!(
        file_uri_to_path("file://localhost/C:/x").as_deref(),
        Some("C:\\x")
    );
}

#[test]
fn rejects_a_remote_host() {
    assert_eq!(file_uri_to_path("file://otherbox/home/me"), None);
    assert_eq!(file_uri_to_path("file://192.168.1.5/srv"), None);
}

#[test]
fn returns_a_posix_absolute_path_unchanged() {
    assert_eq!(
        file_uri_to_path("file:///home/me/proj").as_deref(),
        Some("/home/me/proj")
    );
}

#[test]
fn rejects_non_file_uris_and_empties() {
    assert_eq!(file_uri_to_path("http://example.com"), None);
    assert_eq!(file_uri_to_path(""), None);
}

#[test]
fn keeps_the_drive_root() {
    assert_eq!(file_uri_to_path("file:///C:/").as_deref(), Some("C:\\"));
}

#[test]
fn finds_a_complete_sequence_in_one_chunk() {
    let (cwd, carry) = parse_osc_cwd("", &format!("hello{}world", seq("file:///C:/a/b")));
    assert_eq!(cwd.as_deref(), Some("C:\\a\\b"));
    assert_eq!(carry, "");
}

#[test]
fn fast_rejects_a_plain_chunk_with_no_esc_and_no_carry() {
    let (cwd, carry) = parse_osc_cwd("", "just some normal output\n");
    assert_eq!(cwd, None);
    assert_eq!(carry, "");
}

#[test]
fn accepts_an_st_terminator() {
    let (cwd, _) = parse_osc_cwd("", &format!("{ESC}]7;file:///C:/x{ESC}\\"));
    assert_eq!(cwd.as_deref(), Some("C:\\x"));
}

#[test]
fn returns_the_last_complete_sequence_when_several_are_present() {
    let (cwd, _) = parse_osc_cwd(
        "",
        &format!("{}{}", seq("file:///C:/first"), seq("file:///C:/second")),
    );
    assert_eq!(cwd.as_deref(), Some("C:\\second"));
}

#[test]
fn carries_a_uri_split_across_two_chunks() {
    let (cwd_a, carry_a) = parse_osc_cwd("", &format!("{ESC}]7;file:///C:/Users/"));
    assert_eq!(cwd_a, None);
    assert_eq!(carry_a, format!("{ESC}]7;file:///C:/Users/"));
    let (cwd_b, carry_b) = parse_osc_cwd(&carry_a, &format!("me/repo{BEL}"));
    assert_eq!(cwd_b.as_deref(), Some("C:\\Users\\me\\repo"));
    assert_eq!(carry_b, "");
}

#[test]
fn carries_a_prefix_split_across_two_chunks() {
    let (cwd_a, carry_a) = parse_osc_cwd("", &format!("output{ESC}]7"));
    assert_eq!(cwd_a, None);
    assert_eq!(carry_a, format!("{ESC}]7"));
    let (cwd_b, _) = parse_osc_cwd(&carry_a, &format!(";file:///C:/proj{BEL}"));
    assert_eq!(cwd_b.as_deref(), Some("C:\\proj"));
}

#[test]
fn carries_a_bare_trailing_esc() {
    let (_, carry_a) = parse_osc_cwd("", &format!("text{ESC}"));
    assert_eq!(carry_a, ESC);
    let (cwd_b, _) = parse_osc_cwd(&carry_a, &format!("]7;file:///C:/q{BEL}"));
    assert_eq!(cwd_b.as_deref(), Some("C:\\q"));
}

#[test]
fn abandons_an_oversized_unterminated_sequence() {
    let huge = "x".repeat(20000);
    let (cwd, carry) = parse_osc_cwd("", &format!("{ESC}]7;file:///C:/{huge}"));
    assert_eq!(cwd, None);
    assert_eq!(carry, "");
}

#[test]
fn does_not_retain_a_non_osc7_escape_tail() {
    let (cwd, carry) = parse_osc_cwd("", "\u{1b}[0m colored text");
    assert_eq!(cwd, None);
    assert_eq!(carry, "");
}

#[test]
fn reads_a_raw_windows_path_from_osc_9_9_st_terminated() {
    let (cwd, _) = parse_osc_cwd("", &format!("{ESC}]9;9;C:\\Users\\me\\repo{ESC}\\"));
    assert_eq!(cwd.as_deref(), Some("C:\\Users\\me\\repo"));
}

#[test]
fn strips_surrounding_quotes_windows_terminal_style() {
    let (cwd, _) = parse_osc_cwd("", &format!("{ESC}]9;9;\"C:\\Program Files\\x\"{BEL}"));
    assert_eq!(cwd.as_deref(), Some("C:\\Program Files\\x"));
}

#[test]
fn ignores_a_non_cwd_osc_title() {
    let (cwd, _) = parse_osc_cwd("", &format!("{ESC}]0;my tab title{BEL}"));
    assert_eq!(cwd, None);
}

#[test]
fn picks_the_cwd_osc_even_when_a_title_osc_precedes_it() {
    let (cwd, _) = parse_osc_cwd("", &format!("{ESC}]0;title{BEL}{ESC}]9;9;C:\\proj{BEL}"));
    assert_eq!(cwd.as_deref(), Some("C:\\proj"));
}

#[test]
fn carries_a_9_9_path_split_across_two_chunks() {
    let (cwd_a, carry_a) = parse_osc_cwd("", &format!("{ESC}]9;9;C:\\Users\\"));
    assert_eq!(cwd_a, None);
    let (cwd_b, _) = parse_osc_cwd(&carry_a, &format!("me\\repo{BEL}"));
    assert_eq!(cwd_b.as_deref(), Some("C:\\Users\\me\\repo"));
}

#[test]
fn an_announced_path_is_read_back_however_it_is_escaped() {
    let path = "/home/me/50% off/日本";
    let escaped = [
        "/home/me/50%25%20off/%E6%97%A5%E6%9C%AC",
        "/home/me/50%25 off/日%e6%9c%ac",
        "%2Fhome%2fme/50%25 off/日本",
    ];
    for text in &escaped[..2] {
        for host in ["", "localhost"] {
            let uri = format!("file://{host}{text}");
            assert_eq!(file_uri_to_path(&uri).as_deref(), Some(path));
            let (cwd, carry) = parse_osc_cwd("", &format!("\u{1b}]7;{uri}\u{7}"));
            assert_eq!(cwd.as_deref(), Some(path));
            assert_eq!(carry, "");
        }
    }
    // Without a slash in the text the path has no beginning.
    assert_eq!(file_uri_to_path(&format!("file://{}", escaped[2])), None);
}

#[test]
fn a_prefix_that_is_split_behind_a_complete_sequence_is_carried() {
    let (cwd, carry) = parse_osc_cwd("", "\u{1b}]0;t\u{7}\u{1b}");
    assert_eq!(cwd, None);
    assert_eq!(carry, "\u{1b}");
    let (cwd, carry) = parse_osc_cwd(&carry, "]7;file:///C:/q\u{7}");
    assert_eq!(cwd.as_deref(), Some("C:\\q"));
    assert_eq!(carry, "");
}

#[test]
fn a_sequence_may_be_split_anywhere_behind_others() {
    let before = "\u{1b}]7;file:///first\u{1b}\\plain\u{1b}]0;title\u{7}";
    for end in ["\u{7}", "\u{1b}\\"] {
        let sequence = format!("\u{1b}]7;file:///next\u{1b}m{end}");
        for k in 1..sequence.len() {
            let (cwd, carry) = parse_osc_cwd("", &format!("{before}{}", &sequence[..k]));
            assert_eq!(cwd.as_deref(), Some("/first"));
            assert_eq!(carry, &sequence[..k]);
            let (cwd, carry) = parse_osc_cwd(&carry, &sequence[k..]);
            assert_eq!(cwd.as_deref(), Some("/next\u{1b}m"));
            assert_eq!(carry, "");
        }
    }
}
