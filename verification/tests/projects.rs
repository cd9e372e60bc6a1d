//! The projects that are remembered.

use hyperpanes_core::persistence::projects::{
    basename, canonical_path, color_for_key, color_for_path, git_repo_name, parse_origin_url,
    path_key, place_of_dir, place_of_root, repo_name_from_url, resolve_in, resolved_path, Place,
    Project, ProjectList, PROJECT_COLORS,
};
use hyperpanes_core::platform::Platform;

fn project(id: &str, path: &str, name: &str, at: Option<u64>) -> Project {
    Project {
        id: id.into(),
        path: path.into(),
        name: name.into(),
        color: "#123456".into(),
        last_opened_at: at,
    }
}

fn root(path: &str) -> Place {
    place_of_root(path, None, None, Platform::Linux)
}

#[test]
fn parses_an_https_github_url_with_git() {
    assert_eq!(
        repo_name_from_url("https://github.com/Eyalm321/hyperpanes.git").as_deref(),
        Some("hyperpanes")
    );
}

#[test]
fn parses_an_https_url_without_git() {
    assert_eq!(
        repo_name_from_url("https://github.com/owner/my-repo").as_deref(),
        Some("my-repo")
    );
}

#[test]
fn parses_an_scp_style_ssh_url() {
    assert_eq!(
        repo_name_from_url("git@github.com:owner/my-repo.git").as_deref(),
        Some("my-repo")
    );
}

#[test]
fn parses_an_ssh_url_and_keeps_dots_in_the_name() {
    assert_eq!(
        repo_name_from_url("ssh://git@github.com/owner/My.Repo.git").as_deref(),
        Some("My.Repo")
    );
}

#[test]
fn strips_a_trailing_slash() {
    assert_eq!(
        repo_name_from_url("https://gitlab.com/group/sub/proj/").as_deref(),
        Some("proj")
    );
}

#[test]
fn returns_none_for_an_empty_string() {
    assert_eq!(repo_name_from_url(""), None);
}

#[test]
fn projects_uppercases_the_drive_letter() {
    assert_eq!(canonical_path("c:\\hyperpanes", Platform::Windows), "C:\\hyperpanes");
}

#[test]
fn normalizes_forward_slashes_and_strips_a_trailing_separator() {
    assert_eq!(canonical_path("C:/Users/me/repo/", Platform::Windows), "C:\\Users\\me\\repo");
}

#[test]
fn makes_cmd_and_pwsh_paths_identical() {
    assert_eq!(
        canonical_path("c:\\hyperpanes", Platform::Windows),
        canonical_path("C:\\hyperpanes", Platform::Windows)
    );
}

#[test]
fn color_is_stable_and_in_palette() {
    for platform in [Platform::Windows, Platform::Macos, Platform::Linux] {
        let c = color_for_path("/home/me/project", None, platform);
        assert!(PROJECT_COLORS.contains(&c.as_str()));
        assert_eq!(
            color_for_path("/home/me/project", None, platform),
            color_for_path("/home/me/project/", None, platform)
        );
    }
}

#[test]
fn a_color_is_the_rolling_hash_of_the_key() {
    assert_eq!(color_for_path("/home/me/project", None, Platform::Linux), "#3b82f6");
    assert_eq!(color_for_key("c:\\repo"), "#eab308");
    assert_eq!(color_for_key(""), "#e5484d");
    assert_eq!(color_for_key("a"), "#f5a623");
    assert_eq!(color_for_key("😀"), "#3b82f6");
}

#[test]
fn color_is_drive_case_insensitive_on_windows() {
    assert_eq!(
        color_for_path("c:\\repo", None, Platform::Windows),
        color_for_path("C:/repo/", None, Platform::Windows)
    );
}

#[test]
fn resolve_prefers_id_then_name_newest_first() {
    let newer = Project {
        id: "id-new".into(),
        path: "/repo/new".into(),
        name: "dup".into(),
        color: PROJECT_COLORS[0].into(),
        last_opened_at: Some(200),
    };
    let older = Project {
        id: "id-old".into(),
        path: "/repo/old".into(),
        name: "dup".into(),
        color: PROJECT_COLORS[1].into(),
        last_opened_at: Some(100),
    };
    let list = vec![newer.clone(), older.clone()];
    assert_eq!(resolve_in(&list, "id-old").as_ref(), Some(&older));
    assert_eq!(resolve_in(&list, "dup").as_ref(), Some(&newer));
    assert_eq!(resolve_in(&list, "nope"), None);
}

#[test]
fn parse_origin_url_reads_the_git_config_block() {
    let cfg = "[core]\n\trepositoryformatversion = 0\n[remote \"origin\"]\n\turl = https://github.com/owner/cool-repo.git\n\tfetch = +refs/heads/*:refs/remotes/origin/*\n[branch \"main\"]\n";
    assert_eq!(
        parse_origin_url(cfg).as_deref(),
        Some("https://github.com/owner/cool-repo.git")
    );
    assert_eq!(
        parse_origin_url(cfg)
            .and_then(|u| repo_name_from_url(&u))
            .as_deref(),
        Some("cool-repo")
    );
    assert_eq!(parse_origin_url("[core]\n\tbare = false\n"), None);
}

#[test]
fn path_key_case_sensitivity_follows_the_platform_fs() {
    let key = |p, platform| path_key(p, None, platform);
    for platform in [Platform::Windows, Platform::Macos] {
        assert_eq!(key("/Users/me/Repo", platform), key("/users/me/repo", platform));
    }
    assert_ne!(key("/Users/me/Repo", Platform::Linux), key("/users/me/repo", Platform::Linux));
}

#[test]
fn upsert_creates_then_dedups_on_recency() {
    let mut list = ProjectList::new();
    let place = root("/tmp/hp-projects-root");
    let first = list.upsert_project_by_root(&place, None, 1_000, Platform::Linux);
    assert!(PROJECT_COLORS.contains(&first.color.as_str()));
    let resolved = resolved_path("/tmp/hp-projects-root", None, Platform::Linux);
    assert_eq!(first.name, basename(&resolved, Platform::Linux));
    assert_eq!(first.path, resolved);
    assert!(first.last_opened_at.is_some());

    let second = list.upsert_project_by_root(&place, None, 2_000, Platform::Linux);
    assert_eq!(first.id, second.id);
    assert_eq!(second.last_opened_at, Some(2_000));
    assert_eq!(list.projects().len(), 1);
    assert_eq!(list.projects()[0].id, first.id);
}

#[test]
fn a_symlinked_spelling_is_the_same_project() {
    let mut list = ProjectList::new();
    let real = Some("/private/tmp/real");
    let by_real = list.upsert_project_by_root(
        &place_of_root("/private/tmp/real", real, real, Platform::Macos),
        None,
        1,
        Platform::Macos,
    );
    let by_link = list.upsert_project_by_root(
        &place_of_root("/tmp/alias", real, real, Platform::Macos),
        None,
        2,
        Platform::Macos,
    );
    assert_eq!(by_real.id, by_link.id);
    assert_eq!(by_real.color, by_link.color);
    assert_eq!(list.projects().len(), 1, "no duplicate entry");
    assert_eq!(
        path_key("/private/tmp/real", real, Platform::Macos),
        path_key("/tmp/alias", real, Platform::Macos)
    );
}

#[test]
fn explicit_add_round_trips_and_duplicate_is_a_noop() {
    let mut list = ProjectList::new();
    let dir = "/tmp/hp-projects-explicit";
    let place = place_of_dir(dir, None, Platform::Linux);
    let (first, added) = list.add_project_explicit(&place, None, 5, Platform::Linux);
    assert!(added);
    assert!(PROJECT_COLORS.contains(&first.color.as_str()));
    assert_eq!(first.path, canonical_path(dir, Platform::Linux));
    assert_eq!(first.name, basename(&canonical_path(dir, Platform::Linux), Platform::Linux));
    assert_eq!(list.projects().len(), 1);
    assert_eq!(list.projects()[0], first);

    let again = place_of_dir(&format!("{dir}\\"), None, Platform::Linux);
    let (second, added2) = list.add_project_explicit(&again, None, 6, Platform::Linux);
    assert!(!added2);
    assert_eq!(second, first);
    assert_eq!(list.projects().len(), 1);
    assert_eq!(list.projects()[0], first);
}

#[test]
fn new_projects_get_ids_of_their_own() {
    let mut list = ProjectList::new();
    let a = list.upsert_project_by_root(&root("/a"), None, 1, Platform::Linux);
    let b = list.upsert_project_by_root(&root("/b"), None, 2, Platform::Linux);
    assert_ne!(a.id, b.id);
    for id in [&a.id, &b.id] {
        assert_eq!(id.len(), 36);
        assert_eq!(&id[14..15], "4");
        assert!(id.chars().all(|c| c == '-' || c.is_ascii_hexdigit() && !c.is_ascii_uppercase()));
    }
}

#[test]
fn a_repository_names_a_project_unless_the_user_did() {
    let mut list = ProjectList::new();
    let place = root("/src/dir");
    assert_eq!(list.upsert_with_id(&place, None, 1, "id", Platform::Linux).name, "dir");
    assert_eq!(list.upsert_with_id(&place, Some("repo"), 2, "x", Platform::Linux).name, "repo");
    assert!(list.rename_project("id", "mine"));
    assert_eq!(list.upsert_with_id(&place, Some("repo"), 3, "x", Platform::Linux).name, "mine");
}

#[test]
fn loading_joins_spellings_and_keeps_the_newest() {
    let stored = vec![
        project("a", "/src/one", "one", Some(1)),
        project("b", "/src/two", "two", Some(2)),
        project("c", "/src/one/", "other", Some(3)),
    ];
    let (list, changed) = ProjectList::load(stored, &vec![None, None, None], Platform::Linux);
    assert!(changed);
    let ids: Vec<&str> = list.projects().iter().map(|p| p.id.as_str()).collect();
    assert_eq!(ids, vec!["c", "b"]);
    assert_eq!(list.projects()[0].path, "/src/one");
    assert_eq!(list.projects()[0].last_opened_at, Some(3));
}

#[test]
fn loading_distinct_projects_changes_nothing() {
    let stored = vec![project("a", "/one", "one", Some(1)), project("b", "/two", "two", None)];
    let (list, changed) = ProjectList::load(stored.clone(), &vec![None, None], Platform::Linux);
    assert!(!changed);
    assert_eq!(list.projects(), &stored);
}

#[test]
fn projects_are_listed_newest_first_and_the_order_is_stable() {
    let stored = vec![
        project("a", "/a", "a", None),
        project("b", "/b", "b", Some(7)),
        project("c", "/c", "c", Some(9)),
        project("d", "/d", "d", Some(7)),
    ];
    let (list, _) = ProjectList::load(stored, &vec![None, None, None, None], Platform::Linux);
    let ids: Vec<String> = list.list_projects().into_iter().map(|p| p.id).collect();
    assert_eq!(ids, vec!["c", "b", "d", "a"]);
}

#[test]
fn a_handle_finds_ids_before_titles() {
    let stored = vec![project("x", "/a", "b", Some(1)), project("b", "/b", "x", Some(9))];
    let (list, _) = ProjectList::load(stored, &vec![None, None], Platform::Linux);
    assert_eq!(list.resolve("x").unwrap().path, "/a");
    assert_eq!(list.resolve("nothing"), None);
}

#[test]
fn colors_and_removals_go_by_id() {
    let mut list = ProjectList::new();
    list.upsert_with_id(&root("/a"), None, 1, "a", Platform::Linux);
    list.upsert_with_id(&root("/b"), None, 2, "b", Platform::Linux);
    assert!(list.set_project_color("b", "#ffffff"));
    assert!(!list.set_project_color("c", "#ffffff"));
    assert!(!list.rename_project("c", "c"));
    assert_eq!(list.resolve("b").unwrap().color, "#ffffff");
    list.remove_project("a");
    list.remove_project("c");
    assert_eq!(list.resolve("a"), None);
    assert_eq!(list.projects().len(), 1);
}

#[test]
fn extended_paths_of_windows_are_stored_plainly() {
    let of = |found| resolved_path("c:\\x", Some(found), Platform::Windows);
    assert_eq!(of("\\\\?\\C:\\Repo"), "C:\\Repo");
    assert_eq!(of("\\\\?\\UNC\\host\\share"), "\\\\host\\share");
    assert_eq!(of("D:\\plain"), "D:\\plain");
}

#[test]
fn base_names_leave_drives_and_shares_out() {
    assert_eq!(basename("/home/me/repo", Platform::Linux), "repo");
    assert_eq!(basename("/", Platform::Linux), "");
    assert_eq!(basename("C:\\work\\repo", Platform::Windows), "repo");
    assert_eq!(basename("C:\\", Platform::Windows), "");
}

#[test]
fn a_configuration_without_an_origin_names_nothing() {
    assert_eq!(git_repo_name(None), None);
    assert_eq!(git_repo_name(Some("[core]\n")), None);
    assert_eq!(
        git_repo_name(Some("[remote \"origin\"]\n  url = git@host:me/Repo.GIT\n")).as_deref(),
        Some("Repo")
    );
}
