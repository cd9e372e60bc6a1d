//! What becomes of the paths, names and times of projects, seen from outside.

use crate::persistence::paths::is_separator;
use crate::persistence::projects::{absorbed, added, base_name, by_id, by_name, canonical, color_of,
    config_repo_name, deduped, entered, first_url, handled, id_index, is_slash, is_url_separator,
    key_index, key_of, last_component, last_part, last_segment, law_list_is_in_order,
    lemma_key_index, lemma_newer_count, new_title, newer_count, newest_first, opened, origin_url,
    part_end, part_end_after, plain_form, recolored, renamed, reopened, resolved, rolling,
    section_text, tail_part, url_line, url_repo_name, with_stored_path, without_git_suffix,
    without_id, without_trailing_slashes, Entry, ProjectView, ORIGIN};
use crate::platform::Platform;
use crate::text::{ascii_lower, ascii_upper, find, find_text, has_prefix, is_ascii_letter,
    is_white_space, lemma_find, lines, lower_text, same_ignoring_case, trim, trim_start};
use crate::text_laws::{blank, lemma_trim_nothing};
use vstd::prelude::*;
use vstd::string::*;

verus! {

// ---------------------------------------------------------------------------
// Paths
// ---------------------------------------------------------------------------

/// A stored path is the path up to the slashes at its end: character by
/// character on a Unix, and on Windows but for the kind of its slashes and the
/// case of its drive.
pub proof fn law_stored_path_is_the_path(p: Seq<char>, i: int)
    ensures
        ({
            let n = without_trailing_slashes(p).len() as int;
            &&& n <= p.len()
            &&& canonical(p, Platform::Linux) == p.take(n)
            &&& canonical(p, Platform::Macos) == p.take(n)
            &&& canonical(p, Platform::Windows).len() == n
            &&& n <= i < p.len() ==> is_slash(p[i])
            &&& n > 0 ==> !is_slash(p[n - 1])
            &&& 0 <= i < n && i > 0 && !is_slash(p[i]) ==> canonical(p, Platform::Windows)[i]
                == p[i]
            &&& 0 <= i < n && is_slash(p[i]) ==> canonical(p, Platform::Windows)[i] == '\\'
            &&& n >= 2 && is_ascii_letter(p[0]) && p[1] == ':' ==> canonical(
                p,
                Platform::Windows,
            )[0] == ascii_upper(p[0])
            &&& n > 0 && !is_slash(p[0]) && !(n >= 2 && p[1] == ':') ==> canonical(
                p,
                Platform::Windows,
            )[0] == p[0]
        }),
    decreases p.len(),
{
    if p.len() > 0 && is_slash(p.last()) {
        let d = p.drop_last();
        law_stored_path_is_the_path(d, i);
        let n = without_trailing_slashes(p).len() as int;
        assert(d.take(n) =~= p.take(n));
        if 0 <= i < n {
            assert(d[i] == p[i]);
        }
    } else {
        assert(p.take(p.len() as int) =~= p);
    }
}

/// The forms that Windows resolves a path to lose their marks and nothing else.
pub proof fn law_long_form_is_unmarked(rest: Seq<char>)
    ensures
        !has_prefix(rest, "UNC\\"@) ==> plain_form("\\\\?\\"@ + rest) == rest,
        plain_form("\\\\?\\"@ + "UNC\\"@ + rest) == "\\\\"@ + rest,
        !has_prefix(rest, "\\\\?\\"@) ==> plain_form(rest) == rest,
{
    reveal_strlit("\\\\?\\");
    reveal_strlit("UNC\\");
    let a = "\\\\?\\"@ + rest;
    assert(a.take(4) =~= "\\\\?\\"@);
    assert(a.skip(4) =~= rest);
    let b = "\\\\?\\"@ + "UNC\\"@ + rest;
    assert(b.take(4) =~= "\\\\?\\"@);
    let c = "UNC\\"@ + rest;
    assert(b.skip(4) =~= c);
    assert(c.take(4) =~= "UNC\\"@);
    assert(c.skip(4) =~= rest);
}

/// Where a path resolves, it is stored as what it resolved to; and on Linux that
/// is the key, so that paths that differ in case are different directories.
pub proof fn law_path_is_what_it_resolves_to(p: Seq<char>, found: Seq<char>)
    requires
        found.len() > 0,
        found[0] == '/',
        !is_slash(found.last()),
    ensures
        resolved(p, Some(found), Platform::Linux) == found,
        key_of(p, Some(found), Platform::Linux) == found,
{
    reveal_strlit("\\\\?\\");
    assert(!has_prefix(found, "\\\\?\\"@)) by {
        if has_prefix(found, "\\\\?\\"@) {
            assert(found.take(4)[0] == found[0]);
            assert("\\\\?\\"@[0] == '\\');
        }
    }
}

/// On macOS and Windows the case of a path does not count: the key of a
/// directory is its stored path in lower case.
pub proof fn law_case_does_not_tell_directories_apart(p: Seq<char>, found: Option<Seq<char>>)
    ensures
        key_of(p, found, Platform::Macos) == lower_text(resolved(p, found, Platform::Macos)),
        key_of(p, found, Platform::Windows) == lower_text(resolved(p, found, Platform::Windows)),
{
}

// ---------------------------------------------------------------------------
// Names
// ---------------------------------------------------------------------------

/// Whether a name holds no separator of a URL or a path.
pub open spec fn plain_name(name: Seq<char>) -> bool {
    &&& name.len() > 0
    &&& forall|i: int| 0 <= i < name.len() ==> !is_url_separator(#[trigger] name[i])
}

proof fn lemma_last_part(before: Seq<char>, name: Seq<char>)
    requires
        before.len() == 0 || is_url_separator(before.last()),
        forall|i: int| 0 <= i < name.len() ==> !is_url_separator(#[trigger] name[i]),
    ensures
        last_part(before + name) == name,
    decreases name.len(),
{
    let s = before + name;
    if name.len() == 0 {
        assert(s =~= before);
    } else {
        assert(s.drop_last() =~= before + name.drop_last());
        lemma_last_part(before, name.drop_last());
        assert(name.drop_last().push(name.last()) =~= name);
    }
}

/// A repository is named by the last part of its URL, with or without `.git`
/// behind it, in any case, whatever stands before.
pub proof fn law_repository_is_named_by_its_url(
    before: Seq<char>,
    name: Seq<char>,
    suffix: Seq<char>,
)
    requires
        same_ignoring_case(suffix, ".git"@),
        before.len() > 0,
        is_url_separator(before.last()),
        !is_white_space(before[0]),
        plain_name(name),
        !is_white_space(name.last()),
    ensures
        url_repo_name(before + name + suffix) == Some(name),
        !(name.len() >= 4 && same_ignoring_case(name.skip(name.len() - 4), ".git"@))
            ==> url_repo_name(before + name) == Some(name),
{
    reveal_strlit(".git");
    let s = before + name;
    let g = s + suffix;
    assert(g.last() == suffix[3]);
    assert(ascii_lower(suffix[3]) == ascii_lower(".git"@[3]));
    assert(!is_white_space(suffix[3]));
    lemma_trim_nothing(g);
    assert(g.skip(g.len() - 4) =~= suffix);
    assert(g.take(g.len() - 4) =~= s);
    assert(without_git_suffix(g) == s);
    assert(s.last() == name.last());
    assert(!is_url_separator(name[name.len() - 1]));
    assert(without_trailing_slashes(s) == s);
    lemma_last_part(before, name);
    assert(last_segment(s) == Some(name));
    lemma_trim_nothing(s);
    if name.len() >= 4 {
        assert(s.skip(s.len() - 4) =~= name.skip(name.len() - 4));
    } else if s.len() >= 4 {
        let e = s.skip(s.len() - 4);
        let k = 3 - name.len();
        assert(e[k] == before.last());
        if same_ignoring_case(e, ".git"@) {
            assert(ascii_lower(e[k]) == ascii_lower(".git"@[k]));
        }
    }
}

/// The URL of a section is what follows the sign of its line, however the line
/// is spaced.
pub proof fn law_url_follows_the_sign(indent: Seq<char>, gap: Seq<char>, value: Seq<char>)
    requires
        blank(indent),
        blank(gap),
    ensures
        url_line(indent + "url"@ + gap + seq!['='] + value) == Some(trim(value)),
{
    reveal_strlit("url");
    let t = "url"@ + gap + seq!['='] + value;
    assert(indent + "url"@ + gap + seq!['='] + value =~= indent + t);
    assert(t[0] == 'u');
    assert(!is_white_space('u'));
    lemma_trim_start_blank(indent, t);
    assert(t.take(3) =~= "url"@);
    let r = seq!['='] + value;
    assert(t.skip(3) =~= gap + r);
    assert(!is_white_space('='));
    lemma_trim_start_blank(gap, r);
    assert(r.skip(1) =~= value);
}

proof fn lemma_trim_start_blank(a: Seq<char>, s: Seq<char>)
    requires
        blank(a),
        s.len() > 0,
        !is_white_space(s[0]),
    ensures
        trim_start(a + s) == s,
    decreases a.len(),
{
    if a.len() > 0 {
        assert((a + s)[0] == a[0]);
        assert((a + s).skip(1) =~= a.skip(1) + s);
        assert forall|i: int| 0 <= i < a.skip(1).len() implies is_white_space(
            #[trigger] a.skip(1)[i],
        ) by {
            assert(a.skip(1)[i] == a[i + 1]);
        }
        lemma_trim_start_blank(a.skip(1), s);
    } else {
        assert(a + s =~= s);
    }
}

/// Of the lines of a section the first that has a URL counts.
pub proof fn law_first_url_counts(before: Seq<Seq<char>>, line: Seq<char>, after: Seq<Seq<char>>)
    requires
        forall|i: int| 0 <= i < before.len() ==> url_line(#[trigger] before[i]) is None,
        url_line(line) is Some,
    ensures
        first_url(before + seq![line] + after) == url_line(line),
        first_url(before) is None,
    decreases before.len(),
{
    let ls = before + seq![line] + after;
    if before.len() == 0 {
        assert(ls[0] == line);
    } else {
        let t = before.skip(1);
        assert(ls[0] == before[0]);
        assert(ls.skip(1) =~= t + seq![line] + after);
        assert forall|i: int| 0 <= i < t.len() implies url_line(#[trigger] t[i]) is None by {
            assert(t[i] == before[i + 1]);
        }
        law_first_url_counts(t, line, after);
    }
}

/// A section ends where the next begins.
pub proof fn law_section_ends_at_the_next(s: Seq<char>, t: Seq<char>)
    requires
        !s.contains('['),
    ensures
        section_text(s + seq!['['] + t) == s,
        section_text(s) == s,
{
    let u = s + seq!['['] + t;
    lemma_find(u, '[');
    assert(u[s.len() as int] == '[');
    if find(u, '[') < s.len() {
        assert(s[find(u, '[')] == '[');
    }
    assert(u.take(s.len() as int) =~= s);
    lemma_find(s, '[');
    if find(s, '[') < s.len() {
        assert(s.contains(s[find(s, '[')]));
    }
    assert(s.take(s.len() as int) =~= s);
}

/// Whether a name is one of a directory's entries: it holds no separator and is
/// neither the directory itself nor the one above.
pub open spec fn entry_name(name: Seq<char>, platform: Platform) -> bool {
    &&& name.len() > 0
    &&& name != "."@
    &&& name != ".."@
    &&& forall|i: int| 0 <= i < name.len() ==> !is_separator(#[trigger] name[i], platform)
}

proof fn lemma_tail_part(before: Seq<char>, name: Seq<char>, platform: Platform)
    requires
        before.len() == 0 || is_separator(before.last(), platform),
        forall|i: int| 0 <= i < name.len() ==> !is_separator(#[trigger] name[i], platform),
    ensures
        tail_part(before + name, platform) == name,
    decreases name.len(),
{
    let s = before + name;
    if name.len() == 0 {
        assert(s =~= before);
    } else {
        assert(s.drop_last() =~= before + name.drop_last());
        lemma_tail_part(before, name.drop_last(), platform);
        assert(name.drop_last().push(name.last()) =~= name);
    }
}

/// A directory without a title of its own is called by the last part of its
/// path, whatever stands before, and a separator or a `.` behind it is no part.
pub proof fn law_directory_is_called_by_its_name(
    before: Seq<char>,
    name: Seq<char>,
    platform: Platform,
)
    requires
        before.len() > 0,
        is_separator(before.last(), platform),
        entry_name(name, platform),
    ensures
        last_component(before + name, platform) == name,
        last_component((before + name).push('/'), platform) == name,
        last_component((before + name).push('/').push('.'), platform) == name,
        platform != Platform::Windows ==> base_name(before + name, platform) == name,
        platform == Platform::Windows ==> forall|c: char|
            is_ascii_letter(c) ==> base_name(#[trigger] seq![c, ':'] + (before + name), platform)
                == name,
{
    reveal_strlit(".");
    reveal_strlit("..");
    let s = before + name;
    lemma_tail_part(before, name, platform);
    assert(s.last() == name.last());
    assert(!is_separator(name[name.len() - 1], platform));
    assert(last_component(s, platform) == name);
    let t = s.push('/');
    assert(t.drop_last() =~= s);
    assert(last_component(t, platform) == name);
    let u = t.push('.');
    assert(u.drop_last() =~= t);
    lemma_tail_part(t, seq!['.'], platform);
    assert(t + seq!['.'] =~= u);
    assert("."@ =~= seq!['.']);
    assert(last_component(u, platform) == name);
    if platform == Platform::Windows {
        assert forall|c: char| is_ascii_letter(c) implies base_name(
            #[trigger] seq![c, ':'] + (before + name),
            platform,
        ) == name by {
            let p = seq![c, ':'] + s;
            assert(p.skip(2) =~= s);
            assert(p[0] == c && p[1] == ':');
        }
    }
}

/// The directory above has no name of its own, and neither has a root or a
/// share.
pub proof fn law_some_directories_have_no_name(before: Seq<char>, a: Seq<char>, b: Seq<char>)
    requires
        before.len() > 0,
        before.last() == '/',
        forall|i: int| 0 <= i < a.len() ==> !is_slash(#[trigger] a[i]),
        forall|i: int| 0 <= i < b.len() ==> !is_slash(#[trigger] b[i]),
    ensures
        base_name(before + ".."@, Platform::Linux).len() == 0,
        base_name(seq!['/'], Platform::Linux).len() == 0,
        base_name(seq!['\\', '\\'] + a + seq!['\\'] + b, Platform::Windows).len() == 0,
{
    reveal_strlit("..");
    reveal_strlit(".");
    let s = before + ".."@;
    lemma_tail_part(before, ".."@, Platform::Linux);
    assert("."@.len() == 1 && ".."@.len() == 2);
    assert(s.last() == '.');
    let r = seq!['/'];
    assert(r.drop_last() =~= Seq::<char>::empty());
    reveal_with_fuel(last_component, 2);
    let p = seq!['\\', '\\'] + a + seq!['\\'] + b;
    let q = p.skip(2);
    assert(q =~= a + seq!['\\'] + b);
    lemma_part_end(a, seq!['\\'] + b);
    assert(q =~= a + (seq!['\\'] + b));
    let t = q.skip(part_end(q));
    assert(t =~= seq!['\\'] + b);
    assert(t.skip(1) =~= b + Seq::<char>::empty());
    lemma_part_end(b, Seq::empty());
    assert(t.skip(part_end_after(t)) =~= Seq::<char>::empty());
}

proof fn lemma_part_end(a: Seq<char>, rest: Seq<char>)
    requires
        forall|i: int| 0 <= i < a.len() ==> !is_slash(#[trigger] a[i]),
        rest.len() == 0 || is_slash(rest[0]),
    ensures
        part_end(a + rest) == a.len(),
    decreases a.len(),
{
    let s = a + rest;
    if a.len() > 0 {
        let t = a.skip(1);
        assert(s[0] == a[0]);
        assert(s.skip(1) =~= t + rest);
        assert forall|i: int| 0 <= i < t.len() implies !is_slash(#[trigger] t[i]) by {
            assert(t[i] == a[i + 1]);
        }
        lemma_part_end(t, rest);
    } else {
        assert(s =~= rest);
    }
}

/// A directory on a share of Windows is called by its name, like any other.
pub proof fn law_directory_on_a_share_is_called_by_its_name(
    a: Seq<char>,
    b: Seq<char>,
    dirs: Seq<char>,
    name: Seq<char>,
)
    requires
        forall|i: int| 0 <= i < a.len() ==> !is_slash(#[trigger] a[i]),
        forall|i: int| 0 <= i < b.len() ==> !is_slash(#[trigger] b[i]),
        dirs.len() > 0,
        dirs[0] == '\\',
        dirs.last() == '\\',
        entry_name(name, Platform::Windows),
    ensures
        base_name(seq!['\\', '\\'] + a + seq!['\\'] + b + (dirs + name), Platform::Windows)
            == name,
{
    let rest = dirs + name;
    let p = seq!['\\', '\\'] + a + seq!['\\'] + b + rest;
    let q = p.skip(2);
    assert(q =~= a + (seq!['\\'] + b + rest));
    lemma_part_end(a, seq!['\\'] + b + rest);
    let t = q.skip(part_end(q));
    assert(t =~= seq!['\\'] + b + rest);
    assert(t.skip(1) =~= b + rest);
    lemma_part_end(b, rest);
    assert(t.skip(part_end_after(t)) =~= rest);
    law_directory_is_called_by_its_name(dirs, name, Platform::Windows);
}

/// A new project is called by its repository, else by its directory, else by its
/// path.
pub proof fn law_new_project_has_a_title(path: Seq<char>, repo: Seq<char>, platform: Platform)
    ensures
        new_title(path, Some(repo), platform) == repo,
        base_name(path, platform).len() > 0 ==> new_title(path, None, platform) == base_name(
            path,
            platform,
        ),
        base_name(path, platform).len() == 0 ==> new_title(path, None, platform) == path,
        path.len() > 0 ==> new_title(path, None, platform).len() > 0,
{
}

// ---------------------------------------------------------------------------
// Projects
// ---------------------------------------------------------------------------

/// Of two projects of one directory the one opened later is kept, whichever
/// comes first, and of two opened at one time the second.
pub proof fn law_later_opened_is_kept(key: Seq<char>, a: ProjectView, b: ProjectView)
    ensures
        ({
            let s = absorbed(absorbed(Seq::empty(), key, a), key, b);
            &&& opened(a) > opened(b) ==> s == seq![(key, a)]
            &&& opened(a) <= opened(b) ==> s == seq![(key, b)]
        }),
{
    let e = Seq::<Entry>::empty();
    lemma_key_index(e, key);
    let s = absorbed(e, key, a);
    assert(s =~= seq![(key, a)]);
    lemma_key_index(s, key);
    assert(key_index(s, key) == 0) by {
        if key_index(s, key) > 0 {
            assert(s[0].0 != key);
        }
    }
}

/// Every entry of a list that is loaded is a project of the file, but for the
/// form of its path.
pub proof fn law_loaded_projects_are_of_the_file(
    ps: Seq<ProjectView>,
    keys: Seq<Seq<char>>,
    platform: Platform,
    n: nat,
    i: int,
)
    requires
        0 <= i < deduped(ps, keys, platform, n).len(),
        n <= ps.len(),
    ensures
        exists|j: int|
            0 <= j < n && (#[trigger] keys[j], with_stored_path(ps[j], platform)) == deduped(
                ps,
                keys,
                platform,
                n,
            )[i],
    decreases n,
{
    if n > 0 {
        let s = deduped(ps, keys, platform, (n - 1) as nat);
        let t = deduped(ps, keys, platform, n);
        lemma_key_index(s, keys[n - 1]);
        if i < s.len() && t[i] == s[i] {
            law_loaded_projects_are_of_the_file(ps, keys, platform, (n - 1) as nat, i);
        } else {
            assert((keys[n - 1], with_stored_path(ps[n - 1], platform)) == t[i]);
        }
    }
}

/// Loading a project changes nothing of it but the form of its path.
pub proof fn law_loading_keeps_the_rest(p: ProjectView, platform: Platform)
    ensures
        ({
            let q = with_stored_path(p, platform);
            &&& q.path == canonical(p.path, platform)
            &&& q.id == p.id
            &&& q.name == p.name
            &&& q.color == p.color
            &&& q.last_opened_at == p.last_opened_at
        }),
{
}

/// A project that is remembered for the first time has the id, the path and the
/// time that it is given and the color of its key, comes last, and moves no other.
pub proof fn law_new_project_comes_last(
    s: Seq<Entry>,
    path: Seq<char>,
    key: Seq<char>,
    repo: Option<Seq<char>>,
    now: u64,
    id: Seq<char>,
    platform: Platform,
)
    requires
        forall|i: int| 0 <= i < s.len() ==> (#[trigger] s[i]).0 != key,
    ensures
        ({
            let t = entered(s, path, key, repo, now, id, platform);
            &&& t.len() == s.len() + 1
            &&& t.drop_last() == s
            &&& t.last().0 == key
            &&& t.last().1.id == id
            &&& t.last().1.path == path
            &&& t.last().1.last_opened_at == Some(now)
            &&& t.last().1.name == new_title(path, repo, platform)
            &&& t.last().1.color == color_of(key)
            &&& t == added(s, path, key, repo, now, id, platform)
        }),
{
    lemma_key_index(s, key);
    let t = entered(s, path, key, repo, now, id, platform);
    assert(t.drop_last() =~= s);
}

/// A project that is entered again keeps its id and its color; a title that is
/// its directory's name gives way to its repository's, and only to that.
pub proof fn law_entered_project_stays_itself(
    p: ProjectView,
    path: Seq<char>,
    repo: Option<Seq<char>>,
    now: u64,
    platform: Platform,
)
    ensures
        ({
            let q = reopened(p, path, repo, now, platform);
            &&& q.id == p.id
            &&& q.color == p.color
            &&& q.path == path
            &&& q.last_opened_at == Some(now)
            &&& repo is None ==> q.name == p.name
            &&& repo matches Some(r) ==> (p.name == base_name(path, platform) ==> q.name == r)
            &&& repo == Some(p.name) ==> q.name == p.name
        }),
{
}

proof fn lemma_id_index(s: Seq<Entry>, id: Seq<char>)
    ensures
        0 <= id_index(s, id) <= s.len(),
        id_index(s, id) < s.len() ==> s[id_index(s, id)].1.id == id,
        forall|i: int| 0 <= i < id_index(s, id) ==> (#[trigger] s[i]).1.id != id,
    decreases s.len(),
{
    if s.len() > 0 && s[0].1.id != id {
        lemma_id_index(s.skip(1), id);
        assert forall|i: int| 0 <= i < id_index(s, id) implies (#[trigger] s[i]).1.id != id by {
            if i > 0 {
                assert(s.skip(1)[i - 1] == s[i]);
            }
        }
    }
}

/// A color or a title is that of the project it is given to: what else is known
/// of it stays, and so does every project with another id.
pub proof fn law_only_the_named_project_changes(
    s: Seq<Entry>,
    id: Seq<char>,
    v: Seq<char>,
    i: int,
)
    requires
        0 <= i < s.len(),
    ensures
        recolored(s, id, v).len() == s.len(),
        renamed(s, id, v).len() == s.len(),
        s[i].1.id != id ==> recolored(s, id, v)[i] == s[i] && renamed(s, id, v)[i] == s[i],
        s[i].1.id == id && (forall|j: int| 0 <= j < i ==> (#[trigger] s[j]).1.id != id) ==> {
            let a = recolored(s, id, v)[i];
            let b = renamed(s, id, v)[i];
            &&& a.0 == s[i].0 && b.0 == s[i].0
            &&& a.1.color == v && a.1.name == s[i].1.name
            &&& b.1.name == v && b.1.color == s[i].1.color
            &&& a.1.id == id && b.1.id == id
            &&& a.1.path == s[i].1.path && b.1.path == s[i].1.path
            &&& a.1.last_opened_at == s[i].1.last_opened_at
            &&& b.1.last_opened_at == s[i].1.last_opened_at
        },
{
    lemma_id_index(s, id);
}

/// Forgetting a project leaves every other, in its order.
pub proof fn law_others_are_not_forgotten(a: Seq<Entry>, b: Seq<Entry>, id: Seq<char>)
    ensures
        without_id(a + b, id) == without_id(a, id) + without_id(b, id),
        (forall|i: int| 0 <= i < a.len() ==> (#[trigger] a[i]).1.id != id) ==> without_id(a, id)
            == a,
    decreases a.len() + b.len(),
{
    if b.len() > 0 {
        assert((a + b).drop_last() =~= a + b.drop_last());
        law_others_are_not_forgotten(a, b.drop_last(), id);
        assert((a + b).last() == b.last());
        assert(without_id(a + b, id) =~= without_id(a, id) + without_id(b, id));
    } else {
        assert(a + b =~= a);
        assert(without_id(a, id) + without_id(b, id) =~= without_id(a, id));
        if a.len() > 0 {
            law_others_are_not_forgotten(a.drop_last(), b, id);
            if forall|i: int| 0 <= i < a.len() ==> (#[trigger] a[i]).1.id != id {
                assert(a[a.len() - 1].1.id != id);
                assert(a.drop_last().push(a.last()) =~= a);
            }
        }
    }
}

/// The projects that were opened at a time, in order.
pub open spec fn of_time(s: Seq<ProjectView>, t: u64) -> Seq<ProjectView>
    decreases s.len(),
{
    if s.len() == 0 {
        s
    } else if opened(s.last()) == t {
        of_time(s.drop_last(), t).push(s.last())
    } else {
        of_time(s.drop_last(), t)
    }
}

proof fn lemma_of_time(a: Seq<ProjectView>, b: Seq<ProjectView>, t: u64)
    ensures
        of_time(a + b, t) == of_time(a, t) + of_time(b, t),
    decreases b.len(),
{
    if b.len() > 0 {
        assert((a + b).drop_last() =~= a + b.drop_last());
        lemma_of_time(a, b.drop_last(), t);
        assert(of_time(a + b, t) =~= of_time(a, t) + of_time(b, t));
    } else {
        assert(a + b =~= a);
        assert(of_time(a, t) + of_time(b, t) =~= of_time(a, t));
    }
}

proof fn lemma_of_no_time(s: Seq<ProjectView>, t: u64)
    requires
        forall|i: int| 0 <= i < s.len() ==> opened(#[trigger] s[i]) != t,
    ensures
        of_time(s, t).len() == 0,
    decreases s.len(),
{
    if s.len() > 0 {
        let d = s.drop_last();
        assert(opened(s[s.len() - 1]) != t);
        assert forall|i: int| 0 <= i < d.len() implies opened(#[trigger] d[i]) != t by {
            assert(d[i] == s[i]);
        }
        lemma_of_no_time(d, t);
    }
}

/// Projects that were opened at one time are listed in the order they are kept.
pub proof fn law_ties_keep_their_order(s: Seq<ProjectView>, t: u64)
    ensures
        of_time(newest_first(s), t) == of_time(s, t),
    decreases s.len(),
{
    if s.len() > 0 {
        let d = s.drop_last();
        let p = s.last();
        law_ties_keep_their_order(d, t);
        law_list_is_in_order(d);
        let l = newest_first(d);
        let k = newer_count(l, opened(p));
        lemma_newer_count(l, opened(p));
        let a = l.take(k);
        let b = l.skip(k);
        assert(l.insert(k, p) =~= a + (seq![p] + b));
        assert(a + b =~= l);
        lemma_of_time(a, seq![p] + b, t);
        lemma_of_time(seq![p], b, t);
        lemma_of_time(a, b, t);
        assert(seq![p].drop_last() =~= Seq::<ProjectView>::empty());
        reveal_with_fuel(of_time, 2);
        if opened(p) == t {
            assert forall|i: int| 0 <= i < b.len() implies opened(#[trigger] b[i]) != t by {
                assert(b[i] == l[k + i]);
                assert(opened(l[k]) < opened(p));
                assert(opened(l[k]) >= opened(l[k + i]) || i == 0);
            }
            lemma_of_no_time(b, t);
            assert(of_time(seq![p], t) =~= seq![p]);
        } else {
            assert(of_time(seq![p], t) =~= Seq::<ProjectView>::empty());
        }
        assert(of_time(newest_first(s), t) =~= of_time(s, t));
    }
}

/// A handle means the first project with that id; where there is none, the first
/// with that title.
pub proof fn law_handle_means_the_first(s: Seq<ProjectView>, handle: Seq<char>, i: int)
    requires
        0 <= i < s.len(),
    ensures
        s[i].id == handle && (forall|j: int| 0 <= j < i ==> (#[trigger] s[j]).id != handle)
            ==> handled(s, handle) == Some(s[i]),
        (forall|j: int| 0 <= j < s.len() ==> (#[trigger] s[j]).id != handle) && s[i].name == handle
            && (forall|j: int| 0 <= j < i ==> (#[trigger] s[j]).name != handle) ==> handled(
            s,
            handle,
        ) == Some(s[i]),
        (forall|j: int|
            0 <= j < s.len() ==> (#[trigger] s[j]).id != handle && s[j].name != handle) ==> handled(
            s,
            handle,
        ) is None,
{
    lemma_by_id_first(s, handle, i);
    lemma_by_name_first(s, handle, i);
}

proof fn lemma_by_id_first(s: Seq<ProjectView>, id: Seq<char>, i: int)
    ensures
        0 <= i < s.len() && s[i].id == id && (forall|j: int|
            0 <= j < i ==> (#[trigger] s[j]).id != id) ==> by_id(s, id) == Some(s[i]),
        (forall|j: int| 0 <= j < s.len() ==> (#[trigger] s[j]).id != id) ==> by_id(s, id) is None,
    decreases s.len(),
{
    if s.len() > 0 {
        let t = s.skip(1);
        lemma_by_id_first(t, id, i - 1);
        assert forall|j: int| 0 <= j < t.len() implies #[trigger] t[j] == s[j + 1] by {}
        if i > 0 && i < s.len() {
            assert(t[i - 1] == s[i]);
        }
    }
}

proof fn lemma_by_name_first(s: Seq<ProjectView>, name: Seq<char>, i: int)
    ensures
        0 <= i < s.len() && s[i].name == name && (forall|j: int|
            0 <= j < i ==> (#[trigger] s[j]).name != name) ==> by_name(s, name) == Some(s[i]),
        (forall|j: int| 0 <= j < s.len() ==> (#[trigger] s[j]).name != name) ==> by_name(
            s,
            name,
        ) is None,
    decreases s.len(),
{
    if s.len() > 0 {
        let t = s.skip(1);
        lemma_by_name_first(t, name, i - 1);
        assert forall|j: int| 0 <= j < t.len() implies #[trigger] t[j] == s[j + 1] by {}
        if i > 0 && i < s.len() {
            assert(t[i - 1] == s[i]);
        }
    }
}

/// The hash that picks a color takes each unit of a key on by a factor of 31, in
/// 32 bits.
pub proof fn law_hash_goes_by_factors(a: Seq<nat>, x: nat, y: nat)
    requires
        x < 0x1_0000,
        y < 0x1_0000,
    ensures
        rolling(seq![x]) == x,
        rolling(seq![x, y]) == 31 * x + y,
        rolling(a.push(x)) < 0x1_0000_0000,
        rolling(a.push(0)) == (31 * rolling(a)) % 0x1_0000_0000,
{
    let one = seq![x];
    let two = seq![x, y];
    assert(one.drop_last() =~= Seq::<nat>::empty());
    assert(two.drop_last() =~= one);
    assert(rolling(Seq::<nat>::empty()) == 0);
    assert(rolling(one) == x);
    assert(a.push(x).drop_last() =~= a);
    assert(a.push(0).drop_last() =~= a);
}

/// The URL of a repository is that of its section of the origin, and of no
/// section behind it; where a configuration has no such section there is none.
pub proof fn law_origin_is_its_own_section(before: Seq<char>, s: Seq<char>, t: Seq<char>)
    requires
        !s.contains('['),
    ensures
        ({
            let cfg = before + ORIGIN@ + (s + seq!['['] + t);
            find_text(cfg, ORIGIN@) == Some(before.len() as int) ==> origin_url(cfg) == first_url(
                lines(s),
            ) && (origin_url(cfg) matches Some(u) ==> config_repo_name(Some(cfg)) == url_repo_name(
                u,
            ))
        }),
        find_text(before, ORIGIN@) is None ==> origin_url(before) is None && config_repo_name(
            Some(before),
        ) is None,
        config_repo_name(None) is None,
{
    let rest = s + seq!['['] + t;
    let cfg = before + ORIGIN@ + rest;
    assert(cfg.skip(before.len() as int + ORIGIN@.len() as int) =~= rest);
    law_section_ends_at_the_next(s, t);
}

} // verus!
