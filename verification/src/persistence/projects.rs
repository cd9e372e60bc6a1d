//! The projects that are remembered from panes entering their directories.
//!
//! Two spellings of one directory are one project. Which directory a path
//! really is, only the file system knows: each operation is handed what it
//! resolved a path to, where it did.

use crate::persistence::paths::{is_separator, str_opt};
use crate::platform::Platform;
use crate::text::{char_units, chars_of, equal_ignoring_case, find, find_char, find_chars, find_text,
    has_prefix, lemma_position, lemma_position_unique, lines, lines_of, lower_text, lowercased,
    opt_view, owned, position, same, same_ignoring_case, starts_with, string_of, trim, trim_start,
    trimmed, trimmed_start, utf16};
use vstd::prelude::*;
use vstd::string::*;

verus! {

/// A remembered project.
#[derive(Debug, Clone, PartialEq, Eq)]
pub struct Project {
    pub id: String,
    /// The directory.
    pub path: String,
    /// The title.
    pub name: String,
    /// The color of the frames of its panes.
    pub color: String,
    /// When it was last opened, in milliseconds since the epoch.
    pub last_opened_at: Option<u64>,
}

/// A remembered project.
#[verifier::ext_equal]
pub struct ProjectView {
    pub id: Seq<char>,
    pub path: Seq<char>,
    pub name: Seq<char>,
    pub color: Seq<char>,
    pub last_opened_at: Option<u64>,
}

impl View for Project {
    type V = ProjectView;

    open spec fn view(&self) -> ProjectView {
        ProjectView {
            id: self.id@,
            path: self.path@,
            name: self.name@,
            color: self.color@,
            last_opened_at: self.last_opened_at,
        }
    }
}

/// The colors that projects take.
pub const PROJECT_COLORS: [&'static str; 8] = [
    "#e5484d",
    "#f5a623",
    "#30a46c",
    "#3b82f6",
    "#a855f7",
    "#ec4899",
    "#14b8a6",
    "#eab308",
];

/// The projects of a list.
pub open spec fn project_views(v: Seq<Project>) -> Seq<ProjectView> {
    Seq::new(v.len(), |i: int| v[i]@)
}

/// A copy of a project.
pub fn copy_project(p: &Project) -> (r: Project)
    ensures
        r@ == p@,
{
    Project {
        id: p.id.clone(),
        path: p.path.clone(),
        name: p.name.clone(),
        color: p.color.clone(),
        last_opened_at: p.last_opened_at,
    }
}

// ---------------------------------------------------------------------------
// Paths
// ---------------------------------------------------------------------------

/// Whether a character is a slash of either kind.
pub open spec fn is_slash(c: char) -> bool {
    c == '/' || c == '\\'
}

/// A path without the slashes at its end.
pub open spec fn without_trailing_slashes(s: Seq<char>) -> Seq<char>
    decreases s.len(),
{
    if s.len() > 0 && is_slash(s.last()) {
        without_trailing_slashes(s.drop_last())
    } else {
        s
    }
}

fn cut_trailing_slashes(s: &[char]) -> (r: &[char])
    ensures
        r@ == without_trailing_slashes(s@),
{
    let mut n: usize = s.len();
    assert(s@.take(n as int) =~= s@);
    while n > 0 && (s[n - 1] == '/' || s[n - 1] == '\\')
        invariant
            n <= s@.len(),
            without_trailing_slashes(s@) == without_trailing_slashes(s@.take(n as int)),
        decreases n,
    {
        assert(s@.take(n as int).drop_last() =~= s@.take(n - 1));
        n = n - 1;
    }
    let r = vstd::slice::slice_subrange(s, 0, n);
    assert(r@ =~= s@.take(n as int));
    r
}

/// A path with backslashes for slashes and a drive in upper case.
pub open spec fn windows_form(s: Seq<char>) -> Seq<char> {
    let b = Seq::new(
        s.len(),
        |i: int|
            if s[i] == '/' {
                '\\'
            } else {
                s[i]
            },
    );
    if b.len() >= 2 && 'a' <= b[0] <= 'z' && b[1] == ':' {
        b.update(0, crate::text::ascii_upper(b[0]))
    } else {
        b
    }
}

/// The form in which a path is stored.
pub open spec fn canonical(p: Seq<char>, platform: Platform) -> Seq<char> {
    let s = without_trailing_slashes(p);
    if platform == Platform::Windows {
        windows_form(s)
    } else {
        s
    }
}

/// The form in which a path is stored: without slashes at its end, and on
/// Windows with backslashes and the drive in upper case.
pub fn canonical_path(p: &str, platform: Platform) -> (r: String)
    ensures
        r@ == canonical(p@, platform),
{
    let chars = chars_of(p);
    let s = cut_trailing_slashes(chars.as_slice());
    if platform != Platform::Windows {
        return string_of(s);
    }
    let mut out: Vec<char> = Vec::new();
    let mut i: usize = 0;
    while i < s.len()
        invariant
            i <= s@.len(),
            out@.len() == i,
            forall|j: int|
                0 <= j < i ==> #[trigger] out@[j] == (if s@[j] == '/' {
                    '\\'
                } else {
                    s@[j]
                }),
        decreases s.len() - i,
    {
        let c = s[i];
        out.push(
            if c == '/' {
                '\\'
            } else {
                c
            },
        );
        i = i + 1;
    }
    let ghost b = Seq::new(
        s@.len(),
        |i: int|
            if s@[i] == '/' {
                '\\'
            } else {
                s@[i]
            },
    );
    assert(out@ =~= b);
    if out.len() >= 2 && 'a' <= out[0] && out[0] <= 'z' && out[1] == ':' {
        let c = out[0];
        out.set(0, crate::text::to_upper(c));
    }
    string_of(out.as_slice())
}

proof fn lemma_slashes_cut(s: Seq<char>)
    ensures
        without_trailing_slashes(without_trailing_slashes(s)) == without_trailing_slashes(s),
        without_trailing_slashes(s).len() > 0 ==> !is_slash(without_trailing_slashes(s).last()),
    decreases s.len(),
{
    if s.len() > 0 && is_slash(s.last()) {
        lemma_slashes_cut(s.drop_last());
    }
}

/// The stored form of a stored form is itself.
pub proof fn law_canonical_path_is_stable(p: Seq<char>, platform: Platform)
    ensures
        canonical(canonical(p, platform), platform) == canonical(p, platform),
{
    let s = without_trailing_slashes(p);
    let c = canonical(p, platform);
    lemma_slashes_cut(p);
    if platform == Platform::Windows {
        if s.len() > 0 {
            assert(s.last() != '/' && s.last() != '\\');
            assert(c.len() == s.len());
            assert(c.last() == s.last() || c.last() == crate::text::ascii_upper(s.last()));
        }
        assert(without_trailing_slashes(c) =~= c);
        assert(windows_form(c) =~= c);
    }
}

/// The plain form of an extended-length path of Windows.
pub open spec fn plain_form(found: Seq<char>) -> Seq<char> {
    if has_prefix(found, "\\\\?\\"@) {
        let rest = found.skip("\\\\?\\"@.len() as int);
        if has_prefix(rest, "UNC\\"@) {
            "\\\\"@ + rest.skip("UNC\\"@.len() as int)
        } else {
            rest
        }
    } else {
        found
    }
}

fn strip_extended(found: &str) -> (r: String)
    ensures
        r@ == plain_form(found@),
{
    let chars = chars_of(found);
    let long = chars_of("\\\\?\\");
    let unc = chars_of("UNC\\");
    if !starts_with(chars.as_slice(), long.as_slice()) {
        return owned(found);
    }
    let rest = vstd::slice::slice_subrange(chars.as_slice(), long.len(), chars.len());
    assert(rest@ =~= found@.skip(long@.len() as int));
    if starts_with(rest, unc.as_slice()) {
        let share = vstd::slice::slice_subrange(rest, unc.len(), rest.len());
        assert(share@ =~= rest@.skip(unc@.len() as int));
        let mut out = owned("\\\\");
        out.append(string_of(share).as_str());
        out
    } else {
        string_of(rest)
    }
}

/// The stored form of the directory that a path really is: of what the file
/// system resolved it to, or of the path itself where it did not resolve.
pub open spec fn resolved(p: Seq<char>, found: Option<Seq<char>>, platform: Platform) -> Seq<char> {
    match found {
        Some(r) => canonical(plain_form(r), platform),
        None => canonical(p, platform),
    }
}

/// The stored form of the directory that a path really is. `found` is what the
/// file system resolved the path's stored form to.
pub fn resolved_path(p: &str, found: Option<&str>, platform: Platform) -> (r: String)
    ensures
        r@ == resolved(p@, str_opt(found), platform),
{
    match found {
        Some(r) => canonical_path(strip_extended(r).as_str(), platform),
        None => canonical_path(p, platform),
    }
}

/// The key by which directories are told apart: case does not count where the
/// file system ignores it.
pub open spec fn key_of(p: Seq<char>, found: Option<Seq<char>>, platform: Platform) -> Seq<char> {
    let c = resolved(p, found, platform);
    if platform == Platform::Linux {
        c
    } else {
        lower_text(c)
    }
}

/// The key by which directories are told apart. `found` is what the file system
/// resolved the path's stored form to.
pub fn path_key(p: &str, found: Option<&str>, platform: Platform) -> (r: String)
    ensures
        r@ == key_of(p@, str_opt(found), platform),
{
    let c = resolved_path(p, found, platform);
    if platform == Platform::Linux {
        c
    } else {
        lowercased(c.as_str())
    }
}

/// Paths that resolve to one directory have one key, however they are spelled.
pub proof fn law_aliases_share_a_key(
    a: Seq<char>,
    b: Seq<char>,
    found: Seq<char>,
    platform: Platform,
)
    ensures
        key_of(a, Some(found), platform) == key_of(b, Some(found), platform),
{
}

/// Slashes at the end of a path that does not resolve do not change its key.
pub proof fn law_trailing_slash_keeps_the_key(p: Seq<char>, platform: Platform)
    ensures
        key_of(p.push('/'), None, platform) == key_of(p, None, platform),
        key_of(p.push('\\'), None, platform) == key_of(p, None, platform),
{
    assert(p.push('/').drop_last() =~= p);
    assert(p.push('\\').drop_last() =~= p);
}

// ---------------------------------------------------------------------------
// Colors
// ---------------------------------------------------------------------------

/// The rolling hash of UTF-16 code units.
pub open spec fn rolling(units: Seq<nat>) -> nat
    decreases units.len(),
{
    if units.len() == 0 {
        0
    } else {
        (rolling(units.drop_last()) * 31 + units.last()) % 0x1_0000_0000
    }
}

/// The color that a key takes.
pub open spec fn color_of(key: Seq<char>) -> Seq<char> {
    PROJECT_COLORS@[(rolling(utf16(key)) % 8) as int]@
}

fn rolled(h: u32, unit: u32) -> (r: u32)
    ensures
        r == (h as nat * 31 + unit as nat) % 0x1_0000_0000,
{
    ((h as u64 * 31 + unit as u64) % 0x1_0000_0000) as u32
}

fn hash_char(h: u32, c: char) -> (r: u32)
    ensures
        forall|u: Seq<nat>| #[trigger] rolling(u) == h ==> rolling(u + char_units(c)) == r,
{
    let n: u32 = c as u32;
    if n >= 0x10000 {
        let hi: u32 = 0xD800 + (n - 0x10000) / 0x400;
        let lo: u32 = 0xDC00 + (n - 0x10000) % 0x400;
        let mid: u32 = rolled(h, hi);
        let r: u32 = rolled(mid, lo);
        assert forall|u: Seq<nat>| #[trigger] rolling(u) == h implies rolling(u + char_units(c))
            == r by {
            let t = u + char_units(c);
            assert(t.drop_last() =~= u.push(hi as nat));
            assert(t.last() == lo as nat);
            assert(u.push(hi as nat).drop_last() =~= u);
            assert(u.push(hi as nat).last() == hi as nat);
            assert(rolling(u.push(hi as nat)) == mid);
        }
        r
    } else {
        let r: u32 = rolled(h, n);
        assert forall|u: Seq<nat>| #[trigger] rolling(u) == h implies rolling(u + char_units(c))
            == r by {
            let t = u + char_units(c);
            assert(t.drop_last() =~= u);
            assert(t.last() == n as nat);
        }
        r
    }
}

/// The color that a key takes: always the same one.
pub fn color_for_key(key: &str) -> (r: String)
    ensures
        r@ == color_of(key@),
{
    let chars = chars_of(key);
    let mut h: u32 = 0;
    let mut i: usize = 0;
    assert(key@.take(0) =~= Seq::<char>::empty());
    while i < chars.len()
        invariant
            i <= chars@.len(),
            chars@ == key@,
            h == rolling(utf16(key@.take(i as int))),
        decreases chars.len() - i,
    {
        assert(key@.take(i + 1).drop_last() =~= key@.take(i as int));
        assert(key@.take(i + 1).last() == key@[i as int]);
        h = hash_char(h, chars[i]);
        i = i + 1;
    }
    assert(key@.take(i as int) =~= key@);
    let colors = PROJECT_COLORS;
    owned(colors[(h % 8) as usize])
}

/// The color of a project at a path.
pub fn color_for_path(p: &str, found: Option<&str>, platform: Platform) -> (r: String)
    ensures
        r@ == color_of(key_of(p@, str_opt(found), platform)),
{
    color_for_key(path_key(p, found, platform).as_str())
}

/// Every color is one of the palette.
pub proof fn law_color_is_in_palette(key: Seq<char>)
    ensures
        exists|i: int| 0 <= i < 8 && color_of(key) == (#[trigger] PROJECT_COLORS@[i])@,
{
    let i = (rolling(utf16(key)) % 8) as int;
    assert(color_of(key) == PROJECT_COLORS@[i]@);
}

// ---------------------------------------------------------------------------
// Names
// ---------------------------------------------------------------------------

/// Whether a character separates the parts of a remote URL.
pub open spec fn is_url_separator(c: char) -> bool {
    is_slash(c) || c == ':'
}

/// What follows the last separator.
pub open spec fn last_part(s: Seq<char>) -> Seq<char>
    decreases s.len(),
{
    if s.len() == 0 || is_url_separator(s.last()) {
        Seq::empty()
    } else {
        last_part(s.drop_last()).push(s.last())
    }
}

/// The last part that is not empty.
pub open spec fn last_segment(s: Seq<char>) -> Option<Seq<char>>
    decreases s.len(),
{
    if s.len() == 0 {
        None
    } else if is_url_separator(s.last()) {
        last_segment(s.drop_last())
    } else {
        Some(last_part(s))
    }
}

/// A URL without the suffix `.git`, in any case.
pub open spec fn without_git_suffix(s: Seq<char>) -> Seq<char> {
    if s.len() >= 4 && same_ignoring_case(s.skip(s.len() - 4), ".git"@) {
        s.take(s.len() - 4)
    } else {
        s
    }
}

/// The name of the repository of a remote URL.
pub open spec fn url_repo_name(url: Seq<char>) -> Option<Seq<char>> {
    last_segment(without_trailing_slashes(without_git_suffix(trim(url))))
}

fn url_separator(c: char) -> (r: bool)
    ensures
        r == is_url_separator(c),
{
    c == '/' || c == '\\' || c == ':'
}

fn find_last_segment(s: &[char]) -> (r: Option<String>)
    ensures
        opt_view(r) == last_segment(s@),
{
    let mut n: usize = s.len();
    assert(s@.take(n as int) =~= s@);
    while n > 0 && url_separator(s[n - 1])
        invariant
            n <= s@.len(),
            last_segment(s@) == last_segment(s@.take(n as int)),
        decreases n,
    {
        assert(s@.take(n as int).drop_last() =~= s@.take(n - 1));
        n = n - 1;
    }
    if n == 0 {
        return None;
    }
    let ghost t = s@.take(n as int);
    let mut i: usize = n;
    assert(t.skip(n as int) =~= Seq::<char>::empty());
    assert(last_part(t) + t.skip(n as int) =~= last_part(t));
    assert(t.take(n as int) =~= t);
    while i > 0 && !url_separator(s[i - 1])
        invariant
            i <= n <= s@.len(),
            t == s@.take(n as int),
            last_part(t) == last_part(t.take(i as int)) + t.skip(i as int),
        decreases i,
    {
        assert(t.take(i as int).drop_last() =~= t.take(i - 1));
        assert(last_part(t.take(i as int)) + t.skip(i as int) =~= last_part(t.take(i - 1))
            + t.skip(i - 1));
        i = i - 1;
    }
    proof {
        assert(i > 0 ==> t.take(i as int).last() == s@[i - 1]);
        assert(last_part(t.take(i as int)) =~= Seq::<char>::empty());
        assert(last_part(t) =~= t.skip(i as int));
    }
    let part = vstd::slice::slice_subrange(s, i, n);
    assert(part@ =~= t.skip(i as int));
    Some(string_of(part))
}

/// The name of the repository of a remote URL, whatever its host:
/// `my-repo` of `git@github.com:owner/my-repo.git`.
pub fn repo_name_from_url(url: &str) -> (r: Option<String>)
    ensures
        opt_view(r) == url_repo_name(url@),
{
    let chars = chars_of(url);
    let t = trimmed(chars.as_slice());
    let suffix = chars_of(".git");
    proof {
        reveal_strlit(".git");
    }
    let u = if t.len() >= 4 && equal_ignoring_case(
        vstd::slice::slice_subrange(t, t.len() - 4, t.len()),
        suffix.as_slice(),
    ) {
        vstd::slice::slice_subrange(t, 0, t.len() - 4)
    } else {
        t
    };
    proof {
        if t@.len() >= 4 {
            assert(t@.subrange(t@.len() - 4, t@.len() as int) =~= t@.skip(t@.len() - 4));
            assert(t@.subrange(0, t@.len() - 4) =~= t@.take(t@.len() - 4));
        }
        assert(u@ =~= without_git_suffix(t@));
    }
    find_last_segment(cut_trailing_slashes(u))
}

/// The header of the section that names the origin.
pub const ORIGIN: &'static str = "[remote \"origin\"]";

/// The value of a line `url = value`.
pub open spec fn url_line(line: Seq<char>) -> Option<Seq<char>> {
    let t = trim_start(line);
    if has_prefix(t, "url"@) {
        let rest = trim_start(t.skip("url"@.len() as int));
        if rest.len() > 0 && rest[0] == '=' {
            Some(trim(rest.skip(1)))
        } else {
            None
        }
    } else {
        None
    }
}

/// The value of the first line that has one.
pub open spec fn first_url(ls: Seq<Seq<char>>) -> Option<Seq<char>>
    decreases ls.len(),
{
    if ls.len() == 0 {
        None
    } else {
        match url_line(ls[0]) {
            Some(u) => Some(u),
            None => first_url(ls.skip(1)),
        }
    }
}

/// The text up to the next section.
pub open spec fn section_text(s: Seq<char>) -> Seq<char> {
    s.take(find(s, '['))
}

/// The URL of the origin in a repository's configuration.
pub open spec fn origin_url(cfg: Seq<char>) -> Option<Seq<char>> {
    match find_text(cfg, ORIGIN@) {
        Some(k) => first_url(lines(section_text(cfg.skip(k + ORIGIN@.len())))),
        None => None,
    }
}

fn parse_url_line(line: &[char]) -> (r: Option<String>)
    ensures
        opt_view(r) == url_line(line@),
{
    let t = trimmed_start(line);
    let key = chars_of("url");
    if !starts_with(t, key.as_slice()) {
        return None;
    }
    let after = vstd::slice::slice_subrange(t, key.len(), t.len());
    assert(after@ =~= t@.skip(key@.len() as int));
    let rest = trimmed_start(after);
    if rest.len() == 0 || rest[0] != '=' {
        return None;
    }
    let value = vstd::slice::slice_subrange(rest, 1, rest.len());
    assert(value@ =~= rest@.skip(1));
    Some(string_of(trimmed(value)))
}

/// The URL of the origin in a repository's configuration: the `url` of the
/// section `[remote "origin"]`.
pub fn parse_origin_url(cfg: &str) -> (r: Option<String>)
    ensures
        opt_view(r) == origin_url(cfg@),
{
    let chars = chars_of(cfg);
    let header = chars_of(ORIGIN);
    let n: usize = chars.len();
    let k: usize = match find_chars(chars.as_slice(), header.as_slice()) {
        Some(k) => k,
        None => {
            return None;
        },
    };
    let after = vstd::slice::slice_subrange(chars.as_slice(), k + header.len(), n);
    assert(after@ =~= cfg@.skip(k + ORIGIN@.len()));
    let end: usize = find_char(after, '[');
    let section = vstd::slice::slice_subrange(after, 0, end);
    assert(section@ =~= section_text(after@));
    let ls = lines_of(section);
    let ghost all = lines(section@);
    let mut i: usize = 0;
    assert(all.skip(0) =~= all);
    while i < ls.len()
        invariant
            i <= ls@.len(),
            ls@.len() == all.len(),
            forall|j: int| 0 <= j < ls@.len() ==> (#[trigger] ls@[j])@ == all[j],
            first_url(all) == first_url(all.skip(i as int)),
            first_url(all) == origin_url(cfg@),
        decreases ls.len() - i,
    {
        assert(all.skip(i as int)[0] == all[i as int]);
        assert(all.skip(i as int).skip(1) =~= all.skip(i + 1));
        if let Some(u) = parse_url_line(ls[i].as_slice()) {
            return Some(u);
        }
        i = i + 1;
    }
    None
}

/// The name of a repository by the URL of its origin.
pub open spec fn config_repo_name(cfg: Option<Seq<char>>) -> Option<Seq<char>> {
    match cfg {
        Some(c) => match origin_url(c) {
            Some(u) => url_repo_name(u),
            None => None,
        },
        None => None,
    }
}

/// The name of a repository by the URL of its origin. `cfg` is the text of its
/// configuration, where it has a plain one.
pub fn git_repo_name(cfg: Option<&str>) -> (r: Option<String>)
    ensures
        opt_view(r) == config_repo_name(str_opt(cfg)),
{
    match cfg {
        Some(c) => match parse_origin_url(c) {
            Some(u) => repo_name_from_url(u.as_str()),
            None => None,
        },
        None => None,
    }
}

/// The part of a path that the drive or the share of Windows leaves.
pub open spec fn after_prefix(p: Seq<char>, platform: Platform) -> Seq<char> {
    if platform != Platform::Windows {
        p
    } else if p.len() >= 2 && is_slash(p[0]) && is_slash(p[1]) {
        p.skip(2).skip(part_end(p.skip(2))).skip(
            part_end_after(p.skip(2).skip(part_end(p.skip(2)))),
        )
    } else if p.len() >= 2 && crate::text::is_ascii_letter(p[0]) && p[1] == ':' {
        p.skip(2)
    } else {
        p
    }
}

/// How far the first part of a path reaches.
pub open spec fn part_end(s: Seq<char>) -> int
    decreases s.len(),
{
    if s.len() == 0 || is_slash(s[0]) {
        0
    } else {
        1 + part_end(s.skip(1))
    }
}

/// How far a slash and the part behind it reach.
pub open spec fn part_end_after(s: Seq<char>) -> int {
    if s.len() == 0 {
        0
    } else {
        1 + part_end(s.skip(1))
    }
}

/// What follows the last separator of a path.
pub open spec fn tail_part(s: Seq<char>, platform: Platform) -> Seq<char>
    decreases s.len(),
{
    if s.len() == 0 || is_separator(s.last(), platform) {
        Seq::empty()
    } else {
        tail_part(s.drop_last(), platform).push(s.last())
    }
}

/// The last component of a path; nothing where it ends in `..` or has none.
/// Separators and `.` at the end do not count.
pub open spec fn last_component(s: Seq<char>, platform: Platform) -> Seq<char>
    decreases s.len(),
{
    if s.len() == 0 {
        Seq::empty()
    } else if is_separator(s.last(), platform) {
        last_component(s.drop_last(), platform)
    } else {
        let c = tail_part(s, platform);
        if c == "."@ {
            last_component(s.drop_last(), platform)
        } else if c == ".."@ {
            Seq::empty()
        } else {
            c
        }
    }
}

/// The title that a path gives.
pub open spec fn base_name(p: Seq<char>, platform: Platform) -> Seq<char> {
    last_component(after_prefix(p, platform), platform)
}

fn find_part_end(s: &[char]) -> (r: usize)
    ensures
        r == part_end(s@),
        r <= s@.len(),
{
    let mut i: usize = 0;
    assert(s@.skip(0) =~= s@);
    while i < s.len() && !(s[i] == '/' || s[i] == '\\')
        invariant
            i <= s@.len(),
            part_end(s@) == i + part_end(s@.skip(i as int)),
        decreases s.len() - i,
    {
        assert(s@.skip(i as int).skip(1) =~= s@.skip(i + 1));
        i = i + 1;
    }
    i
}

fn skip_prefix(p: &[char], platform: Platform) -> (r: &[char])
    ensures
        r@ == after_prefix(p@, platform),
{
    if platform != Platform::Windows || p.len() < 2 {
        return p;
    }
    if (p[0] == '/' || p[0] == '\\') && (p[1] == '/' || p[1] == '\\') {
        let a = vstd::slice::slice_subrange(p, 2, p.len());
        assert(a@ =~= p@.skip(2));
        let server: usize = find_part_end(a);
        let b = vstd::slice::slice_subrange(a, server, a.len());
        assert(b@ =~= a@.skip(server as int));
        if b.len() == 0 {
            assert(b@.skip(0) =~= b@);
            return b;
        }
        let c = vstd::slice::slice_subrange(b, 1, b.len());
        assert(c@ =~= b@.skip(1));
        let share: usize = find_part_end(c);
        let d = vstd::slice::slice_subrange(b, 1 + share, b.len());
        assert(d@ =~= b@.skip(1 + share));
        return d;
    }
    if (('a' <= p[0] && p[0] <= 'z') || ('A' <= p[0] && p[0] <= 'Z')) && p[1] == ':' {
        let a = vstd::slice::slice_subrange(p, 2, p.len());
        assert(a@ =~= p@.skip(2));
        return a;
    }
    p
}

fn path_separator(c: char, platform: Platform) -> (r: bool)
    ensures
        r == is_separator(c, platform),
{
    c == '/' || (platform == Platform::Windows && c == '\\')
}

fn find_tail_part(s: &[char], platform: Platform) -> (r: &[char])
    ensures
        r@ == tail_part(s@, platform),
{
    let mut i: usize = s.len();
    assert(s@.take(i as int) =~= s@);
    assert(tail_part(s@, platform) + s@.skip(i as int) =~= tail_part(s@, platform));
    while i > 0 && !path_separator(s[i - 1], platform)
        invariant
            i <= s@.len(),
            tail_part(s@, platform) == tail_part(s@.take(i as int), platform) + s@.skip(i as int),
        decreases i,
    {
        assert(s@.take(i as int).drop_last() =~= s@.take(i - 1));
        assert(tail_part(s@.take(i as int), platform) + s@.skip(i as int) =~= tail_part(
            s@.take(i - 1),
            platform,
        ) + s@.skip(i - 1));
        i = i - 1;
    }
    proof {
        assert(i > 0 ==> s@.take(i as int).last() == s@[i - 1]);
        assert(tail_part(s@.take(i as int), platform) =~= Seq::<char>::empty());
        assert(tail_part(s@, platform) =~= s@.skip(i as int));
    }
    let r = vstd::slice::slice_subrange(s, i, s.len());
    assert(r@ =~= s@.skip(i as int));
    r
}

/// The title that a path gives: its last component, or nothing where it has
/// none.
pub fn basename(p: &str, platform: Platform) -> (r: String)
    ensures
        r@ == base_name(p@, platform),
{
    let chars = chars_of(p);
    let s = skip_prefix(chars.as_slice(), platform);
    let mut n: usize = s.len();
    assert(s@.take(n as int) =~= s@);
    while n > 0
        invariant
            n <= s@.len(),
            base_name(p@, platform) == last_component(s@.take(n as int), platform),
        decreases n,
    {
        let ghost t = s@.take(n as int);
        assert(t.drop_last() =~= s@.take(n - 1));
        let head = vstd::slice::slice_subrange(s, 0, n);
        assert(head@ =~= t);
        if !path_separator(s[n - 1], platform) {
            let c = string_of(find_tail_part(head, platform));
            proof {
                reveal_strlit(".");
                reveal_strlit("..");
                assert("."@.len() != ".."@.len());
                assert(t.last() == s@[n - 1]);
            }
            if same(c.as_str(), "..") {
                return String::new();
            }
            if !same(c.as_str(), ".") {
                return c;
            }
        }
        n = n - 1;
    }
    String::new()
}

// ---------------------------------------------------------------------------
// The list
// ---------------------------------------------------------------------------

/// A project and the key of its directory.
pub type Entry = (Seq<char>, ProjectView);

/// The keys of entries.
pub open spec fn entry_keys(s: Seq<Entry>) -> Seq<Seq<char>> {
    Seq::new(s.len(), |i: int| s[i].0)
}

/// The projects of entries.
pub open spec fn entry_projects(s: Seq<Entry>) -> Seq<ProjectView> {
    Seq::new(s.len(), |i: int| s[i].1)
}

/// The place of a key among entries: their number, where it is not there.
pub open spec fn key_index(s: Seq<Entry>, key: Seq<char>) -> int {
    position(entry_keys(s), key)
}

/// Whether no two entries have one key.
pub open spec fn distinct_keys(s: Seq<Entry>) -> bool {
    forall|i: int, j: int| 0 <= i < j < s.len() ==> (#[trigger] s[i]).0 != (#[trigger] s[j]).0
}

/// When a project was last opened; 0 where it is not known.
pub open spec fn opened(p: ProjectView) -> u64 {
    match p.last_opened_at {
        Some(t) => t,
        None => 0,
    }
}

/// Entries with one more project: of two of one directory the one opened later
/// is kept, at the place of the first, and of two opened at one time the second.
pub open spec fn absorbed(s: Seq<Entry>, key: Seq<char>, p: ProjectView) -> Seq<Entry> {
    let i = key_index(s, key);
    if i >= s.len() {
        s.push((key, p))
    } else if opened(s[i].1) > opened(p) {
        s
    } else {
        s.update(i, (key, p))
    }
}

/// A project with its path in stored form.
pub open spec fn with_stored_path(p: ProjectView, platform: Platform) -> ProjectView {
    ProjectView { path: canonical(p.path, platform), ..p }
}

/// The entries of the first `n` projects of a file, whose keys are `keys`.
pub open spec fn deduped(
    ps: Seq<ProjectView>,
    keys: Seq<Seq<char>>,
    platform: Platform,
    n: nat,
) -> Seq<Entry>
    decreases n,
{
    if n == 0 {
        Seq::empty()
    } else {
        absorbed(
            deduped(ps, keys, platform, (n - 1) as nat),
            keys[n - 1],
            with_stored_path(ps[n - 1], platform),
        )
    }
}

/// The keys of projects, by what the file system resolved their paths to.
pub open spec fn keys_for(
    ps: Seq<ProjectView>,
    founds: Seq<Option<Seq<char>>>,
    platform: Platform,
) -> Seq<Seq<char>> {
    Seq::new(ps.len(), |i: int| key_of(ps[i].path, founds[i], platform))
}

/// Where a key is.
pub proof fn lemma_key_index(s: Seq<Entry>, key: Seq<char>)
    ensures
        0 <= key_index(s, key) <= s.len(),
        key_index(s, key) < s.len() ==> s[key_index(s, key)].0 == key,
        forall|i: int| 0 <= i < key_index(s, key) ==> (#[trigger] s[i]).0 != key,
{
    let ks = entry_keys(s);
    lemma_position(ks, key);
    assert forall|i: int| 0 <= i < key_index(s, key) implies (#[trigger] s[i]).0 != key by {
        assert(ks[i] == s[i].0);
    }
}

/// Absorbing a project keeps the keys apart, loses no directory, and never
/// makes the project of a directory an older one.
pub proof fn law_absorbing_keeps_the_newest(
    s: Seq<Entry>,
    key: Seq<char>,
    p: ProjectView,
    i: int,
)
    requires
        distinct_keys(s),
    ensures
        distinct_keys(absorbed(s, key, p)),
        ({
            let t = absorbed(s, key, p);
            let k = key_index(t, key);
            k < t.len() && opened(t[k].1) >= opened(p)
        }),
        0 <= i < s.len() ==> ({
            let t = absorbed(s, key, p);
            s.len() <= t.len() && t[i].0 == s[i].0 && opened(t[i].1) >= opened(s[i].1)
        }),
{
    let t = absorbed(s, key, p);
    lemma_key_index(s, key);
    lemma_key_index(t, key);
    assert forall|a: int, b: int| 0 <= a < b < t.len() implies (#[trigger] t[a]).0 != (
    #[trigger] t[b]).0 by {
        if b < s.len() {
            assert(t[a].0 == s[a].0);
            assert(t[b].0 == s[b].0);
        } else {
            assert(t[a] == s[a]);
            assert(s[a].0 != key);
        }
    }
    let j = key_index(s, key);
    if j >= s.len() {
        assert(t[s.len() as int].0 == key);
    } else {
        assert(t[j].0 == key);
    }
    let k = key_index(t, key);
    let m = if j >= s.len() {
        s.len() as int
    } else {
        j
    };
    assert(t[m].0 == key);
    if k < m {
        assert(t[k].0 == s[k].0);
    } else if k > m {
        assert(t[m].0 != key);
    }
}

proof fn lemma_deduped_distinct(
    ps: Seq<ProjectView>,
    keys: Seq<Seq<char>>,
    platform: Platform,
    n: nat,
)
    requires
        n <= ps.len(),
    ensures
        distinct_keys(deduped(ps, keys, platform, n)),
    decreases n,
{
    if n > 0 {
        lemma_deduped_distinct(ps, keys, platform, (n - 1) as nat);
        law_absorbing_keeps_the_newest(
            deduped(ps, keys, platform, (n - 1) as nat),
            keys[n - 1],
            with_stored_path(ps[n - 1], platform),
            0,
        );
    }
}

/// Of all projects of one directory in a file, none was opened later than the
/// one that is kept.
pub proof fn law_loading_keeps_the_newest(
    ps: Seq<ProjectView>,
    keys: Seq<Seq<char>>,
    platform: Platform,
    n: nat,
    i: int,
)
    requires
        0 <= i < n <= ps.len(),
    ensures
        distinct_keys(deduped(ps, keys, platform, n)),
        ({
            let s = deduped(ps, keys, platform, n);
            let k = key_index(s, keys[i]);
            0 <= k < s.len() && s[k].0 == keys[i] && opened(s[k].1) >= opened(ps[i])
        }),
    decreases n,
{
    let before = deduped(ps, keys, platform, (n - 1) as nat);
    let s = deduped(ps, keys, platform, n);
    let p = with_stored_path(ps[n - 1], platform);
    lemma_deduped_distinct(ps, keys, platform, n);
    lemma_deduped_distinct(ps, keys, platform, (n - 1) as nat);
    lemma_key_index(s, keys[i]);
    if i == n - 1 {
        law_absorbing_keeps_the_newest(before, keys[n - 1], p, 0);
    } else {
        law_loading_keeps_the_newest(ps, keys, platform, (n - 1) as nat, i);
        let j = key_index(before, keys[i]);
        law_absorbing_keeps_the_newest(before, keys[n - 1], p, j);
        let k = key_index(s, keys[i]);
        assert(s[j].0 == keys[i]);
        if k > j {
            assert(s[j].0 != keys[i]);
        } else if k < j {
            assert(s[k].0 != s[j].0);
        }
    }
}

/// A directory to remember: its path in stored form, and its key.
pub struct Place {
    pub path: String,
    pub key: String,
}

/// The place of a git root, whose path is stored as what it really is.
/// `found_root` and `found_path` are what the file system resolved the root's
/// stored form and the resulting path to.
pub fn place_of_root(
    root: &str,
    found_root: Option<&str>,
    found_path: Option<&str>,
    platform: Platform,
) -> (r: Place)
    ensures
        r.path@ == resolved(root@, str_opt(found_root), platform),
        r.key@ == key_of(r.path@, str_opt(found_path), platform),
{
    let path = resolved_path(root, found_root, platform);
    let key = path_key(path.as_str(), found_path, platform);
    Place { path, key }
}

/// The place of a directory that was named, whose path is stored as it was
/// named.
pub fn place_of_dir(dir: &str, found: Option<&str>, platform: Platform) -> (r: Place)
    ensures
        r.path@ == canonical(dir@, platform),
        r.key@ == key_of(r.path@, str_opt(found), platform),
{
    let path = canonical_path(dir, platform);
    let key = path_key(path.as_str(), found, platform);
    Place { path, key }
}

/// The title of a new project: the repository's name, else the last component
/// of the path, else the path.
pub open spec fn new_title(path: Seq<char>, repo: Option<Seq<char>>, platform: Platform) -> Seq<
    char,
> {
    match repo {
        Some(r) => r,
        None => if base_name(path, platform).len() == 0 {
            path
        } else {
            base_name(path, platform)
        },
    }
}

/// A project that is remembered for the first time.
pub open spec fn new_project(
    id: Seq<char>,
    path: Seq<char>,
    key: Seq<char>,
    repo: Option<Seq<char>>,
    now: u64,
    platform: Platform,
) -> ProjectView {
    ProjectView {
        id,
        path,
        name: new_title(path, repo, platform),
        color: color_of(key),
        last_opened_at: Some(now),
    }
}

/// A project that was entered again: opened now, its path the one it really
/// has. A title that is the directory's name gives way to the repository's
/// name; any other title stays.
pub open spec fn reopened(
    p: ProjectView,
    path: Seq<char>,
    repo: Option<Seq<char>>,
    now: u64,
    platform: Platform,
) -> ProjectView {
    ProjectView {
        path,
        last_opened_at: Some(now),
        name: match repo {
            Some(r) => if p.name == base_name(path, platform) {
                r
            } else {
                p.name
            },
            None => p.name,
        },
        ..p
    }
}

/// Entries after a directory was entered.
pub open spec fn entered(
    s: Seq<Entry>,
    path: Seq<char>,
    key: Seq<char>,
    repo: Option<Seq<char>>,
    now: u64,
    id: Seq<char>,
    platform: Platform,
) -> Seq<Entry> {
    let i = key_index(s, key);
    if i < s.len() {
        s.update(i, (key, reopened(s[i].1, path, repo, now, platform)))
    } else {
        s.push((key, new_project(id, path, key, repo, now, platform)))
    }
}

/// Entering a directory keeps the keys apart, leaves every other project alone
/// and leaves one project of that directory, opened now.
pub proof fn law_entering_leaves_one_project(
    s: Seq<Entry>,
    path: Seq<char>,
    key: Seq<char>,
    repo: Option<Seq<char>>,
    now: u64,
    id: Seq<char>,
    platform: Platform,
)
    requires
        distinct_keys(s),
    ensures
        ({
            let t = entered(s, path, key, repo, now, id, platform);
            let k = key_index(t, key);
            &&& distinct_keys(t)
            &&& k < t.len()
            &&& t[k].1.last_opened_at == Some(now)
            &&& t[k].1.path == path
            &&& key_index(s, key) < s.len() ==> t.len() == s.len() && t[k].1.id == s[key_index(
                s,
                key,
            )].1.id && t[k].1.color == s[key_index(s, key)].1.color
            &&& forall|i: int|
                0 <= i < s.len() && (#[trigger] s[i]).0 != key ==> i < t.len() && t[i] == s[i]
        }),
{
    let t = entered(s, path, key, repo, now, id, platform);
    let j = key_index(s, key);
    lemma_key_index(s, key);
    lemma_key_index(t, key);
    let m = if j >= s.len() {
        s.len() as int
    } else {
        j
    };
    assert(t[m].0 == key);
    assert forall|a: int, b: int| 0 <= a < b < t.len() implies (#[trigger] t[a]).0 != (
    #[trigger] t[b]).0 by {
        if b < s.len() {
            assert(t[a].0 == s[a].0);
            assert(t[b].0 == s[b].0);
        } else {
            assert(t[a] == s[a]);
            assert(s[a].0 != key);
        }
    }
    let k = key_index(t, key);
    if k < m {
        assert(t[k].0 != t[m].0);
    } else if k > m {
        assert(t[m].0 != key);
    }
}

/// A title that the user chose is not replaced by the repository's name.
pub proof fn law_user_title_is_kept(
    p: ProjectView,
    path: Seq<char>,
    repo: Option<Seq<char>>,
    now: u64,
    platform: Platform,
)
    requires
        p.name != base_name(path, platform),
    ensures
        reopened(p, path, repo, now, platform).name == p.name,
{
}

/// Entries after a directory was added by name: one that is known is left as it
/// is.
pub open spec fn added(
    s: Seq<Entry>,
    path: Seq<char>,
    key: Seq<char>,
    repo: Option<Seq<char>>,
    now: u64,
    id: Seq<char>,
    platform: Platform,
) -> Seq<Entry> {
    if key_index(s, key) < s.len() {
        s
    } else {
        s.push((key, new_project(id, path, key, repo, now, platform)))
    }
}

/// Adding a directory twice is adding it once.
pub proof fn law_adding_twice_is_adding_once(
    s: Seq<Entry>,
    path: Seq<char>,
    key: Seq<char>,
    repo: Option<Seq<char>>,
    now: u64,
    later: u64,
    id: Seq<char>,
    other: Seq<char>,
    platform: Platform,
)
    ensures
        added(added(s, path, key, repo, now, id, platform), path, key, repo, later, other, platform)
            == added(s, path, key, repo, now, id, platform),
{
    let t = added(s, path, key, repo, now, id, platform);
    lemma_key_index(s, key);
    lemma_key_index(t, key);
    if key_index(s, key) >= s.len() {
        assert(t[s.len() as int].0 == key);
    }
}

/// Whether a string is a version 4 UUID in its usual form: 32 lowercase
/// hexadecimal digits in five groups, the version and the variant in place.
pub open spec fn is_uuid(s: Seq<char>) -> bool {
    &&& s.len() == 36
    &&& forall|i: int|
        0 <= i < 36 ==> (if i == 8 || i == 13 || i == 18 || i == 23 {
            #[trigger] s[i] == '-'
        } else {
            '0' <= s[i] <= '9' || 'a' <= s[i] <= 'f'
        })
    &&& s[14] == '4'
    &&& s[19] == '8' || s[19] == '9' || s[19] == 'a' || s[19] == 'b'
}

/// A fresh id, with `uuid::Uuid::new_v4` and its `to_string`. The digits are
/// random but for the version and the variant; that no id comes twice is likely
/// and not stated.
#[verifier::external_body]
fn fresh_id() -> (r: String)
    ensures
        is_uuid(r@),
{
    uuid::Uuid::new_v4().to_string()
}

/// The remembered projects, each with the key of its directory.
pub struct ProjectList {
    projects: Vec<Project>,
    keys: Vec<String>,
}

/// The view of what paths resolved to.
pub open spec fn found_views(v: Seq<Option<String>>) -> Seq<Option<Seq<char>>> {
    Seq::new(v.len(), |i: int| opt_view(v[i]))
}

fn borrow_found(o: &Option<String>) -> (r: Option<&str>)
    ensures
        str_opt(r) == opt_view(*o),
{
    match o {
        Some(s) => Some(s.as_str()),
        None => None,
    }
}

/// When a project was last opened; 0 where it is not known.
fn opened_at(p: &Project) -> (r: u64)
    ensures
        r == opened(p@),
{
    match p.last_opened_at {
        Some(t) => t,
        None => 0,
    }
}

fn title_for(path: &str, repo: Option<&str>, platform: Platform) -> (r: String)
    ensures
        r@ == new_title(path@, str_opt(repo), platform),
{
    match repo {
        Some(r) => owned(r),
        None => {
            let base = basename(path, platform);
            if base.as_str().is_empty() {
                owned(path)
            } else {
                base
            }
        },
    }
}

impl ProjectList {
    /// The entries.
    pub closed spec fn entries(self) -> Seq<Entry> {
        Seq::new(self.projects@.len(), |i: int| (self.keys@[i]@, self.projects@[i]@))
    }

    /// Every project has a key, and no two have one.
    pub closed spec fn wf(self) -> bool {
        self.projects@.len() == self.keys@.len() && distinct_keys(self.entries())
    }

    /// A list of nothing.
    pub fn new() -> (r: ProjectList)
        ensures
            r.wf(),
            r.entries() == Seq::<Entry>::empty(),
    {
        let r = ProjectList { projects: Vec::new(), keys: Vec::new() };
        assert(r.entries() =~= Seq::<Entry>::empty());
        r
    }

    fn find_key(&self, key: &str) -> (r: usize)
        requires
            self.wf(),
        ensures
            r == key_index(self.entries(), key@),
            r <= self.projects@.len(),
    {
        let ghost s = self.entries();
        let mut i: usize = 0;
        while i < self.keys.len()
            invariant
                i <= self.keys@.len(),
                self.keys@.len() == self.projects@.len(),
                s == self.entries(),
                forall|j: int| 0 <= j < i ==> (#[trigger] s[j]).0 != key@,
            decreases self.keys.len() - i,
        {
            assert(s[i as int].0 == self.keys@[i as int]@);
            if same(self.keys[i].as_str(), key) {
                proof {
                    assert forall|j: int| 0 <= j < i implies entry_keys(s)[j] != key@ by {
                        assert(s[j].0 != key@);
                    }
                    lemma_position_unique(entry_keys(s), key@, i as int);
                }
                return i;
            }
            i = i + 1;
        }
        proof {
            lemma_key_index(s, key@);
        }
        i
    }

    fn absorb(&mut self, key: &str, p: Project)
        requires
            old(self).wf(),
        ensures
            final(self).wf(),
            final(self).entries() == absorbed(old(self).entries(), key@, p@),
    {
        let ghost s = self.entries();
        proof {
            law_absorbing_keeps_the_newest(s, key@, p@, 0);
        }
        let i: usize = self.find_key(key);
        if i == self.projects.len() {
            self.projects.push(p);
            self.keys.push(owned(key));
            assert(self.entries() =~= absorbed(s, key@, p@));
        } else if opened_at(&self.projects[i]) <= opened_at(&p) {
            assert(s[i as int].1 == self.projects@[i as int]@);
            assert(s[i as int].0 == key@) by {
                lemma_key_index(s, key@);
            }
            let ghost view = p@;
            self.projects.set(i, p);
            assert(self.entries() =~= s.update(i as int, (key@, view)));
        } else {
            assert(s[i as int].1 == self.projects@[i as int]@);
        }
    }

    /// The list of the projects of a file. `founds` holds, for each, what the
    /// file system resolved its path's stored form to. Also says whether
    /// projects of one directory were merged, so that the file is out of date.
    pub fn load(list: Vec<Project>, founds: &Vec<Option<String>>, platform: Platform) -> (r: (
        ProjectList,
        bool,
    ))
        requires
            founds@.len() == list@.len(),
        ensures
            r.0.wf(),
            r.0.entries() == deduped(
                project_views(list@),
                keys_for(project_views(list@), found_views(founds@), platform),
                platform,
                list@.len(),
            ),
            r.1 == (r.0.entries().len() != list@.len()),
    {
        let ghost ps = project_views(list@);
        let ghost keys = keys_for(ps, found_views(founds@), platform);
        let mut out = ProjectList::new();
        let mut i: usize = 0;
        while i < list.len()
            invariant
                i <= list@.len(),
                founds@.len() == list@.len(),
                ps == project_views(list@),
                keys == keys_for(ps, found_views(founds@), platform),
                out.wf(),
                out.entries() == deduped(ps, keys, platform, i as nat),
            decreases list.len() - i,
        {
            let p = &list[i];
            let key = path_key(p.path.as_str(), borrow_found(&founds[i]), platform);
            assert(keys[i as int] == key@);
            let mut stored = copy_project(p);
            stored.path = canonical_path(p.path.as_str(), platform);
            assert(stored@ =~= with_stored_path(ps[i as int], platform));
            out.absorb(key.as_str(), stored);
            i = i + 1;
        }
        let merged = out.projects.len() != list.len();
        (out, merged)
    }

    /// The projects, in the order of the list.
    pub fn projects(&self) -> (r: &Vec<Project>)
        requires
            self.wf(),
        ensures
            project_views(r@) == entry_projects(self.entries()),
    {
        assert(project_views(self.projects@) =~= entry_projects(self.entries()));
        &self.projects
    }

    /// Remembers a git root, or that it was entered again, with `id` as the id
    /// of a new project. Returns the project.
    pub fn upsert_with_id(
        &mut self,
        place: &Place,
        repo: Option<&str>,
        now_ms: u64,
        id: &str,
        platform: Platform,
    ) -> (r: Project)
        requires
            old(self).wf(),
        ensures
            final(self).wf(),
            final(self).entries() == entered(
                old(self).entries(),
                place.path@,
                place.key@,
                str_opt(repo),
                now_ms,
                id@,
                platform,
            ),
            key_index(final(self).entries(), place.key@) < final(self).entries().len(),
            r@ == final(self).entries()[key_index(final(self).entries(), place.key@)].1,
    {
        let ghost s = self.entries();
        let ghost t = entered(s, place.path@, place.key@, str_opt(repo), now_ms, id@, platform);
        proof {
            law_entering_leaves_one_project(
                s,
                place.path@,
                place.key@,
                str_opt(repo),
                now_ms,
                id@,
                platform,
            );
            lemma_key_index(s, place.key@);
            lemma_key_index(t, place.key@);
        }
        let i: usize = self.find_key(place.key.as_str());
        if i < self.projects.len() {
            assert(s[i as int].1 == self.projects@[i as int]@);
            let mut p = copy_project(&self.projects[i]);
            p.last_opened_at = Some(now_ms);
            p.path = place.path.clone();
            if let Some(name) = repo {
                if same(p.name.as_str(), basename(place.path.as_str(), platform).as_str()) {
                    p.name = owned(name);
                }
            }
            assert(p@ =~= reopened(s[i as int].1, place.path@, str_opt(repo), now_ms, platform));
            let copy = copy_project(&p);
            let ghost view = p@;
            self.projects.set(i, p);
            assert(self.entries() =~= s.update(i as int, (place.key@, view)));
            proof {
                lemma_only_place(t, place.key@, i as int);
            }
            copy
        } else {
            self.push_new(place, repo, now_ms, id, platform)
        }
    }

    fn push_new(
        &mut self,
        place: &Place,
        repo: Option<&str>,
        now_ms: u64,
        id: &str,
        platform: Platform,
    ) -> (r: Project)
        requires
            old(self).wf(),
            key_index(old(self).entries(), place.key@) == old(self).entries().len(),
        ensures
            final(self).wf(),
            r@ == new_project(id@, place.path@, place.key@, str_opt(repo), now_ms, platform),
            final(self).entries() == old(self).entries().push((place.key@, r@)),
            key_index(final(self).entries(), place.key@) == old(self).entries().len(),
    {
        let ghost s = self.entries();
        let p = Project {
            id: owned(id),
            name: title_for(place.path.as_str(), repo, platform),
            color: color_for_key(place.key.as_str()),
            last_opened_at: Some(now_ms),
            path: place.path.clone(),
        };
        let copy = copy_project(&p);
        let ghost view = p@;
        self.projects.push(p);
        self.keys.push(place.key.clone());
        proof {
            let t = s.push((place.key@, view));
            assert(self.entries() =~= t);
            lemma_key_index(s, place.key@);
            assert forall|a: int, b: int| 0 <= a < b < t.len() implies (#[trigger] t[a]).0 != (
            #[trigger] t[b]).0 by {
                assert(t[a] == s[a]);
                if b < s.len() {
                    assert(t[b] == s[b]);
                } else {
                    assert(s[a].0 != place.key@);
                }
            }
            lemma_only_place(t, place.key@, s.len() as int);
        }
        copy
    }

    /// Remembers a git root, or that it was entered again. Returns the project.
    /// A new project gets a fresh id.
    pub fn upsert_project_by_root(
        &mut self,
        place: &Place,
        repo: Option<&str>,
        now_ms: u64,
        platform: Platform,
    ) -> (r: Project)
        requires
            old(self).wf(),
        ensures
            final(self).wf(),
            exists|id: Seq<char>| #[trigger]
                is_uuid(id) && final(self).entries() == entered(
                    old(self).entries(),
                    place.path@,
                    place.key@,
                    str_opt(repo),
                    now_ms,
                    id,
                    platform,
                ),
            key_index(final(self).entries(), place.key@) < final(self).entries().len(),
            r@ == final(self).entries()[key_index(final(self).entries(), place.key@)].1,
    {
        let id = fresh_id();
        self.upsert_with_id(place, repo, now_ms, id.as_str(), platform)
    }

    /// Adds a directory, with `id` as the id of a new project. A directory that
    /// is known is left as it is. Returns the project, and whether it is new.
    pub fn add_with_id(
        &mut self,
        place: &Place,
        repo: Option<&str>,
        now_ms: u64,
        id: &str,
        platform: Platform,
    ) -> (r: (Project, bool))
        requires
            old(self).wf(),
        ensures
            final(self).wf(),
            final(self).entries() == added(
                old(self).entries(),
                place.path@,
                place.key@,
                str_opt(repo),
                now_ms,
                id@,
                platform,
            ),
            r.1 == (key_index(old(self).entries(), place.key@) >= old(self).entries().len()),
            key_index(final(self).entries(), place.key@) < final(self).entries().len(),
            r.0@ == final(self).entries()[key_index(final(self).entries(), place.key@)].1,
    {
        let ghost s = self.entries();
        let i: usize = self.find_key(place.key.as_str());
        if i < self.projects.len() {
            assert(s[i as int].1 == self.projects@[i as int]@);
            (copy_project(&self.projects[i]), false)
        } else {
            (self.push_new(place, repo, now_ms, id, platform), true)
        }
    }

    /// Adds a directory, which need not be a repository. A directory that is
    /// known is left as it is. Returns the project, and whether it is new.
    pub fn add_project_explicit(
        &mut self,
        place: &Place,
        repo: Option<&str>,
        now_ms: u64,
        platform: Platform,
    ) -> (r: (Project, bool))
        requires
            old(self).wf(),
        ensures
            final(self).wf(),
            exists|id: Seq<char>| #[trigger]
                is_uuid(id) && final(self).entries() == added(
                    old(self).entries(),
                    place.path@,
                    place.key@,
                    str_opt(repo),
                    now_ms,
                    id,
                    platform,
                ),
            r.1 == (key_index(old(self).entries(), place.key@) >= old(self).entries().len()),
            key_index(final(self).entries(), place.key@) < final(self).entries().len(),
            r.0@ == final(self).entries()[key_index(final(self).entries(), place.key@)].1,
    {
        let id = fresh_id();
        self.add_with_id(place, repo, now_ms, id.as_str(), platform)
    }

    fn find_id(&self, id: &str) -> (r: usize)
        requires
            self.wf(),
        ensures
            r == id_index(self.entries(), id@),
            r <= self.projects@.len(),
    {
        let ghost s = self.entries();
        let mut i: usize = 0;
        assert(s.skip(0) =~= s);
        while i < self.projects.len()
            invariant
                i <= self.projects@.len(),
                s == self.entries(),
                id_index(s, id@) == i + id_index(s.skip(i as int), id@),
            decreases self.projects.len() - i,
        {
            assert(s.skip(i as int)[0] == s[i as int]);
            assert(s[i as int].1 == self.projects@[i as int]@);
            assert(s.skip(i as int).skip(1) =~= s.skip(i + 1));
            if same(self.projects[i].id.as_str(), id) {
                return i;
            }
            i = i + 1;
        }
        i
    }

    /// Sets the color of the project with an id. Returns whether there is one,
    /// so that the file is out of date.
    pub fn set_project_color(&mut self, id: &str, color: &str) -> (r: bool)
        requires
            old(self).wf(),
        ensures
            final(self).wf(),
            final(self).entries() == recolored(old(self).entries(), id@, color@),
            r == (id_index(old(self).entries(), id@) < old(self).entries().len()),
    {
        let ghost s = self.entries();
        let i: usize = self.find_id(id);
        if i == self.projects.len() {
            return false;
        }
        assert(s[i as int] == (self.keys@[i as int]@, self.projects@[i as int]@));
        let mut p = copy_project(&self.projects[i]);
        p.color = owned(color);
        let ghost view = p@;
        self.projects.set(i, p);
        assert(self.entries() =~= s.update(i as int, (s[i as int].0, view)));
        proof {
            lemma_same_keys(s, self.entries());
        }
        true
    }

    /// Sets the title of the project with an id. Returns whether there is one,
    /// so that the file is out of date.
    pub fn rename_project(&mut self, id: &str, name: &str) -> (r: bool)
        requires
            old(self).wf(),
        ensures
            final(self).wf(),
            final(self).entries() == renamed(old(self).entries(), id@, name@),
            r == (id_index(old(self).entries(), id@) < old(self).entries().len()),
    {
        let ghost s = self.entries();
        let i: usize = self.find_id(id);
        if i == self.projects.len() {
            return false;
        }
        assert(s[i as int] == (self.keys@[i as int]@, self.projects@[i as int]@));
        let mut p = copy_project(&self.projects[i]);
        p.name = owned(name);
        let ghost view = p@;
        self.projects.set(i, p);
        assert(self.entries() =~= s.update(i as int, (s[i as int].0, view)));
        proof {
            lemma_same_keys(s, self.entries());
        }
        true
    }

    /// Forgets the project with an id.
    pub fn remove_project(&mut self, id: &str)
        requires
            old(self).wf(),
        ensures
            final(self).wf(),
            final(self).entries() == without_id(old(self).entries(), id@),
    {
        let ghost s = self.entries();
        let mut projects: Vec<Project> = Vec::new();
        let mut keys: Vec<String> = Vec::new();
        let mut i: usize = 0;
        assert(s.take(0) =~= Seq::<Entry>::empty());
        while i < self.projects.len()
            invariant
                i <= self.projects@.len(),
                self.wf(),
                s == self.entries(),
                projects@.len() == keys@.len(),
                Seq::new(projects@.len(), |j: int| (keys@[j]@, projects@[j]@)) == without_id(
                    s.take(i as int),
                    id@,
                ),
            decreases self.projects.len() - i,
        {
            let ghost before = Seq::new(projects@.len(), |j: int| (keys@[j]@, projects@[j]@));
            assert(s.take(i + 1).drop_last() =~= s.take(i as int));
            assert(s.take(i + 1).last() == s[i as int]);
            assert(s[i as int] == (self.keys@[i as int]@, self.projects@[i as int]@));
            if !same(self.projects[i].id.as_str(), id) {
                projects.push(copy_project(&self.projects[i]));
                keys.push(self.keys[i].clone());
                assert(Seq::new(projects@.len(), |j: int| (keys@[j]@, projects@[j]@))
                    =~= before.push(s[i as int]));
            }
            i = i + 1;
        }
        proof {
            assert(s.take(i as int) =~= s);
            lemma_without_id(s, id@);
        }
        self.projects = projects;
        self.keys = keys;
        assert(self.entries() =~= without_id(s, id@));
    }

    /// The projects, the one opened last first; those opened at one time stay in
    /// the order of the list.
    pub fn list_projects(&self) -> (r: Vec<Project>)
        requires
            self.wf(),
        ensures
            project_views(r@) == newest_first(entry_projects(self.entries())),
    {
        let ghost all = entry_projects(self.entries());
        let mut out: Vec<Project> = Vec::new();
        let mut i: usize = 0;
        assert(all.take(0) =~= Seq::<ProjectView>::empty());
        assert(project_views(out@) =~= Seq::<ProjectView>::empty());
        while i < self.projects.len()
            invariant
                i <= self.projects@.len(),
                all == entry_projects(self.entries()),
                project_views(out@) == newest_first(all.take(i as int)),
            decreases self.projects.len() - i,
        {
            assert(all.take(i + 1).drop_last() =~= all.take(i as int));
            assert(all.take(i + 1).last() == all[i as int]);
            assert(all[i as int] == self.projects@[i as int]@);
            insert_newest(&mut out, copy_project(&self.projects[i]));
            i = i + 1;
        }
        assert(all.take(i as int) =~= all);
        out
    }

    /// The project of a handle: the one with that id, else the one with that
    /// title that was opened last.
    pub fn resolve(&self, id_or_name: &str) -> (r: Option<Project>)
        requires
            self.wf(),
        ensures
            project_opt(r) == handled(
                newest_first(entry_projects(self.entries())),
                id_or_name@,
            ),
    {
        resolve_in(self.list_projects().as_slice(), id_or_name)
    }
}

proof fn lemma_only_place(t: Seq<Entry>, key: Seq<char>, i: int)
    requires
        distinct_keys(t),
        0 <= i < t.len(),
        t[i].0 == key,
    ensures
        key_index(t, key) == i,
{
    lemma_key_index(t, key);
    let k = key_index(t, key);
    if k < i {
        assert(t[k].0 != t[i].0);
    } else if i < k {
        assert(t[i].0 != key);
    }
}

proof fn lemma_same_keys(s: Seq<Entry>, t: Seq<Entry>)
    requires
        distinct_keys(s),
        s.len() == t.len(),
        forall|i: int| 0 <= i < s.len() ==> (#[trigger] t[i]).0 == s[i].0,
    ensures
        distinct_keys(t),
{
    assert forall|a: int, b: int| 0 <= a < b < t.len() implies (#[trigger] t[a]).0 != (
    #[trigger] t[b]).0 by {
        assert(s[a].0 != s[b].0);
    }
}

/// The place of the project with an id: the number of entries, where there is
/// none.
pub open spec fn id_index(s: Seq<Entry>, id: Seq<char>) -> int
    decreases s.len(),
{
    if s.len() == 0 {
        0
    } else if s[0].1.id == id {
        0
    } else {
        1 + id_index(s.skip(1), id)
    }
}

/// Entries with another color for the project with an id.
pub open spec fn recolored(s: Seq<Entry>, id: Seq<char>, color: Seq<char>) -> Seq<Entry> {
    let i = id_index(s, id);
    if i < s.len() {
        s.update(i, (s[i].0, ProjectView { color, ..s[i].1 }))
    } else {
        s
    }
}

/// Entries with another title for the project with an id.
pub open spec fn renamed(s: Seq<Entry>, id: Seq<char>, name: Seq<char>) -> Seq<Entry> {
    let i = id_index(s, id);
    if i < s.len() {
        s.update(i, (s[i].0, ProjectView { name, ..s[i].1 }))
    } else {
        s
    }
}

/// Entries without those of an id.
pub open spec fn without_id(s: Seq<Entry>, id: Seq<char>) -> Seq<Entry>
    decreases s.len(),
{
    if s.len() == 0 {
        s
    } else if s.last().1.id == id {
        without_id(s.drop_last(), id)
    } else {
        without_id(s.drop_last(), id).push(s.last())
    }
}

proof fn lemma_without_id(s: Seq<Entry>, id: Seq<char>)
    requires
        distinct_keys(s),
    ensures
        distinct_keys(without_id(s, id)),
        forall|i: int|
            0 <= i < without_id(s, id).len() ==> s.contains(#[trigger] without_id(s, id)[i])
                && without_id(s, id)[i].1.id != id,
    decreases s.len(),
{
    if s.len() > 0 {
        let d = s.drop_last();
        assert forall|a: int, b: int| 0 <= a < b < d.len() implies (#[trigger] d[a]).0 != (
        #[trigger] d[b]).0 by {
            assert(d[a] == s[a] && d[b] == s[b]);
        }
        lemma_without_id(d, id);
        let t = without_id(s, id);
        let u = without_id(d, id);
        assert(s[s.len() - 1] == s.last());
        assert forall|i: int| 0 <= i < t.len() implies s.contains(#[trigger] t[i]) && t[i].1.id
            != id by {
            if i < u.len() {
                assert(t[i] == u[i]);
                let m = choose|m: int| 0 <= m < d.len() && d[m] == u[i];
                assert(s[m] == u[i]);
            }
        }
        assert forall|a: int, b: int| 0 <= a < b < t.len() implies (#[trigger] t[a]).0 != (
        #[trigger] t[b]).0 by {
            assert(t[a] == u[a]);
            if b < u.len() {
                assert(t[b] == u[b]);
            } else {
                let m = choose|m: int| 0 <= m < d.len() && d[m] == u[a];
                assert(s[m].0 != s[s.len() - 1].0);
            }
        }
    }
}

/// A forgotten project is gone, and nothing new takes its place.
pub proof fn law_removed_project_is_gone(s: Seq<Entry>, id: Seq<char>, i: int)
    requires
        distinct_keys(s),
        0 <= i < without_id(s, id).len(),
    ensures
        without_id(s, id)[i].1.id != id,
        s.contains(without_id(s, id)[i]),
{
    lemma_without_id(s, id);
}

// ---------------------------------------------------------------------------
// Order
// ---------------------------------------------------------------------------

/// How many projects at the front were opened no earlier than `t`.
pub open spec fn newer_count(s: Seq<ProjectView>, t: u64) -> int
    decreases s.len(),
{
    if s.len() == 0 || opened(s[0]) < t {
        0
    } else {
        1 + newer_count(s.skip(1), t)
    }
}

/// Projects in order of their opening, the last first, those of one time in the
/// order they came.
pub open spec fn newest_first(s: Seq<ProjectView>) -> Seq<ProjectView>
    decreases s.len(),
{
    if s.len() == 0 {
        s
    } else {
        let t = newest_first(s.drop_last());
        t.insert(newer_count(t, opened(s.last())), s.last())
    }
}

/// Whether projects are in order of their opening, the last first.
pub open spec fn in_order(s: Seq<ProjectView>) -> bool {
    forall|i: int, j: int|
        0 <= i < j < s.len() ==> opened(#[trigger] s[i]) >= opened(#[trigger] s[j])
}

/// How many projects at the front are as new.
pub proof fn lemma_newer_count(s: Seq<ProjectView>, t: u64)
    ensures
        0 <= newer_count(s, t) <= s.len(),
        forall|i: int| 0 <= i < newer_count(s, t) ==> opened(#[trigger] s[i]) >= t,
        newer_count(s, t) < s.len() ==> opened(s[newer_count(s, t)]) < t,
    decreases s.len(),
{
    if s.len() > 0 && opened(s[0]) >= t {
        lemma_newer_count(s.skip(1), t);
        assert forall|i: int| 0 <= i < newer_count(s, t) implies opened(#[trigger] s[i]) >= t by {
            if i > 0 {
                assert(s.skip(1)[i - 1] == s[i]);
            }
        }
    }
}

/// The list shows the projects in order of their opening, the last first, and
/// shows each as often as it is there.
pub proof fn law_list_is_in_order(s: Seq<ProjectView>)
    ensures
        in_order(newest_first(s)),
        newest_first(s).to_multiset() == s.to_multiset(),
        newest_first(s).len() == s.len(),
    decreases s.len(),
{
    if s.len() > 0 {
        let d = s.drop_last();
        law_list_is_in_order(d);
        let t = newest_first(d);
        let p = s.last();
        let k = newer_count(t, opened(p));
        lemma_newer_count(t, opened(p));
        let r = newest_first(s);
        assert forall|i: int, j: int| 0 <= i < j < r.len() implies opened(#[trigger] r[i])
            >= opened(#[trigger] r[j]) by {
            let a = if i < k {
                i
            } else {
                i - 1
            };
            let b = if j < k {
                j
            } else {
                j - 1
            };
            if i != k && j != k {
                assert(r[i] == t[a] && r[j] == t[b]);
            } else if i == k {
                assert(r[j] == t[b]);
                assert(opened(t[k]) < opened(p));
                if b > k {
                    assert(opened(t[k]) >= opened(t[b]));
                }
            } else {
                assert(r[i] == t[a]);
            }
        }
        vstd::seq_lib::to_multiset_insert(t, k, p);
        assert(s =~= d.push(p));
        d.to_multiset_ensures();
    }
}

fn insert_newest(list: &mut Vec<Project>, p: Project)
    ensures
        project_views(final(list)@) == project_views(old(list)@).insert(
            newer_count(project_views(old(list)@), opened(p@)),
            p@,
        ),
{
    let ghost s = project_views(list@);
    let t: u64 = opened_at(&p);
    let mut i: usize = 0;
    assert(s.skip(0) =~= s);
    while i < list.len() && opened_at(&list[i]) >= t
        invariant
            i <= list@.len(),
            s == project_views(list@),
            newer_count(s, t) == i + newer_count(s.skip(i as int), t),
        decreases list.len() - i,
    {
        assert(s.skip(i as int)[0] == list@[i as int]@);
        assert(s.skip(i as int).skip(1) =~= s.skip(i + 1));
        i = i + 1;
    }
    assert(i < list@.len() ==> s.skip(i as int)[0] == list@[i as int]@);
    let ghost view = p@;
    list.insert(i, p);
    assert(project_views(list@) =~= s.insert(i as int, view));
}

/// A project, or none.
pub open spec fn project_opt(o: Option<Project>) -> Option<ProjectView> {
    match o {
        Some(p) => Some(p@),
        None => None,
    }
}

/// The first project with an id.
pub open spec fn by_id(s: Seq<ProjectView>, id: Seq<char>) -> Option<ProjectView>
    decreases s.len(),
{
    if s.len() == 0 {
        None
    } else if s[0].id == id {
        Some(s[0])
    } else {
        by_id(s.skip(1), id)
    }
}

/// The first project with a title.
pub open spec fn by_name(s: Seq<ProjectView>, name: Seq<char>) -> Option<ProjectView>
    decreases s.len(),
{
    if s.len() == 0 {
        None
    } else if s[0].name == name {
        Some(s[0])
    } else {
        by_name(s.skip(1), name)
    }
}

/// The project of a handle: the first with that id, else the first with that
/// title.
pub open spec fn handled(s: Seq<ProjectView>, handle: Seq<char>) -> Option<ProjectView> {
    match by_id(s, handle) {
        Some(p) => Some(p),
        None => by_name(s, handle),
    }
}

/// The project of a handle in a list: the first with that id, else the first
/// with that title.
pub fn resolve_in(list: &[Project], id_or_name: &str) -> (r: Option<Project>)
    ensures
        project_opt(r) == handled(project_views(list@), id_or_name@),
{
    let ghost s = project_views(list@);
    let mut i: usize = 0;
    assert(s.skip(0) =~= s);
    while i < list.len()
        invariant
            i <= list@.len(),
            s == project_views(list@),
            by_id(s, id_or_name@) == by_id(s.skip(i as int), id_or_name@),
        decreases list.len() - i,
    {
        assert(s.skip(i as int)[0] == list@[i as int]@);
        assert(s.skip(i as int).skip(1) =~= s.skip(i + 1));
        if same(list[i].id.as_str(), id_or_name) {
            return Some(copy_project(&list[i]));
        }
        i = i + 1;
    }
    let mut j: usize = 0;
    while j < list.len()
        invariant
            j <= list@.len(),
            s == project_views(list@),
            by_id(s, id_or_name@) is None,
            by_name(s, id_or_name@) == by_name(s.skip(j as int), id_or_name@),
        decreases list.len() - j,
    {
        assert(s.skip(j as int)[0] == list@[j as int]@);
        assert(s.skip(j as int).skip(1) =~= s.skip(j + 1));
        if same(list[j].name.as_str(), id_or_name) {
            return Some(copy_project(&list[j]));
        }
        j = j + 1;
    }
    None
}

/// An id wins over a title: a handle that is a project's id finds a project
/// with that id.
pub proof fn law_id_wins_over_title(s: Seq<ProjectView>, handle: Seq<char>, i: int)
    requires
        0 <= i < s.len(),
        s[i].id == handle,
    ensures
        handled(s, handle) matches Some(p) && p.id == handle,
    decreases s.len(),
{
    if s[0].id != handle {
        assert(s.skip(1)[i - 1] == s[i]);
        law_id_wins_over_title(s.skip(1), handle, i - 1);
        lemma_by_id(s.skip(1), handle, i - 1);
    }
}

proof fn lemma_by_id(s: Seq<ProjectView>, id: Seq<char>, i: int)
    requires
        0 <= i < s.len(),
        s[i].id == id,
    ensures
        by_id(s, id) is Some,
    decreases s.len(),
{
    if s[0].id != id {
        assert(s.skip(1)[i - 1] == s[i]);
        lemma_by_id(s.skip(1), id, i - 1);
    }
}

} // verus!
