//! Where each file lives.
//!
//! On Windows and macOS everything is in one directory. On Linux settings are
//! in the XDG configuration directory, durable data in the data directory and
//! what a running session leaves in the state directory.

use crate::platform::Platform;
use crate::text::{chars_of, is_ascii_letter, opt_view, owned};
use vstd::prelude::*;
use vstd::string::*;

verus! {

/// The name of the product, and of its directories.
pub const PRODUCT_NAME: &'static str = "hyperpanes";

// ---------------------------------------------------------------------------
// Joining
// ---------------------------------------------------------------------------

/// Whether a character separates the parts of a path.
pub open spec fn is_separator(c: char, platform: Platform) -> bool {
    c == '/' || (platform == Platform::Windows && c == '\\')
}

/// The separator that is written between the parts of a path.
pub open spec fn separator(platform: Platform) -> Seq<char> {
    if platform == Platform::Windows {
        "\\"@
    } else {
        "/"@
    }
}

/// Whether a path is a drive alone, such as `C:`.
pub open spec fn is_bare_drive(p: Seq<char>, platform: Platform) -> bool {
    platform == Platform::Windows && p.len() == 2 && is_ascii_letter(p[0]) && p[1] == ':'
}

/// A path with a relative one behind it.
pub open spec fn joined(base: Seq<char>, rel: Seq<char>, platform: Platform) -> Seq<char> {
    if base.len() == 0 || is_separator(base.last(), platform) || is_bare_drive(base, platform) {
        base + rel
    } else {
        base + separator(platform) + rel
    }
}

/// Puts a relative path behind another one.
pub fn join(base: &str, rel: &str, platform: Platform) -> (r: String)
    ensures
        r@ == joined(base@, rel@, platform),
{
    let chars = chars_of(base);
    let windows = platform == Platform::Windows;
    let n: usize = chars.len();
    let mut out = owned(base);
    let bare = windows && n == 2 && (('a' <= chars[0] && chars[0] <= 'z') || ('A' <= chars[0]
        && chars[0] <= 'Z')) && chars[1] == ':';
    if n > 0 && !(chars[n - 1] == '/' || (windows && chars[n - 1] == '\\')) && !bare {
        if windows {
            out.append("\\");
        } else {
            out.append("/");
        }
    }
    out.append(rel);
    out
}

// ---------------------------------------------------------------------------
// Base directories
// ---------------------------------------------------------------------------

/// What the environment says of the base directories: the application data
/// directory of Windows, the home directory elsewhere, and the values of the
/// XDG variables, where they are set.
pub struct BaseDirs {
    pub platform: Platform,
    pub app_data: String,
    pub home: String,
    pub xdg_config: Option<String>,
    pub xdg_data: Option<String>,
    pub xdg_state: Option<String>,
}

/// What the environment says of the base directories.
#[verifier::ext_equal]
pub struct DirsView {
    pub platform: Platform,
    pub app_data: Seq<char>,
    pub home: Seq<char>,
    pub xdg_config: Option<Seq<char>>,
    pub xdg_data: Option<Seq<char>>,
    pub xdg_state: Option<Seq<char>>,
}

impl View for BaseDirs {
    type V = DirsView;

    open spec fn view(&self) -> DirsView {
        DirsView {
            platform: self.platform,
            app_data: self.app_data@,
            home: self.home@,
            xdg_config: opt_view(self.xdg_config),
            xdg_data: opt_view(self.xdg_data),
            xdg_state: opt_view(self.xdg_state),
        }
    }
}

/// A directory from a variable, else the one that the system knows, else the
/// working directory.
pub open spec fn known_dir(variable: Option<Seq<char>>, known: Option<Seq<char>>) -> Seq<char> {
    match variable {
        Some(v) => if v.len() > 0 {
            v
        } else {
            fallback_dir(known)
        },
        None => fallback_dir(known),
    }
}

/// The directory that the system knows, else the working directory.
pub open spec fn fallback_dir(known: Option<Seq<char>>) -> Seq<char> {
    match known {
        Some(k) => k,
        None => "."@,
    }
}

/// The view of a borrowed string, or none.
pub open spec fn str_opt(o: Option<&str>) -> Option<Seq<char>> {
    match o {
        Some(s) => Some(s@),
        None => None,
    }
}

/// The application data directory of Windows: that of `APPDATA`, where it is
/// set and not empty, else the known folder.
pub fn app_data_dir(variable: Option<&str>, known: Option<&str>) -> (r: String)
    ensures
        r@ == known_dir(str_opt(variable), str_opt(known)),
{
    choose_dir(variable, known)
}

/// The home directory: that of `HOME`, where it is set and not empty, else the
/// one that the system knows.
pub fn home_dir(variable: Option<&str>, known: Option<&str>) -> (r: String)
    ensures
        r@ == known_dir(str_opt(variable), str_opt(known)),
{
    choose_dir(variable, known)
}

fn choose_dir(variable: Option<&str>, known: Option<&str>) -> (r: String)
    ensures
        r@ == known_dir(str_opt(variable), str_opt(known)),
{
    if let Some(v) = variable {
        if !v.is_empty() {
            return owned(v);
        }
    }
    match known {
        Some(k) => owned(k),
        None => owned("."),
    }
}

/// An XDG base directory: the variable's value where it is an absolute path,
/// else the default under the home directory.
pub open spec fn picked_base(value: Option<Seq<char>>, home: Seq<char>, rel: Seq<char>) -> Seq<
    char,
> {
    match value {
        Some(v) => if v.len() > 0 && v[0] == '/' {
            v
        } else {
            joined(home, rel, Platform::Linux)
        },
        None => joined(home, rel, Platform::Linux),
    }
}

/// An XDG base directory. A value that is empty or relative is ignored.
pub fn pick_base(value: Option<&str>, home: &str, rel: &str) -> (r: String)
    ensures
        r@ == picked_base(str_opt(value), home@, rel@),
{
    if let Some(v) = value {
        let chars = chars_of(v);
        if chars.len() > 0 && chars[0] == '/' {
            return owned(v);
        }
    }
    join(home, rel, Platform::Linux)
}

fn borrowed(o: &Option<String>) -> (r: Option<&str>)
    ensures
        str_opt(r) == opt_view(*o),
{
    match o {
        Some(s) => Some(s.as_str()),
        None => None,
    }
}

/// The product's directory for user data.
pub open spec fn user_data(d: DirsView) -> Seq<char> {
    match d.platform {
        Platform::Windows => joined(d.app_data, PRODUCT_NAME@, d.platform),
        Platform::Macos => joined(
            joined(joined(d.home, "Library"@, d.platform), "Application Support"@, d.platform),
            PRODUCT_NAME@,
            d.platform,
        ),
        Platform::Linux => joined(
            picked_base(d.xdg_config, d.home, ".config"@),
            PRODUCT_NAME@,
            d.platform,
        ),
    }
}

/// The product's directory for durable data.
pub open spec fn durable_data(d: DirsView) -> Seq<char> {
    if d.platform == Platform::Linux {
        joined(picked_base(d.xdg_data, d.home, ".local/share"@), PRODUCT_NAME@, d.platform)
    } else {
        user_data(d)
    }
}

/// The product's directory for what a running session leaves.
pub open spec fn session_state(d: DirsView) -> Seq<char> {
    if d.platform == Platform::Linux {
        joined(picked_base(d.xdg_state, d.home, ".local/state"@), PRODUCT_NAME@, d.platform)
    } else {
        user_data(d)
    }
}

/// The user data directory: `%APPDATA%\hyperpanes` on Windows,
/// `~/Library/Application Support/hyperpanes` on macOS and
/// `$XDG_CONFIG_HOME/hyperpanes` on Linux.
pub fn user_data_dir(d: &BaseDirs) -> (r: String)
    ensures
        r@ == user_data(d@),
{
    match d.platform {
        Platform::Windows => join(d.app_data.as_str(), PRODUCT_NAME, d.platform),
        Platform::Macos => {
            let library = join(d.home.as_str(), "Library", d.platform);
            let support = join(library.as_str(), "Application Support", d.platform);
            join(support.as_str(), PRODUCT_NAME, d.platform)
        },
        Platform::Linux => {
            let base = pick_base(borrowed(&d.xdg_config), d.home.as_str(), ".config");
            join(base.as_str(), PRODUCT_NAME, d.platform)
        },
    }
}

/// Where settings live: the user data directory on every platform.
pub fn config_dir(d: &BaseDirs) -> (r: String)
    ensures
        r@ == user_data(d@),
{
    user_data_dir(d)
}

/// Where durable data lives: `$XDG_DATA_HOME/hyperpanes` on Linux.
pub fn data_dir(d: &BaseDirs) -> (r: String)
    ensures
        r@ == durable_data(d@),
{
    if d.platform == Platform::Linux {
        let base = pick_base(borrowed(&d.xdg_data), d.home.as_str(), ".local/share");
        join(base.as_str(), PRODUCT_NAME, d.platform)
    } else {
        user_data_dir(d)
    }
}

/// Where session state lives: `$XDG_STATE_HOME/hyperpanes` on Linux.
pub fn state_dir(d: &BaseDirs) -> (r: String)
    ensures
        r@ == session_state(d@),
{
    if d.platform == Platform::Linux {
        let base = pick_base(borrowed(&d.xdg_state), d.home.as_str(), ".local/state");
        join(base.as_str(), PRODUCT_NAME, d.platform)
    } else {
        user_data_dir(d)
    }
}

// ---------------------------------------------------------------------------
// Files
// ---------------------------------------------------------------------------

/// The file by which a running control server is found.
pub fn control_json(d: &BaseDirs) -> (r: String)
    ensures
        r@ == joined(session_state(d@), "control.json"@, d.platform),
{
    join(state_dir(d).as_str(), "control.json", d.platform)
}

/// The control server's settings.
pub fn control_settings_json(d: &BaseDirs) -> (r: String)
    ensures
        r@ == joined(user_data(d@), "control-settings.json"@, d.platform),
{
    join(config_dir(d).as_str(), "control-settings.json", d.platform)
}

/// The tokens of paired devices.
pub fn device_tokens_json(d: &BaseDirs) -> (r: String)
    ensures
        r@ == joined(session_state(d@), "device-tokens.json"@, d.platform),
{
    join(state_dir(d).as_str(), "device-tokens.json", d.platform)
}

/// The last saved session, restored on launch.
pub fn last_workspace_json(d: &BaseDirs) -> (r: String)
    ensures
        r@ == joined(session_state(d@), "last-workspace.json"@, d.platform),
{
    join(state_dir(d).as_str(), "last-workspace.json", d.platform)
}

/// The remembered projects.
pub fn projects_json(d: &BaseDirs) -> (r: String)
    ensures
        r@ == joined(durable_data(d@), "projects.json"@, d.platform),
{
    join(data_dir(d).as_str(), "projects.json", d.platform)
}

/// The database of the work queue.
pub fn work_db(d: &BaseDirs) -> (r: String)
    ensures
        r@ == joined(durable_data(d@), "work.db"@, d.platform),
{
    join(data_dir(d).as_str(), "work.db", d.platform)
}

/// The accounts that runs of the command-line agent `agent` rotate across:
/// `<agent>-accounts.json`.
pub fn claude_accounts_json(d: &BaseDirs, agent: &str) -> (r: String)
    ensures
        r@ == joined(durable_data(d@), agent@ + "-accounts.json"@, d.platform),
{
    let mut name = owned(agent);
    name.append("-accounts.json");
    join(data_dir(d).as_str(), name.as_str(), d.platform)
}

/// The settings of the ambient assistant.
pub fn ai_settings_json(d: &BaseDirs) -> (r: String)
    ensures
        r@ == joined(user_data(d@), "ai-settings.json"@, d.platform),
{
    join(config_dir(d).as_str(), "ai-settings.json", d.platform)
}

/// The settings of speech output.
pub fn speech_json(d: &BaseDirs) -> (r: String)
    ensures
        r@ == joined(user_data(d@), "speech.json"@, d.platform),
{
    join(config_dir(d).as_str(), "speech.json", d.platform)
}

/// What the ambient assistant remembers of each pane.
pub fn ai_memory_json(d: &BaseDirs) -> (r: String)
    ensures
        r@ == joined(durable_data(d@), "ai-memory.json"@, d.platform),
{
    join(data_dir(d).as_str(), "ai-memory.json", d.platform)
}

/// The map from session uids to the ids of control panes.
pub fn control_pane_ids_json(d: &BaseDirs) -> (r: String)
    ensures
        r@ == joined(session_state(d@), "control-pane-ids.json"@, d.platform),
{
    join(state_dir(d).as_str(), "control-pane-ids.json", d.platform)
}

/// The prompts that wait for a conversation.
pub fn resume_prompts_json(d: &BaseDirs) -> (r: String)
    ensures
        r@ == joined(session_state(d@), "resume-prompts.json"@, d.platform),
{
    join(state_dir(d).as_str(), "resume-prompts.json", d.platform)
}

/// The directory of the markers that runs of the command-line agent `agent`
/// leave for their panes: `<agent>-sessions`.
pub fn claude_sessions_dir(d: &BaseDirs, agent: &str) -> (r: String)
    ensures
        r@ == joined(session_state(d@), agent@ + "-sessions"@, d.platform),
{
    let mut name = owned(agent);
    name.append("-sessions");
    join(state_dir(d).as_str(), name.as_str(), d.platform)
}

/// The main window's remembered frame.
pub fn window_geometry_json(d: &BaseDirs) -> (r: String)
    ensures
        r@ == joined(session_state(d@), "window-geometry.json"@, d.platform),
{
    join(state_dir(d).as_str(), "window-geometry.json", d.platform)
}

/// The directory of saved workspaces.
pub fn workspaces_dir(d: &BaseDirs) -> (r: String)
    ensures
        r@ == joined(durable_data(d@), "workspaces"@, d.platform),
{
    join(data_dir(d).as_str(), "workspaces", d.platform)
}

/// The directory of saved workspace sets.
pub fn sets_dir(d: &BaseDirs) -> (r: String)
    ensures
        r@ == joined(durable_data(d@), "sets"@, d.platform),
{
    join(data_dir(d).as_str(), "sets", d.platform)
}

/// The name of the file that an atomic write fills before it takes the place of
/// the file called `file_name`.
pub open spec fn temp_name(file_name: Option<Seq<char>>, pid: u32) -> Seq<char> {
    let name = match file_name {
        Some(n) => n,
        None => "tmp"@,
    };
    "."@ + name + ".tmp."@ + crate::text::dec(pid as nat)
}

/// The name of the file that an atomic write fills first: beside its target,
/// and told apart from that of other writers by the process id.
pub fn temp_file_name(file_name: Option<&str>, pid: u32) -> (r: String)
    ensures
        r@ == temp_name(str_opt(file_name), pid),
{
    let mut out = owned(".");
    match file_name {
        Some(n) => out.append(n),
        None => out.append("tmp"),
    }
    out.append(".tmp.");
    out.append(crate::text::decimal(pid as u64).as_str());
    out
}

// ---------------------------------------------------------------------------
// Laws
// ---------------------------------------------------------------------------

/// On Windows and macOS the three kinds of file share one directory.
pub proof fn law_one_directory_but_on_linux(d: DirsView)
    requires
        d.platform != Platform::Linux,
    ensures
        durable_data(d) == user_data(d),
        session_state(d) == user_data(d),
{
}

/// What is joined behind a path keeps that path in front and what was joined at
/// the end.
pub proof fn law_joined_path_keeps_both(base: Seq<char>, rel: Seq<char>, platform: Platform)
    ensures
        joined(base, rel, platform).len() >= base.len() + rel.len(),
        joined(base, rel, platform).take(base.len() as int) == base,
        joined(base, rel, platform).skip(joined(base, rel, platform).len() - rel.len()) == rel,
{
    let j = joined(base, rel, platform);
    assert(j.take(base.len() as int) =~= base);
    assert(j.skip(j.len() - rel.len()) =~= rel);
}

/// A value that is empty or relative is as good as none.
pub proof fn law_relative_base_is_ignored(value: Seq<char>, home: Seq<char>, rel: Seq<char>)
    requires
        value.len() == 0 || value[0] != '/',
    ensures
        picked_base(Some(value), home, rel) == picked_base(None, home, rel),
{
}

} // verus!
