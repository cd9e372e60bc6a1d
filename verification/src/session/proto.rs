//! The messages between the session daemon and its clients, and what they carry.

use crate::assoc::StrMap;
use crate::session::claims::{claim_views, ClaimInfo, Claims};
use crate::session::env::{EnvMap, EnvView};
use crate::session::env::unix::env_view;
use crate::text::{opt_view, views};
use vstd::prelude::*;

verus! {

/// The version of the protocol. Version 2 added the takeover, version 3 the
/// claims.
pub const PROTO_VER: u32 = 3;

/// Something that happened in a session.
#[derive(Debug, Clone, PartialEq, Eq)]
pub enum SessionEvent {
    /// Output; `cursor` is the session's output cursor after it, or 0 where the
    /// daemon does not report one.
    Data { uid: String, data: String, cursor: u64 },
    /// The directory that the shell reported.
    Cwd { uid: String, cwd: String },
    /// The child exited.
    Exit { uid: String, code: i32 },
    /// A command started.
    CommandStart { uid: String },
    /// A command ended.
    CommandEnd { uid: String, code: Option<i32> },
    /// The prompt is ready.
    PromptReady { uid: String },
    /// What an agent in the session is doing.
    AgentState { uid: String, state: String },
}

/// Something that happened in a session.
pub enum EventView {
    Data { uid: Seq<char>, data: Seq<char>, cursor: u64 },
    Cwd { uid: Seq<char>, cwd: Seq<char> },
    Exit { uid: Seq<char>, code: i32 },
    CommandStart { uid: Seq<char> },
    CommandEnd { uid: Seq<char>, code: Option<i32> },
    PromptReady { uid: Seq<char> },
    AgentState { uid: Seq<char>, state: Seq<char> },
}

impl View for SessionEvent {
    type V = EventView;

    open spec fn view(&self) -> EventView {
        match self {
            SessionEvent::Data { uid, data, cursor } => EventView::Data {
                uid: uid@,
                data: data@,
                cursor: *cursor,
            },
            SessionEvent::Cwd { uid, cwd } => EventView::Cwd { uid: uid@, cwd: cwd@ },
            SessionEvent::Exit { uid, code } => EventView::Exit { uid: uid@, code: *code },
            SessionEvent::CommandStart { uid } => EventView::CommandStart { uid: uid@ },
            SessionEvent::CommandEnd { uid, code } => EventView::CommandEnd {
                uid: uid@,
                code: *code,
            },
            SessionEvent::PromptReady { uid } => EventView::PromptReady { uid: uid@ },
            SessionEvent::AgentState { uid, state } => EventView::AgentState {
                uid: uid@,
                state: state@,
            },
        }
    }
}

/// The session that an event is about.
pub open spec fn uid_of(ev: EventView) -> Seq<char> {
    match ev {
        EventView::Data { uid, .. } => uid,
        EventView::Cwd { uid, .. } => uid,
        EventView::Exit { uid, .. } => uid,
        EventView::CommandStart { uid } => uid,
        EventView::CommandEnd { uid, .. } => uid,
        EventView::PromptReady { uid } => uid,
        EventView::AgentState { uid, .. } => uid,
    }
}

/// The session that an event is about.
pub fn event_uid(ev: &SessionEvent) -> (r: &str)
    ensures
        r@ == uid_of(ev@),
{
    match ev {
        SessionEvent::Data { uid, .. } => uid.as_str(),
        SessionEvent::Cwd { uid, .. } => uid.as_str(),
        SessionEvent::Exit { uid, .. } => uid.as_str(),
        SessionEvent::CommandStart { uid } => uid.as_str(),
        SessionEvent::CommandEnd { uid, .. } => uid.as_str(),
        SessionEvent::PromptReady { uid } => uid.as_str(),
        SessionEvent::AgentState { uid, .. } => uid.as_str(),
    }
}

/// What the daemon says of one session.
#[derive(Debug, Clone, PartialEq, Eq)]
pub struct SessionMeta {
    pub uid: String,
    pub cwd: Option<String>,
    /// The output cursor, in UTF-16 code units.
    pub output_bytes: u64,
    pub last_output_at: Option<u64>,
    pub alive: bool,
    pub cols: Option<u16>,
    pub rows: Option<u16>,
    /// What runs in the foreground; nothing where there is no answer.
    pub foreground: Option<String>,
    /// Where that is.
    pub fg_cwd: Option<String>,
}

/// What the daemon says of one session.
#[verifier::ext_equal]
pub struct MetaView {
    pub uid: Seq<char>,
    pub cwd: Option<Seq<char>>,
    pub output_bytes: u64,
    pub last_output_at: Option<u64>,
    pub alive: bool,
    pub cols: Option<u16>,
    pub rows: Option<u16>,
    pub foreground: Option<Seq<char>>,
    pub fg_cwd: Option<Seq<char>>,
}

impl View for SessionMeta {
    type V = MetaView;

    open spec fn view(&self) -> MetaView {
        MetaView {
            uid: self.uid@,
            cwd: opt_view(self.cwd),
            output_bytes: self.output_bytes,
            last_output_at: self.last_output_at,
            alive: self.alive,
            cols: self.cols,
            rows: self.rows,
            foreground: opt_view(self.foreground),
            fg_cwd: opt_view(self.fg_cwd),
        }
    }
}

/// What the daemon says of sessions.
pub open spec fn meta_views(v: Seq<SessionMeta>) -> Seq<MetaView> {
    Seq::new(v.len(), |i: int| v[i]@)
}

// ---------------------------------------------------------------------------
// Spawning
// ---------------------------------------------------------------------------

/// What the shell integration adds to a spawn.
#[derive(Debug, Clone, PartialEq, Eq)]
pub struct Integration {
    pub args: Vec<String>,
    pub env: EnvMap,
}

/// How a client wants a session spawned.
#[derive(Debug, Clone, PartialEq, Eq)]
pub struct SpawnOptions {
    pub uid: String,
    pub shell: Option<String>,
    pub command: Option<String>,
    pub args: Option<Vec<String>>,
    pub cwd: Option<String>,
    pub env: Option<EnvMap>,
    pub cols: Option<u16>,
    pub rows: Option<u16>,
    pub pane_id: Option<String>,
    pub integration: Option<Integration>,
    pub control_file: Option<String>,
}

/// How a session is to be spawned, as it is sent: the integration is resolved,
/// and the uid is pinned or left to the daemon.
#[derive(Debug, Clone, PartialEq, Eq)]
pub struct SpawnSpec {
    pub uid: Option<String>,
    pub shell: Option<String>,
    pub command: Option<String>,
    pub args: Option<Vec<String>>,
    pub cwd: Option<String>,
    pub env: Option<EnvMap>,
    pub cols: Option<u16>,
    pub rows: Option<u16>,
    pub pane_id: Option<String>,
    pub integration_args: Vec<String>,
    pub integration_env: EnvMap,
    pub control_file: Option<String>,
}

/// Arguments, or none.
pub open spec fn args_opt(o: Option<Vec<String>>) -> Option<Seq<Seq<char>>> {
    match o {
        Some(v) => Some(views(v@)),
        None => None,
    }
}

/// What a shell integration adds.
pub struct IntegrationView {
    pub args: Seq<Seq<char>>,
    pub env: EnvView,
}

/// What options and specs have in common.
#[verifier::ext_equal]
pub struct LaunchView {
    pub shell: Option<Seq<char>>,
    pub command: Option<Seq<char>>,
    pub args: Option<Seq<Seq<char>>>,
    pub cwd: Option<Seq<char>>,
    pub env: Option<EnvView>,
    pub cols: Option<u16>,
    pub rows: Option<u16>,
    pub pane_id: Option<Seq<char>>,
    pub control_file: Option<Seq<char>>,
}

/// Spawn options.
pub struct OptionsView {
    pub uid: Seq<char>,
    pub launch: LaunchView,
    pub integration: Option<IntegrationView>,
}

/// A spawn spec.
pub struct SpecView {
    pub uid: Option<Seq<char>>,
    pub launch: LaunchView,
    pub integration: IntegrationView,
}

impl View for SpawnOptions {
    type V = OptionsView;

    open spec fn view(&self) -> OptionsView {
        OptionsView {
            uid: self.uid@,
            launch: LaunchView {
                shell: opt_view(self.shell),
                command: opt_view(self.command),
                args: args_opt(self.args),
                cwd: opt_view(self.cwd),
                env: env_view(self.env),
                cols: self.cols,
                rows: self.rows,
                pane_id: opt_view(self.pane_id),
                control_file: opt_view(self.control_file),
            },
            integration: match self.integration {
                Some(i) => Some(IntegrationView { args: views(i.args@), env: i.env@ }),
                None => None,
            },
        }
    }
}

impl View for SpawnSpec {
    type V = SpecView;

    open spec fn view(&self) -> SpecView {
        SpecView {
            uid: opt_view(self.uid),
            launch: LaunchView {
                shell: opt_view(self.shell),
                command: opt_view(self.command),
                args: args_opt(self.args),
                cwd: opt_view(self.cwd),
                env: env_view(self.env),
                cols: self.cols,
                rows: self.rows,
                pane_id: opt_view(self.pane_id),
                control_file: opt_view(self.control_file),
            },
            integration: IntegrationView {
                args: views(self.integration_args@),
                env: self.integration_env@,
            },
        }
    }
}

/// No integration at all.
pub open spec fn no_integration() -> IntegrationView {
    IntegrationView { args: Seq::empty(), env: Seq::empty() }
}

/// The spec of options: the uid pinned, the integration resolved.
pub open spec fn spec_of(o: OptionsView) -> SpecView {
    SpecView {
        uid: Some(o.uid),
        launch: o.launch,
        integration: match o.integration {
            Some(i) => i,
            None => no_integration(),
        },
    }
}

/// The options of a spec, under a uid. An integration that adds nothing is none.
pub open spec fn options_of(s: SpecView, uid: Seq<char>) -> OptionsView {
    OptionsView {
        uid,
        launch: s.launch,
        integration: if s.integration.args.len() == 0 && s.integration.env.len() == 0 {
            None
        } else {
            Some(s.integration)
        },
    }
}

impl Default for SpawnSpec {
    fn default() -> (r: SpawnSpec)
        ensures
            r@.uid is None,
            r@.launch == nothing_asked(),
            r@.integration.args == Seq::<Seq<char>>::empty(),
            r@.integration.env == Seq::<(Seq<char>, Seq<char>)>::empty(),
    {
        let r = SpawnSpec {
            uid: None,
            shell: None,
            command: None,
            args: None,
            cwd: None,
            env: None,
            cols: None,
            rows: None,
            pane_id: None,
            integration_args: Vec::new(),
            integration_env: StrMap::new(),
            control_file: None,
        };
        assert(r@.integration.args =~= Seq::<Seq<char>>::empty());
        r
    }
}

impl Default for SpawnOptions {
    fn default() -> (r: SpawnOptions)
        ensures
            r@.uid == Seq::<char>::empty(),
            r@.launch == nothing_asked(),
            r@.integration is None,
    {
        SpawnOptions {
            uid: String::new(),
            shell: None,
            command: None,
            args: None,
            cwd: None,
            env: None,
            cols: None,
            rows: None,
            pane_id: None,
            integration: None,
            control_file: None,
        }
    }
}

/// A launch that asks for nothing in particular.
pub open spec fn nothing_asked() -> LaunchView {
    LaunchView {
        shell: None,
        command: None,
        args: None,
        cwd: None,
        env: None,
        cols: None,
        rows: None,
        pane_id: None,
        control_file: None,
    }
}

/// The spec to send for options: it pins the uid, which is the client's, and
/// carries the resolved integration.
pub fn spawn_spec_from(opts: SpawnOptions) -> (r: SpawnSpec)
    ensures
        r@ == spec_of(opts@),
{
    let (integration_args, integration_env) = match opts.integration {
        Some(i) => (i.args, i.env),
        None => {
            let args: Vec<String> = Vec::new();
            let env: EnvMap = StrMap::new();
            assert(views(args@) =~= Seq::<Seq<char>>::empty());
            (args, env)
        },
    };
    SpawnSpec {
        uid: Some(opts.uid),
        shell: opts.shell,
        command: opts.command,
        args: opts.args,
        cwd: opts.cwd,
        env: opts.env,
        cols: opts.cols,
        rows: opts.rows,
        pane_id: opts.pane_id,
        integration_args,
        integration_env,
        control_file: opts.control_file,
    }
}

impl SpawnSpec {
    /// The options of this spec, under `uid`.
    pub fn into_options(self, uid: String) -> (r: SpawnOptions)
        ensures
            r@ == options_of(self@, uid@),
    {
        let integration = if self.integration_args.len() == 0 && self.integration_env.is_empty() {
            None
        } else {
            Some(Integration { args: self.integration_args, env: self.integration_env })
        };
        SpawnOptions {
            uid,
            shell: self.shell,
            command: self.command,
            args: self.args,
            cwd: self.cwd,
            env: self.env,
            cols: self.cols,
            rows: self.rows,
            pane_id: self.pane_id,
            integration,
            control_file: self.control_file,
        }
    }
}

/// What is sent is what was asked for: the options that the daemon makes of a
/// spec are those that the spec was made of, but for an integration that adds
/// nothing.
pub proof fn law_spec_carries_the_options(o: OptionsView)
    ensures
        spec_of(o).uid == Some(o.uid),
        options_of(spec_of(o), o.uid).uid == o.uid,
        options_of(spec_of(o), o.uid).launch == o.launch,
        o.integration is None ==> options_of(spec_of(o), o.uid).integration is None,
        o.integration matches Some(i) ==> i.args.len() > 0 || i.env.len() > 0 ==> options_of(
            spec_of(o),
            o.uid,
        ).integration == o.integration,
{
}

// ---------------------------------------------------------------------------
// Messages
// ---------------------------------------------------------------------------

/// What a client asks of the daemon.
#[derive(Debug, Clone, PartialEq, Eq)]
pub enum ClientMsg {
    Hello { proto_ver: u32 },
    ListSessions,
    Attach { uid: String },
    Create(SpawnSpec),
    Write { uid: String, data: String },
    Resize { uid: String, cols: u16, rows: u16 },
    Kill { uid: String },
    KillAll,
    RenderScreen { uid: String },
    Ping,
    Claim { uid: String },
    Release { uid: String },
    ListClaims,
    Takeover,
    Shutdown,
}

/// What a client asks of the daemon.
pub enum ClientView {
    Hello { proto_ver: u32 },
    ListSessions,
    Attach { uid: Seq<char> },
    Create(SpecView),
    Write { uid: Seq<char>, data: Seq<char> },
    Resize { uid: Seq<char>, cols: u16, rows: u16 },
    Kill { uid: Seq<char> },
    KillAll,
    RenderScreen { uid: Seq<char> },
    Ping,
    Claim { uid: Seq<char> },
    Release { uid: Seq<char> },
    ListClaims,
    Takeover,
    Shutdown,
}

impl View for ClientMsg {
    type V = ClientView;

    open spec fn view(&self) -> ClientView {
        match self {
            ClientMsg::Hello { proto_ver } => ClientView::Hello { proto_ver: *proto_ver },
            ClientMsg::ListSessions => ClientView::ListSessions,
            ClientMsg::Attach { uid } => ClientView::Attach { uid: uid@ },
            ClientMsg::Create(spec) => ClientView::Create(spec@),
            ClientMsg::Write { uid, data } => ClientView::Write { uid: uid@, data: data@ },
            ClientMsg::Resize { uid, cols, rows } => ClientView::Resize {
                uid: uid@,
                cols: *cols,
                rows: *rows,
            },
            ClientMsg::Kill { uid } => ClientView::Kill { uid: uid@ },
            ClientMsg::KillAll => ClientView::KillAll,
            ClientMsg::RenderScreen { uid } => ClientView::RenderScreen { uid: uid@ },
            ClientMsg::Ping => ClientView::Ping,
            ClientMsg::Claim { uid } => ClientView::Claim { uid: uid@ },
            ClientMsg::Release { uid } => ClientView::Release { uid: uid@ },
            ClientMsg::ListClaims => ClientView::ListClaims,
            ClientMsg::Takeover => ClientView::Takeover,
            ClientMsg::Shutdown => ClientView::Shutdown,
        }
    }
}

/// What the daemon says to a client.
#[derive(Debug, Clone, PartialEq, Eq)]
pub enum DaemonMsg {
    /// The answer to a greeting. An empty build id is an unknown build, and the
    /// connection id 0 is none.
    Hello { proto_ver: u32, daemon_pid: u32, conn_id: u64, build_id: String },
    Sessions(Vec<SessionMeta>),
    Created { uid: String },
    /// What a session's buffer retains, and the output cursor at its end; 0
    /// where the daemon does not report one.
    Replay { uid: String, data: String, cursor: u64 },
    Screen { uid: String, text: Option<String> },
    Event(SessionEvent),
    Pong,
    /// The claim table, sent whenever it changes.
    Claims(Vec<ClaimInfo>),
    /// All sessions, sent whenever they change.
    SessionsChanged(Vec<SessionMeta>),
    ClaimResult { uid: String, granted: bool, owner: Option<u64> },
}

/// What the daemon says to a client.
pub enum DaemonView {
    Hello { proto_ver: u32, daemon_pid: u32, conn_id: u64, build_id: Seq<char> },
    Sessions(Seq<MetaView>),
    Created { uid: Seq<char> },
    Replay { uid: Seq<char>, data: Seq<char>, cursor: u64 },
    Screen { uid: Seq<char>, text: Option<Seq<char>> },
    Event(EventView),
    Pong,
    Claims(Claims),
    SessionsChanged(Seq<MetaView>),
    ClaimResult { uid: Seq<char>, granted: bool, owner: Option<u64> },
}

impl View for DaemonMsg {
    type V = DaemonView;

    open spec fn view(&self) -> DaemonView {
        match self {
            DaemonMsg::Hello { proto_ver, daemon_pid, conn_id, build_id } => DaemonView::Hello {
                proto_ver: *proto_ver,
                daemon_pid: *daemon_pid,
                conn_id: *conn_id,
                build_id: build_id@,
            },
            DaemonMsg::Sessions(v) => DaemonView::Sessions(meta_views(v@)),
            DaemonMsg::Created { uid } => DaemonView::Created { uid: uid@ },
            DaemonMsg::Replay { uid, data, cursor } => DaemonView::Replay {
                uid: uid@,
                data: data@,
                cursor: *cursor,
            },
            DaemonMsg::Screen { uid, text } => DaemonView::Screen {
                uid: uid@,
                text: opt_view(*text),
            },
            DaemonMsg::Event(ev) => DaemonView::Event(ev@),
            DaemonMsg::Pong => DaemonView::Pong,
            DaemonMsg::Claims(v) => DaemonView::Claims(claim_views(v@)),
            DaemonMsg::SessionsChanged(v) => DaemonView::SessionsChanged(meta_views(v@)),
            DaemonMsg::ClaimResult { uid, granted, owner } => DaemonView::ClaimResult {
                uid: uid@,
                granted: *granted,
                owner: *owner,
            },
        }
    }
}

/// The messages of a list.
pub open spec fn frame_views(v: Seq<DaemonMsg>) -> Seq<DaemonView> {
    Seq::new(v.len(), |i: int| v[i]@)
}

} // verus!
