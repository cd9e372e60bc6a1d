//! tmux control mode (`-CC`), the server half.
//!
//! A control-mode client drives the multiplexer over a line protocol and draws
//! each pane as a native tab. [`ControlServer`] speaks the server side: it takes
//! command lines and pane events and answers with lines of bytes and with the
//! work to be done. It opens no socket and reads no terminal.
//!
//! One tmux window stands for one pane, and all windows belong to one tmux
//! session. Clients cache ids, so [`IdMap`] derives them from the pane's uid.
//!
//! - [`wire`]: the escaping of `%output`, the envelope, the layout strings.
//! - [`ids`]: uids to tmux ids and back.
//! - [`lex`] and [`args`]: a command line to words, flags and values.
//! - [`keys`]: key names to the bytes that a terminal sends.
//! - [`options`]: the `@name` options that clients store.
//! - [`pane`], [`state`] and [`format`](mod@format): panes, the server's state,
//!   and what `#{...}` stands for in it.
//! - [`commands`] and [`server`]: each command, and the blocks and notifications
//!   around them.
//! - [`args_laws`], [`key_laws`], [`format_laws`] and [`variable_laws`]: what holds
//!   of flags and words, of keys, of templates and of their variables.
//! - [`command_laws`], [`answer_laws`] and [`name_laws`]: what holds of single
//!   commands, of what they answer and of their names.
//! - [`wire_laws`] and [`stream_laws`]: what holds of what is written.
//! - [`laws`]: what holds of the server as a whole.

pub mod answer_laws;
pub mod args;
pub mod args_laws;
pub mod clock;
pub mod command_laws;
pub mod commands;
pub mod format;
pub mod format_laws;
pub mod ids;
pub mod key_laws;
pub mod keys;
pub mod laws;
pub mod lex;
pub mod name_laws;
pub mod options;
pub mod pane;
pub mod server;
pub mod state;
pub mod stream_laws;
pub mod variable_laws;
pub mod wire;
pub mod wire_laws;

pub use args::Args;
pub use clock::Clock;
pub use format::{FmtCtx, CLAIMED_VERSION};
pub use ids::{hash31, IdMap};
pub use keys::key_name_to_bytes;
pub use lex::{quote_option_value, split_words};
pub use pane::{Action, ControlMode, PaneInfo, Reaction};
pub use server::{wants_screen_refresh, ControlServer};
pub use wire::{escape_output, layout_checksum, needs_newline, single_pane_layout,
    unescape_output, Line, DCS_CLOSE, DCS_OPEN};
