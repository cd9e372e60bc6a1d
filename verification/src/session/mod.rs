//! Terminal sessions: what the daemon, its clients and the control-mode bridge
//! know of them, and how they talk about them.

pub mod adopt;
pub mod attach;
pub mod attach_laws;
pub mod batcher;
pub mod build_id;
pub mod claims;
pub mod client_laws;
pub mod control_mode;
pub mod cwd;
pub mod cwd_laws;
pub mod daemon;
pub mod daemon_client;
pub mod daemon_laws;
pub mod decode;
pub mod env;
pub mod fnv;
pub mod proto;
pub mod replay;
pub mod shadow;
pub mod view_laws;
