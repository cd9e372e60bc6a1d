//! The rules of a terminal multiplexer: sessions and their daemon, the control
//! mode that other terminals speak, and what is kept on disk.
//!
//! The modules compute and decide. What reads files, talks over sockets or runs
//! processes hands them plain values and carries out what they say.

pub mod assoc;
pub mod permissions;
pub mod persistence;
pub mod platform;
pub mod resume_queue;
pub mod session;
pub mod text;
pub mod text_laws;
