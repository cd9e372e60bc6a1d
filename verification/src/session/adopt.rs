//! Driving a terminal whose master descriptor was handed over by another
//! process.
//!
//! The child cannot be waited for: that the session ended shows as the end of
//! its output, and its exit code is not known.

use crate::session::attach::Fault;
use crate::text::owned;
use vstd::prelude::*;

verus! {

/// The exit code that is reported for such a session.
pub const UNKNOWN_EXIT: i32 = -1;

/// What is said of a terminal that was killed.
pub const KILLED: &'static str = "adopted pty was killed";

/// An adopted terminal: whether its master is still open, and the process group
/// that was in the foreground when it was handed over.
#[derive(Debug, Clone, Copy, PartialEq, Eq, Structural)]
pub struct AdoptedPty {
    pub open: bool,
    pub pgrp: Option<i32>,
}

/// A process group, by what the terminal answered: only a positive number is
/// one.
pub fn foreground_pgrp(answer: i32) -> (r: Option<i32>)
    ensures
        r == (if answer > 0 {
            Some(answer)
        } else {
            None
        }),
{
    if answer > 0 {
        Some(answer)
    } else {
        None
    }
}

/// The size that a terminal is given: at least one column and one row.
pub fn grid_size(cols: u16, rows: u16) -> (r: (u16, u16))
    ensures
        r.0 == (if cols == 0 {
            1
        } else {
            cols
        }),
        r.1 == (if rows == 0 {
            1
        } else {
            rows
        }),
{
    let c: u16 = if cols == 0 {
        1
    } else {
        cols
    };
    let r: u16 = if rows == 0 {
        1
    } else {
        rows
    };
    (c, r)
}

/// What is left of a write.
#[derive(Debug, Clone, Copy, PartialEq, Eq, Structural)]
pub enum WriteStep {
    /// Go on from here.
    Continue(usize),
    /// All of it is written.
    Done,
    /// It failed.
    Failed(Fault),
}

/// What follows a write of a part: an interruption is tried again from the same
/// place, and a partial write goes on where it stopped.
pub open spec fn after_write(total: usize, sent: usize, n: Result<usize, Fault>) -> WriteStep {
    match n {
        Ok(k) => if sent + k >= total {
            WriteStep::Done
        } else {
            WriteStep::Continue((sent + k) as usize)
        },
        Err(f) => if f == Fault::Interrupted {
            WriteStep::Continue(sent)
        } else {
            WriteStep::Failed(f)
        },
    }
}

/// What follows a write of a part.
pub fn write_step(total: usize, sent: usize, n: Result<usize, Fault>) -> (r: WriteStep)
    requires
        sent < total,
        n matches Ok(k) ==> k <= total - sent,
    ensures
        r == after_write(total, sent, n),
{
    match n {
        Ok(k) => {
            if sent + k >= total {
                WriteStep::Done
            } else {
                WriteStep::Continue(sent + k)
            }
        },
        Err(f) => {
            if f == Fault::Interrupted {
                WriteStep::Continue(sent)
            } else {
                WriteStep::Failed(f)
            }
        },
    }
}

/// What a read from the terminal comes to.
#[derive(Debug, Clone, Copy, PartialEq, Eq, Structural)]
pub enum ReadStep {
    /// So many bytes of output.
    Data(usize),
    /// Read again.
    Again,
    /// The session is over, with this code.
    Exit(i32),
}

/// What a read from the terminal comes to: the end of the output, and any
/// failure but an interruption, is the end of the session.
pub fn read_step(n: Result<usize, Fault>) -> (r: ReadStep)
    ensures
        r == (match n {
            Ok(k) => if k == 0 {
                ReadStep::Exit(UNKNOWN_EXIT)
            } else {
                ReadStep::Data(k)
            },
            Err(f) => if f == Fault::Interrupted {
                ReadStep::Again
            } else {
                ReadStep::Exit(UNKNOWN_EXIT)
            },
        }),
{
    match n {
        Ok(k) => {
            if k == 0 {
                ReadStep::Exit(UNKNOWN_EXIT)
            } else {
                ReadStep::Data(k)
            }
        },
        Err(f) => {
            if f == Fault::Interrupted {
                ReadStep::Again
            } else {
                ReadStep::Exit(UNKNOWN_EXIT)
            }
        },
    }
}

/// The process group to name: the one that is in the foreground now, else the
/// one that was at the handover.
pub open spec fn group_of(now: Option<i32>, earlier: Option<i32>) -> Option<i32> {
    match now {
        Some(g) => Some(g),
        None => earlier,
    }
}

impl AdoptedPty {
    /// A terminal that was handed over.
    pub fn new(pgrp: Option<i32>) -> (r: AdoptedPty)
        ensures
            r == (AdoptedPty { open: true, pgrp }),
    {
        AdoptedPty { open: true, pgrp }
    }

    /// Whether the master can be used; an error once the terminal was killed.
    pub fn check_open(&self) -> (r: Result<(), String>)
        ensures
            match r {
                Ok(()) => self.open,
                Err(e) => !self.open && e@ == KILLED@,
            },
    {
        if self.open {
            Ok(())
        } else {
            Err(owned(KILLED))
        }
    }

    /// Kills the session by hanging its terminal up. Returns, the first time,
    /// the process group to signal before the master is closed; a second call
    /// does nothing.
    pub fn kill(&mut self, foreground: Option<i32>) -> (r: Option<Option<i32>>)
        ensures
            !final(self).open,
            final(self).pgrp == old(self).pgrp,
            r == (if old(self).open {
                Some(group_of(foreground, old(self).pgrp))
            } else {
                None
            }),
    {
        if !self.open {
            return None;
        }
        self.open = false;
        match foreground {
            Some(g) => Some(Some(g)),
            None => Some(self.pgrp),
        }
    }

    /// What a successor is told, so that the session can be handed on again:
    /// the process group, where the master is still open.
    pub fn handoff_info(&self, foreground: Option<i32>) -> (r: Option<Option<i32>>)
        ensures
            r == (if self.open {
                Some(group_of(foreground, self.pgrp))
            } else {
                None
            }),
    {
        if !self.open {
            return None;
        }
        match foreground {
            Some(g) => Some(Some(g)),
            None => Some(self.pgrp),
        }
    }
}

} // verus!
