//! Linux and other Unixes. Nothing is gated under X11; under Wayland the
//! desktop portal asks by itself when a capture starts.

use crate::permissions::{refusal, refused, Grant, Right, Step, StepView};
use vstd::prelude::*;

verus! {

/// The name of a right.
pub open spec fn label_text(right: Right) -> Seq<char> {
    match right {
        Right::ScreenRecording => "Screen capture"@,
        Right::FullDiskAccess => "File access"@,
        Right::Accessibility => "Accessibility"@,
        Right::Notifications => "Notifications"@,
        Right::Microphone => "Microphone"@,
        Right::Automation => "Automation"@,
    }
}

/// The name of a right.
pub fn label(right: Right) -> (r: &'static str)
    ensures
        r@ == label_text(right),
{
    match right {
        Right::ScreenRecording => "Screen capture",
        Right::FullDiskAccess => "File access",
        Right::Accessibility => "Accessibility",
        Right::Notifications => "Notifications",
        Right::Microphone => "Microphone",
        Right::Automation => "Automation",
    }
}

/// Whether the session runs under Wayland, by the value of `WAYLAND_DISPLAY`.
pub fn is_wayland(display: Option<&str>) -> (r: bool)
    ensures
        r == (display matches Some(d) && d@.len() > 0),
{
    match display {
        Some(d) => !d.is_empty(),
        None => false,
    }
}

/// What is known of a right: only screen capture under Wayland is gated.
pub open spec fn grant(right: Right, wayland: bool) -> Grant {
    if right == Right::ScreenRecording && wayland {
        Grant::Undetermined
    } else {
        Grant::NotApplicable
    }
}

/// What is known of a right.
pub fn status(right: Right, wayland: bool) -> (r: Grant)
    ensures
        r == grant(right, wayland),
{
    if right == Right::ScreenRecording && wayland {
        Grant::Undetermined
    } else {
        Grant::NotApplicable
    }
}

/// What is known of a right after the system had the chance to ask: the portal
/// asks when the capture starts, so nothing is asked ahead of it.
pub fn prompt(right: Right, wayland: bool) -> (r: Grant)
    ensures
        r == grant(right, wayland),
{
    status(right, wayland)
}

/// How to take the user to where a right is granted.
pub open spec fn step(right: Right, wayland: bool) -> Result<StepView, Seq<char>> {
    if grant(right, wayland) == Grant::NotApplicable {
        Err(refusal(right, " is not gated on this desktop"@))
    } else {
        Ok(StepView::Nothing)
    }
}

/// How to take the user to where a right is granted.
pub fn request(right: Right, wayland: bool) -> (r: Result<Step, String>)
    ensures
        crate::permissions::step_result(r) == step(right, wayland),
{
    if right == Right::ScreenRecording && wayland {
        Ok(Step::Nothing)
    } else {
        Err(refused(right, " is not gated on this desktop"))
    }
}

} // verus!
