//! Windows gates few rights, and each of those has a settings page.

use crate::permissions::{refusal, refused, Grant, Right, Step, StepView};
use vstd::prelude::*;

verus! {

/// The name of a right.
pub open spec fn label_text(right: Right) -> Seq<char> {
    match right {
        Right::ScreenRecording => "Screen recording"@,
        Right::FullDiskAccess => "File system access"@,
        Right::Accessibility => "Accessibility"@,
        Right::Notifications => "Notifications"@,
        Right::Microphone => "Microphone"@,
        Right::Automation => "Automation"@,
    }
}

/// The name of a right.
pub fn label(right: Right) -> (r: &'static str)
    ensures
        r@ == label_text(right),
{
    match right {
        Right::ScreenRecording => "Screen recording",
        Right::FullDiskAccess => "File system access",
        Right::Accessibility => "Accessibility",
        Right::Notifications => "Notifications",
        Right::Microphone => "Microphone",
        Right::Automation => "Automation",
    }
}

/// The settings page of a right, where it is gated.
pub open spec fn settings(right: Right) -> Option<Seq<char>> {
    match right {
        Right::Notifications => Some("ms-settings:notifications"@),
        Right::Microphone => Some("ms-settings:privacy-microphone"@),
        _ => None,
    }
}

/// The settings page of a right, where it is gated.
pub fn settings_url(right: Right) -> (r: Option<&'static str>)
    ensures
        match r {
            Some(u) => settings(right) == Some(u@),
            None => settings(right) is None,
        },
{
    match right {
        Right::Notifications => Some("ms-settings:notifications"),
        Right::Microphone => Some("ms-settings:privacy-microphone"),
        Right::ScreenRecording => None,
        Right::FullDiskAccess => None,
        Right::Accessibility => None,
        Right::Automation => None,
    }
}

/// What is known of a right: it is gated exactly where it has a settings page.
pub open spec fn grant(right: Right) -> Grant {
    if settings(right) is Some {
        Grant::Undetermined
    } else {
        Grant::NotApplicable
    }
}

/// What is known of a right.
pub fn status(right: Right) -> (r: Grant)
    ensures
        r == grant(right),
{
    match settings_url(right) {
        Some(_) => Grant::Undetermined,
        None => Grant::NotApplicable,
    }
}

/// How to take the user to where a right is granted.
pub open spec fn step(right: Right) -> Result<StepView, Seq<char>> {
    match settings(right) {
        Some(u) => Ok(StepView::Open(u)),
        None => Err(refusal(right, " is not gated on Windows"@)),
    }
}

/// How to take the user to where a right is granted.
pub fn request(right: Right) -> (r: Result<Step, String>)
    ensures
        crate::permissions::step_result(r) == step(right),
{
    match settings_url(right) {
        Some(u) => Ok(Step::Open(u)),
        None => Err(refused(right, " is not gated on Windows")),
    }
}

} // verus!
