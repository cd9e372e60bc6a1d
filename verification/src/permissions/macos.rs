//! macOS gates every right. Three of them can be probed without side effects.

use crate::permissions::{Evidence, Grant, Opening, Right, Step, StepView};
use vstd::prelude::*;

verus! {

/// The name of a right.
pub open spec fn label_text(right: Right) -> Seq<char> {
    match right {
        Right::ScreenRecording => "Screen & System Audio Recording"@,
        Right::FullDiskAccess => "Full Disk Access"@,
        Right::Accessibility => "Accessibility"@,
        Right::Notifications => "Notifications"@,
        Right::Microphone => "Microphone"@,
        Right::Automation => "Automation"@,
    }
}

/// The name of a right.
pub fn label(right: Right) -> (r: &'static str)
    ensures
        r@ == label_text(right),
{
    match right {
        Right::ScreenRecording => "Screen & System Audio Recording",
        Right::FullDiskAccess => "Full Disk Access",
        Right::Accessibility => "Accessibility",
        Right::Notifications => "Notifications",
        Right::Microphone => "Microphone",
        Right::Automation => "Automation",
    }
}

/// The settings page of a right.
pub open spec fn settings(right: Right) -> Seq<char> {
    match right {
        Right::ScreenRecording => {
            "x-apple.systempreferences:com.apple.preference.security?Privacy_ScreenCapture"@
        },
        Right::FullDiskAccess => {
            "x-apple.systempreferences:com.apple.preference.security?Privacy_AllFiles"@
        },
        Right::Accessibility => {
            "x-apple.systempreferences:com.apple.preference.security?Privacy_Accessibility"@
        },
        Right::Microphone => {
            "x-apple.systempreferences:com.apple.preference.security?Privacy_Microphone"@
        },
        Right::Automation => {
            "x-apple.systempreferences:com.apple.preference.security?Privacy_Automation"@
        },
        Right::Notifications => {
            "x-apple.systempreferences:com.apple.preference.notifications"@
        },
    }
}

/// The settings page of a right.
pub fn settings_url(right: Right) -> (r: &'static str)
    ensures
        r@ == settings(right),
{
    match right {
        Right::ScreenRecording => {
            "x-apple.systempreferences:com.apple.preference.security?Privacy_ScreenCapture"
        },
        Right::FullDiskAccess => {
            "x-apple.systempreferences:com.apple.preference.security?Privacy_AllFiles"
        },
        Right::Accessibility => {
            "x-apple.systempreferences:com.apple.preference.security?Privacy_Accessibility"
        },
        Right::Microphone => {
            "x-apple.systempreferences:com.apple.preference.security?Privacy_Microphone"
        },
        Right::Automation => {
            "x-apple.systempreferences:com.apple.preference.security?Privacy_Automation"
        },
        Right::Notifications => {
            "x-apple.systempreferences:com.apple.preference.notifications"
        },
    }
}

/// Files below the home directory that only a process with full disk access
/// can open, the most telling first.
pub const FULL_DISK_PROBES: &'static [&'static str; 2] = &[
    "Library/Application Support/com.apple.TCC/TCC.db",
    "Library/Safari/Bookmarks.plist",
];

/// What openings of the protected files tell: the first that was opened or
/// refused decides, and any other tells nothing.
pub open spec fn openings_grant(v: Seq<Opening>) -> Grant
    decreases v.len(),
{
    if v.len() == 0 {
        Grant::Undetermined
    } else {
        match v[0] {
            Opening::Opened => Grant::Granted,
            Opening::Refused => Grant::Denied,
            Opening::Failed => openings_grant(v.skip(1)),
        }
    }
}

/// What is known of full disk access.
pub open spec fn full_disk_grant(openings: Option<Vec<Opening>>) -> Grant {
    match openings {
        Some(v) => openings_grant(v@),
        None => Grant::Undetermined,
    }
}

/// Where nothing was opened, nothing is granted.
pub proof fn lemma_no_opening(v: Seq<Opening>)
    requires
        forall|i: int| 0 <= i < v.len() ==> #[trigger] v[i] != Opening::Opened,
    ensures
        openings_grant(v) != Grant::Granted,
    decreases v.len(),
{
    if v.len() > 0 {
        assert forall|i: int| 0 <= i < v.skip(1).len() implies #[trigger] v.skip(1)[i]
            != Opening::Opened by {
            assert(v.skip(1)[i] == v[i + 1]);
        }
        lemma_no_opening(v.skip(1));
    }
}

/// What is known of full disk access, by what came of opening the protected
/// files in turn; not known, where the home directory is not.
pub fn full_disk_access(openings: &Option<Vec<Opening>>) -> (r: Grant)
    ensures
        r == full_disk_grant(*openings),
{
    let v = match openings {
        Some(v) => v,
        None => {
            return Grant::Undetermined;
        },
    };
    let mut i: usize = 0;
    assert(v@.skip(0) =~= v@);
    while i < v.len()
        invariant
            i <= v@.len(),
            full_disk_grant(*openings) == openings_grant(v@),
            openings_grant(v@) == openings_grant(v@.skip(i as int)),
        decreases v.len() - i,
    {
        assert(v@.skip(i as int).skip(1) =~= v@.skip(i + 1));
        match v[i] {
            Opening::Opened => {
                return Grant::Granted;
            },
            Opening::Refused => {
                return Grant::Denied;
            },
            Opening::Failed => {},
        }
        i = i + 1;
    }
    Grant::Undetermined
}

/// What a probe that says yes or not-yes tells: a no may only mean that nobody
/// asked.
pub open spec fn yes_or_unknown(yes: bool) -> Grant {
    if yes {
        Grant::Granted
    } else {
        Grant::Undetermined
    }
}

/// What is known of a right.
pub open spec fn grant(right: Right, e: Evidence) -> Grant {
    match right {
        Right::ScreenRecording => yes_or_unknown(e.screen_capture),
        Right::Accessibility => yes_or_unknown(e.trusted),
        Right::FullDiskAccess => full_disk_grant(e.openings),
        _ => Grant::Undetermined,
    }
}

fn told(yes: bool) -> (r: Grant)
    ensures
        r == yes_or_unknown(yes),
{
    if yes {
        Grant::Granted
    } else {
        Grant::Undetermined
    }
}

/// What is known of a right.
pub fn status(right: Right, e: &Evidence) -> (r: Grant)
    ensures
        r == grant(right, *e),
{
    match right {
        Right::ScreenRecording => told(e.screen_capture),
        Right::Accessibility => told(e.trusted),
        Right::FullDiskAccess => full_disk_access(&e.openings),
        Right::Notifications => Grant::Undetermined,
        Right::Microphone => Grant::Undetermined,
        Right::Automation => Grant::Undetermined,
    }
}

/// What is known of a right after the system's own dialog: `answered` says
/// whether the dialog for screen capture, the only one that is raised, was
/// answered with yes. Any other right has no dialog.
pub fn prompt(right: Right, e: &Evidence, answered: bool) -> (r: Grant)
    ensures
        r == (if right == Right::ScreenRecording && answered {
            Grant::Granted
        } else {
            grant(right, *e)
        }),
{
    if right == Right::ScreenRecording && answered {
        Grant::Granted
    } else {
        status(right, e)
    }
}

/// The settings page to open for a right.
pub fn request(right: Right) -> (r: Step)
    ensures
        r@ == StepView::Open(settings(right)),
{
    Step::Open(settings_url(right))
}

/// macOS gates every right.
pub proof fn law_every_right_is_gated(right: Right, e: Evidence)
    ensures
        grant(right, e) != Grant::NotApplicable,
{
    if let Some(v) = e.openings {
        lemma_gated(v@);
    }
}

proof fn lemma_gated(v: Seq<Opening>)
    ensures
        openings_grant(v) != Grant::NotApplicable,
    decreases v.len(),
{
    if v.len() > 0 {
        lemma_gated(v.skip(1));
    }
}

/// No two rights share a settings page.
pub proof fn law_settings_pages_are_distinct(a: Right, b: Right)
    requires
        settings(a) == settings(b),
    ensures
        a == b,
{
    reveal_strlit("x-apple.systempreferences:com.apple.preference.security?Privacy_ScreenCapture");
    reveal_strlit("x-apple.systempreferences:com.apple.preference.security?Privacy_AllFiles");
    reveal_strlit("x-apple.systempreferences:com.apple.preference.security?Privacy_Accessibility");
    reveal_strlit("x-apple.systempreferences:com.apple.preference.security?Privacy_Microphone");
    reveal_strlit("x-apple.systempreferences:com.apple.preference.security?Privacy_Automation");
    reveal_strlit("x-apple.systempreferences:com.apple.preference.notifications");
    assert("x-apple.systempreferences:com.apple.preference.security?Privacy_ScreenCapture"@.len() == 77);
    assert("x-apple.systempreferences:com.apple.preference.security?Privacy_AllFiles"@.len() == 72);
    assert("x-apple.systempreferences:com.apple.preference.security?Privacy_Accessibility"@.len() == 77);
    assert("x-apple.systempreferences:com.apple.preference.security?Privacy_Microphone"@.len() == 74);
    assert("x-apple.systempreferences:com.apple.preference.security?Privacy_Automation"@.len() == 74);
    assert("x-apple.systempreferences:com.apple.preference.notifications"@.len() == 60);
    assert("x-apple.systempreferences:com.apple.preference.security?Privacy_ScreenCapture"@[64] == 'S');
    assert("x-apple.systempreferences:com.apple.preference.security?Privacy_AllFiles"@[64] == 'A');
    assert("x-apple.systempreferences:com.apple.preference.security?Privacy_Accessibility"@[64] == 'A');
    assert("x-apple.systempreferences:com.apple.preference.security?Privacy_Microphone"@[64] == 'M');
    assert("x-apple.systempreferences:com.apple.preference.security?Privacy_Automation"@[64] == 'A');
}

/// The page of a right is named by what the right is for.
pub proof fn law_pages_are_named_by_their_right(right: Right)
    ensures
        ({
            let p = settings(right);
            let n = "x-apple.systempreferences:com.apple.preference.security?Privacy_"@.len() as int;
            match right {
                Right::ScreenRecording => p.skip(n) == "ScreenCapture"@,
                Right::FullDiskAccess => p.skip(n) == "AllFiles"@,
                Right::Accessibility => p.skip(n) == "Accessibility"@,
                Right::Microphone => p.skip(n) == "Microphone"@,
                Right::Automation => p.skip(n) == "Automation"@,
                Right::Notifications => p
                    == "x-apple.systempreferences:com.apple.preference.notifications"@,
            }
        }),
{
    reveal_strlit("x-apple.systempreferences:com.apple.preference.security?Privacy_");
    reveal_strlit("x-apple.systempreferences:com.apple.preference.security?Privacy_ScreenCapture");
    reveal_strlit("x-apple.systempreferences:com.apple.preference.security?Privacy_AllFiles");
    reveal_strlit("x-apple.systempreferences:com.apple.preference.security?Privacy_Accessibility");
    reveal_strlit("x-apple.systempreferences:com.apple.preference.security?Privacy_Microphone");
    reveal_strlit("x-apple.systempreferences:com.apple.preference.security?Privacy_Automation");
    reveal_strlit("ScreenCapture");
    reveal_strlit("AllFiles");
    reveal_strlit("Accessibility");
    reveal_strlit("Microphone");
    reveal_strlit("Automation");
    let p = settings(right);
    match right {
        Right::ScreenRecording => {
            assert(p.skip(64) =~= "ScreenCapture"@);
        },
        Right::FullDiskAccess => {
            assert(p.skip(64) =~= "AllFiles"@);
        },
        Right::Accessibility => {
            assert(p.skip(64) =~= "Accessibility"@);
        },
        Right::Microphone => {
            assert(p.skip(64) =~= "Microphone"@);
        },
        Right::Automation => {
            assert(p.skip(64) =~= "Automation"@);
        },
        Right::Notifications => {},
    }
}

} // verus!
