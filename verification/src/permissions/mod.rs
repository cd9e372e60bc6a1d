//! The rights that an operating system gates: which there are, what is known of
//! each, and where the user can grant it.
//!
//! What the system answers to a probe is handed in as [`Evidence`]. An answer
//! that could mean two things is [`Grant::Undetermined`]: a wrong `Granted`
//! would be worse than an honest "not known".

use crate::platform::Platform;
use crate::text::owned;
use vstd::prelude::*;
use vstd::string::*;

pub mod linux;
pub mod macos;
pub mod windows;

verus! {

/// A capability that an operating system may gate.
#[derive(Debug, Clone, Copy, PartialEq, Eq, Hash, Structural)]
pub enum Right {
    /// Capture the screen.
    ScreenRecording,
    /// Read files that the system protects.
    FullDiskAccess,
    /// Synthesize and observe input.
    Accessibility,
    /// Post notifications.
    Notifications,
    /// Record audio.
    Microphone,
    /// Drive another application.
    Automation,
}

/// Every right, in a stable order.
pub const ALL_RIGHTS: &'static [Right; 6] = &[
    Right::ScreenRecording,
    Right::FullDiskAccess,
    Right::Accessibility,
    Right::Notifications,
    Right::Microphone,
    Right::Automation,
];

/// The identifier of a right.
pub open spec fn right_id(right: Right) -> Seq<char> {
    match right {
        Right::ScreenRecording => "screen-recording"@,
        Right::FullDiskAccess => "full-disk-access"@,
        Right::Accessibility => "accessibility"@,
        Right::Notifications => "notifications"@,
        Right::Microphone => "microphone"@,
        Right::Automation => "automation"@,
    }
}

/// The name of a right, in the words of an operating system.
pub open spec fn right_label(right: Right, platform: Platform) -> Seq<char> {
    match platform {
        Platform::Windows => windows::label_text(right),
        Platform::Macos => macos::label_text(right),
        Platform::Linux => linux::label_text(right),
    }
}

impl Right {
    /// The identifier, for logs and settings.
    pub fn id(self) -> (r: &'static str)
        ensures
            r@ == right_id(self),
    {
        match self {
            Right::ScreenRecording => "screen-recording",
            Right::FullDiskAccess => "full-disk-access",
            Right::Accessibility => "accessibility",
            Right::Notifications => "notifications",
            Right::Microphone => "microphone",
            Right::Automation => "automation",
        }
    }

    /// The name, in the words of the operating system.
    pub fn label(self, platform: Platform) -> (r: &'static str)
        ensures
            r@ == right_label(self, platform),
    {
        match platform {
            Platform::Windows => windows::label(self),
            Platform::Macos => macos::label(self),
            Platform::Linux => linux::label(self),
        }
    }

    /// Every right, in a stable order.
    pub fn all() -> (r: &'static [Right; 6])
        ensures
            r@ == ALL_RIGHTS@,
    {
        ALL_RIGHTS
    }
}

/// What is known of a right.
#[derive(Debug, Clone, Copy, PartialEq, Eq, Structural)]
pub enum Grant {
    Granted,
    Denied,
    /// The system gates it, and the answer is not known.
    Undetermined,
    /// The system does not gate it: the capability is simply there.
    NotApplicable,
}

/// Whether nothing is left to ask for.
pub open spec fn settled(grant: Grant) -> bool {
    grant == Grant::Granted || grant == Grant::NotApplicable
}

impl Grant {
    /// Whether there is no point in offering to grant the right: it is there,
    /// or it is never gated.
    pub fn is_settled(self) -> (r: bool)
        ensures
            r == settled(self),
    {
        match self {
            Grant::Granted => true,
            Grant::NotApplicable => true,
            Grant::Denied => false,
            Grant::Undetermined => false,
        }
    }
}

/// What came of opening a file that only a privileged process can open.
#[derive(Debug, Clone, Copy, PartialEq, Eq, Structural)]
pub enum Opening {
    Opened,
    /// Refused for want of a permission.
    Refused,
    /// Not there, or something else.
    Failed,
}

/// What the system answered to the probes.
pub struct Evidence {
    pub platform: Platform,
    /// The session runs under Wayland.
    pub wayland: bool,
    /// The screen may be captured, as far as the system says.
    pub screen_capture: bool,
    /// The process is trusted with input, as far as the system says.
    pub trusted: bool,
    /// What came of opening the protected files, in turn; nothing, where the
    /// home directory is not known.
    pub openings: Option<Vec<Opening>>,
}

/// What is known of a right.
pub open spec fn known_grant(right: Right, e: Evidence) -> Grant {
    match e.platform {
        Platform::Windows => windows::grant(right),
        Platform::Macos => macos::grant(right, e),
        Platform::Linux => linux::grant(right, e.wayland),
    }
}

/// What is known of a right.
pub fn status(right: Right, e: &Evidence) -> (r: Grant)
    ensures
        r == known_grant(right, *e),
{
    match e.platform {
        Platform::Windows => windows::status(right),
        Platform::Macos => macos::status(right, e),
        Platform::Linux => linux::status(right, e.wayland),
    }
}

/// How to take the user to where a right is granted.
#[derive(Debug, Clone, Copy, PartialEq, Eq)]
pub enum Step {
    /// Open this settings URL.
    Open(&'static str),
    /// Nothing: the system asks by itself when the right is used.
    Nothing,
}

/// How to take the user to where a right is granted.
pub enum StepView {
    Open(Seq<char>),
    Nothing,
}

impl View for Step {
    type V = StepView;

    open spec fn view(&self) -> StepView {
        match self {
            Step::Open(url) => StepView::Open(url@),
            Step::Nothing => StepView::Nothing,
        }
    }
}

/// A step, or why there is none.
pub open spec fn step_result(r: Result<Step, String>) -> Result<StepView, Seq<char>> {
    match r {
        Ok(s) => Ok(s@),
        Err(e) => Err(e@),
    }
}

/// What is refused for not being gated.
pub open spec fn refusal(right: Right, words: Seq<char>) -> Seq<char> {
    right_id(right) + words
}

/// How to take the user to where a right can be granted.
pub open spec fn request_step(right: Right, e: Evidence) -> Result<StepView, Seq<char>> {
    if known_grant(right, e) == Grant::NotApplicable {
        Err(refusal(right, " is not a permission on this operating system"@))
    } else {
        match e.platform {
            Platform::Windows => windows::step(right),
            Platform::Macos => Ok(StepView::Open(macos::settings(right))),
            Platform::Linux => linux::step(right, e.wayland),
        }
    }
}

/// How to take the user to where a right can be granted. A right that the
/// system does not gate is refused.
pub fn request(right: Right, e: &Evidence) -> (r: Result<Step, String>)
    ensures
        step_result(r) == request_step(right, *e),
{
    let g = status(right, e);
    if g == Grant::NotApplicable {
        return Err(refused(right, " is not a permission on this operating system"));
    }
    match e.platform {
        Platform::Windows => windows::request(right),
        Platform::Macos => Ok(macos::request(right)),
        Platform::Linux => linux::request(right, e.wayland),
    }
}

/// The words in which a right is refused.
pub fn refused(right: Right, words: &str) -> (r: String)
    ensures
        r@ == refusal(right, words@),
{
    let mut s = owned(right.id());
    s.append(words);
    s
}

// ---------------------------------------------------------------------------
// Laws
// ---------------------------------------------------------------------------

/// No two rights have one identifier.
pub proof fn law_ids_are_unique(a: Right, b: Right)
    requires
        right_id(a) == right_id(b),
    ensures
        a == b,
{
    reveal_strlit("screen-recording");
    reveal_strlit("full-disk-access");
    reveal_strlit("accessibility");
    reveal_strlit("notifications");
    reveal_strlit("microphone");
    reveal_strlit("automation");
    assert("screen-recording"@.len() == 16 && "screen-recording"@[0] == 's');
    assert("full-disk-access"@.len() == 16 && "full-disk-access"@[0] == 'f');
    assert("accessibility"@.len() == 13 && "accessibility"@[0] == 'a');
    assert("notifications"@.len() == 13 && "notifications"@[0] == 'n');
    assert("microphone"@.len() == 10 && "microphone"@[0] == 'm');
    assert("automation"@.len() == 10 && "automation"@[0] == 'a');
}

/// A right can be requested exactly where the system gates it, and where it is
/// refused the words name it.
pub proof fn law_only_gated_rights_are_requested(right: Right, e: Evidence)
    ensures
        request_step(right, e) is Ok <==> known_grant(right, e) != Grant::NotApplicable,
        request_step(right, e) matches Err(words) ==> words == refusal(
            right,
            " is not a permission on this operating system"@,
        ),
{
}

/// A right is granted only where a probe said so.
pub proof fn law_no_grant_without_evidence(right: Right, e: Evidence)
    requires
        !e.screen_capture,
        !e.trusted,
        e.openings matches Some(v) ==> forall|i: int|
            0 <= i < v@.len() ==> #[trigger] v@[i] != Opening::Opened,
    ensures
        known_grant(right, e) != Grant::Granted,
{
    if let Some(v) = e.openings {
        macos::lemma_no_opening(v@);
    }
}

/// On macOS a probe that says yes grants its own right and no other.
pub proof fn law_probe_grants_its_right(e: Evidence)
    requires
        e.platform == Platform::Macos,
    ensures
        known_grant(Right::ScreenRecording, e) == Grant::Granted <==> e.screen_capture,
        known_grant(Right::Accessibility, e) == Grant::Granted <==> e.trusted,
        known_grant(Right::ScreenRecording, e) != Grant::Denied,
        known_grant(Right::Accessibility, e) != Grant::Denied,
        known_grant(Right::Notifications, e) == Grant::Undetermined,
        known_grant(Right::Microphone, e) == Grant::Undetermined,
        known_grant(Right::Automation, e) == Grant::Undetermined,
{
}

/// Of the protected files the first that tells decides: an opened one grants,
/// a refused one denies, and what comes behind it does not matter.
pub proof fn law_first_telling_file_decides(before: Seq<Opening>, after: Seq<Opening>)
    requires
        forall|i: int| 0 <= i < before.len() ==> #[trigger] before[i] == Opening::Failed,
    ensures
        macos::openings_grant(before + seq![Opening::Opened] + after) == Grant::Granted,
        macos::openings_grant(before + seq![Opening::Refused] + after) == Grant::Denied,
        macos::openings_grant(before) == Grant::Undetermined,
    decreases before.len(),
{
    let a = before + seq![Opening::Opened] + after;
    let b = before + seq![Opening::Refused] + after;
    if before.len() > 0 {
        let t = before.skip(1);
        assert forall|i: int| 0 <= i < t.len() implies #[trigger] t[i] == Opening::Failed by {
            assert(t[i] == before[i + 1]);
        }
        law_first_telling_file_decides(t, after);
        assert(a.skip(1) =~= t + seq![Opening::Opened] + after);
        assert(b.skip(1) =~= t + seq![Opening::Refused] + after);
        assert(a[0] == Opening::Failed && b[0] == Opening::Failed);
        assert(before[0] == Opening::Failed);
    } else {
        assert(a[0] == Opening::Opened && b[0] == Opening::Refused);
    }
}

/// Windows gates notifications and the microphone, Linux the screen under
/// Wayland, and neither anything else.
pub proof fn law_few_rights_are_gated_elsewhere(right: Right, e: Evidence)
    ensures
        e.platform == Platform::Windows ==> (known_grant(right, e) == Grant::NotApplicable <==> !(
        right == Right::Notifications || right == Right::Microphone)),
        e.platform == Platform::Linux ==> (known_grant(right, e) == Grant::NotApplicable <==> !(
        right == Right::ScreenRecording && e.wayland)),
        e.platform != Platform::Macos ==> known_grant(right, e) == Grant::NotApplicable
            || known_grant(right, e) == Grant::Undetermined,
{
}

/// Something is left to ask for exactly where a right was denied or nothing is
/// known of it.
pub proof fn law_settled_means_nothing_to_ask(grant: Grant)
    ensures
        settled(grant) <==> grant != Grant::Denied && grant != Grant::Undetermined,
{
}

/// A refusal begins with the identifier of the right.
pub proof fn law_refusal_names_the_right(right: Right, words: Seq<char>)
    ensures
        refusal(right, words).take(right_id(right).len() as int) == right_id(right),
        refusal(right, words).skip(right_id(right).len() as int) == words,
{
    let s = refusal(right, words);
    assert(s.take(right_id(right).len() as int) =~= right_id(right));
    assert(s.skip(right_id(right).len() as int) =~= words);
}

/// A request opens the page of the right that is asked for.
pub proof fn law_request_opens_the_page_of_the_right(right: Right, e: Evidence)
    ensures
        e.platform == Platform::Macos ==> request_step(right, e) == Ok::<StepView, Seq<char>>(
            StepView::Open(macos::settings(right)),
        ),
        e.platform == Platform::Windows && right == Right::Microphone ==> request_step(right, e)
            == Ok::<StepView, Seq<char>>(StepView::Open("ms-settings:privacy-microphone"@)),
        e.platform == Platform::Windows && right == Right::Notifications ==> request_step(right, e)
            == Ok::<StepView, Seq<char>>(StepView::Open("ms-settings:notifications"@)),
        e.platform == Platform::Linux && request_step(right, e) is Ok ==> request_step(right, e)
            == Ok::<StepView, Seq<char>>(StepView::Nothing),
{
    macos::law_every_right_is_gated(right, e);
}

/// Each right has its identifier.
pub proof fn law_rights_have_their_identifiers()
    ensures
        right_id(Right::ScreenRecording) == "screen-recording"@,
        right_id(Right::FullDiskAccess) == "full-disk-access"@,
        right_id(Right::Accessibility) == "accessibility"@,
        right_id(Right::Notifications) == "notifications"@,
        right_id(Right::Microphone) == "microphone"@,
        right_id(Right::Automation) == "automation"@,
{
}

/// Most rights are called alike everywhere; files and the screen are called in
/// the words of each system.
pub proof fn law_rights_are_called_alike(platform: Platform)
    ensures
        right_label(Right::Accessibility, platform) == "Accessibility"@,
        right_label(Right::Notifications, platform) == "Notifications"@,
        right_label(Right::Microphone, platform) == "Microphone"@,
        right_label(Right::Automation, platform) == "Automation"@,
        right_label(Right::FullDiskAccess, Platform::Macos) == "Full Disk Access"@,
        right_label(Right::FullDiskAccess, Platform::Windows) == "File system access"@,
        right_label(Right::FullDiskAccess, Platform::Linux) == "File access"@,
        right_label(Right::ScreenRecording, Platform::Macos)
            == "Screen & System Audio Recording"@,
        right_label(Right::ScreenRecording, Platform::Windows) == "Screen recording"@,
        right_label(Right::ScreenRecording, Platform::Linux) == "Screen capture"@,
{
}

} // verus!
