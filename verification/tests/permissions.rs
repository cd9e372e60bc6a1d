//! The rights that an operating system gates.

use hyperpanes_core::permissions::{
    linux, macos, request, status, windows, Evidence, Grant, Opening, Right, Step,
};
use hyperpanes_core::platform::Platform;

const PLATFORMS: [Platform; 3] = [Platform::Windows, Platform::Macos, Platform::Linux];

/// What a machine says on which nothing was granted.
fn nothing(platform: Platform, wayland: bool) -> Evidence {
    Evidence { platform, wayland, screen_capture: false, trusted: false, openings: None }
}

/// Each combination of what the probes can say on macOS.
fn macos_evidence() -> Vec<Evidence> {
    let mut all = Vec::new();
    for screen_capture in [false, true] {
        for trusted in [false, true] {
            for openings in [
                None,
                Some(vec![]),
                Some(vec![Opening::Opened]),
                Some(vec![Opening::Refused]),
                Some(vec![Opening::Failed, Opening::Failed]),
                Some(vec![Opening::Failed, Opening::Opened]),
            ] {
                all.push(Evidence {
                    platform: Platform::Macos,
                    wayland: false,
                    screen_capture,
                    trusted,
                    openings,
                });
            }
        }
    }
    all
}

#[test]
fn only_wayland_screen_capture_is_ever_gated() {
    for wayland in [false, true] {
        for r in Right::all() {
            if *r == Right::ScreenRecording {
                continue;
            }
            assert_eq!(linux::status(*r, wayland), Grant::NotApplicable, "{:?}", r);
        }
    }
    assert_eq!(linux::status(Right::ScreenRecording, true), Grant::Undetermined);
    assert_eq!(linux::status(Right::ScreenRecording, false), Grant::NotApplicable);
}

#[test]
fn every_right_deep_links_somewhere_distinct() {
    let mut urls: Vec<&str> = Right::all().iter().map(|r| macos::settings_url(*r)).collect();
    let before = urls.len();
    urls.sort_unstable();
    urls.dedup();
    assert_eq!(before, urls.len(), "each right needs its own pane");
    for r in Right::all() {
        assert!(
            macos::settings_url(*r).starts_with("x-apple.systempreferences:"),
            "{:?}",
            r
        );
    }
}

#[test]
fn the_preflight_probes_run_and_agree_with_themselves() {
    for e in macos_evidence() {
        for r in Right::all() {
            let g = macos::status(*r, &e);
            assert_eq!(g, macos::status(*r, &e), "{:?} must not flap", r);
            assert_ne!(g, Grant::NotApplicable, "{:?} is a TCC gate", r);
        }
    }
}

#[test]
fn full_disk_access_is_decided_without_reading_anything() {
    for e in macos_evidence() {
        assert_ne!(macos::full_disk_access(&e.openings), Grant::NotApplicable);
    }
}

#[test]
fn prompting_a_right_with_no_dialog_is_just_a_status_read() {
    for e in macos_evidence() {
        for r in Right::all() {
            if *r == Right::ScreenRecording {
                continue;
            }
            assert_eq!(macos::prompt(*r, &e, false), macos::status(*r, &e), "{:?}", r);
            assert_eq!(macos::prompt(*r, &e, true), macos::status(*r, &e), "{:?}", r);
        }
    }
}

#[test]
fn an_answered_dialog_grants_screen_capture() {
    let e = nothing(Platform::Macos, false);
    assert_eq!(macos::prompt(Right::ScreenRecording, &e, true), Grant::Granted);
    assert_eq!(macos::prompt(Right::ScreenRecording, &e, false), Grant::Undetermined);
}

#[test]
fn the_first_telling_file_decides_full_disk_access() {
    let of = |v: Vec<Opening>| macos::full_disk_access(&Some(v));
    assert_eq!(of(vec![Opening::Opened, Opening::Refused]), Grant::Granted);
    assert_eq!(of(vec![Opening::Refused, Opening::Opened]), Grant::Denied);
    assert_eq!(of(vec![Opening::Failed, Opening::Refused]), Grant::Denied);
    assert_eq!(of(vec![Opening::Failed, Opening::Failed]), Grant::Undetermined);
    assert_eq!(macos::full_disk_access(&None), Grant::Undetermined);
}

#[test]
fn a_probe_that_says_yes_grants() {
    let mut e = nothing(Platform::Macos, false);
    e.screen_capture = true;
    assert_eq!(status(Right::ScreenRecording, &e), Grant::Granted);
    assert_eq!(status(Right::Accessibility, &e), Grant::Undetermined);
    e.trusted = true;
    assert_eq!(status(Right::Accessibility, &e), Grant::Granted);
    assert_eq!(status(Right::Microphone, &e), Grant::Undetermined);
}

#[test]
fn every_right_has_a_unique_id_and_a_label() {
    let mut ids: Vec<&str> = Right::all().iter().map(|r| r.id()).collect();
    let before = ids.len();
    ids.sort_unstable();
    ids.dedup();
    assert_eq!(before, ids.len(), "ids must be unique");
    for p in PLATFORMS {
        for r in Right::all() {
            assert!(!r.label(p).is_empty(), "{:?}", r);
            assert!(!r.id().contains(' '), "{:?} ids are slugs", r);
        }
    }
}

#[test]
fn a_label_is_in_the_words_of_its_system() {
    assert_eq!(Right::ScreenRecording.label(Platform::Macos), "Screen & System Audio Recording");
    assert_eq!(Right::ScreenRecording.label(Platform::Windows), "Screen recording");
    assert_eq!(Right::ScreenRecording.label(Platform::Linux), "Screen capture");
    assert_eq!(Right::FullDiskAccess.label(Platform::Windows), "File system access");
}

#[test]
fn status_never_panics_and_never_claims_a_grant_we_have_not_checked() {
    for p in PLATFORMS {
        for wayland in [false, true] {
            for r in Right::all() {
                let g = status(*r, &nothing(p, wayland));
                assert_ne!(
                    g,
                    Grant::Granted,
                    "{:?}: no probe said yes, so a Granted here would be a lie",
                    r
                );
            }
        }
    }
}

#[test]
fn a_right_this_os_does_not_gate_refuses_to_be_requested() {
    for p in PLATFORMS {
        for wayland in [false, true] {
            let e = nothing(p, wayland);
            for r in Right::all() {
                if status(*r, &e) == Grant::NotApplicable {
                    let err = request(*r, &e).unwrap_err();
                    assert!(err.contains(r.id()), "{err}");
                } else {
                    assert!(request(*r, &e).is_ok(), "{:?}", r);
                }
            }
        }
    }
}

#[test]
fn a_request_says_where_to_go() {
    assert_eq!(
        request(Right::Microphone, &nothing(Platform::Macos, false)),
        Ok(Step::Open(
            "x-apple.systempreferences:com.apple.preference.security?Privacy_Microphone"
        ))
    );
    assert_eq!(
        request(Right::Notifications, &nothing(Platform::Windows, false)),
        Ok(Step::Open("ms-settings:notifications"))
    );
    assert_eq!(
        request(Right::ScreenRecording, &nothing(Platform::Linux, true)),
        Ok(Step::Nothing)
    );
    assert_eq!(
        request(Right::ScreenRecording, &nothing(Platform::Linux, false)),
        Err("screen-recording is not a permission on this operating system".to_string())
    );
    assert_eq!(
        linux::request(Right::Microphone, true),
        Err("microphone is not gated on this desktop".to_string())
    );
}

#[test]
fn settled_means_no_affordance_is_needed() {
    assert!(Grant::Granted.is_settled());
    assert!(Grant::NotApplicable.is_settled());
    assert!(!Grant::Denied.is_settled());
    assert!(!Grant::Undetermined.is_settled());
}

#[test]
fn the_gated_rights_are_exactly_the_ones_with_a_settings_pane() {
    for r in Right::all() {
        let gated = windows::settings_url(*r).is_some();
        assert_eq!(gated, windows::status(*r) == Grant::Undetermined, "{:?}", r);
        assert_eq!(!gated, windows::status(*r) == Grant::NotApplicable, "{:?}", r);
    }
}

#[test]
fn wayland_is_a_display_with_a_name() {
    assert!(linux::is_wayland(Some("wayland-0")));
    assert!(!linux::is_wayland(Some("")));
    assert!(!linux::is_wayland(None));
}

#[test]
fn asking_ahead_of_the_portal_is_a_status_read() {
    for r in Right::all() {
        assert_eq!(linux::prompt(*r, true), linux::status(*r, true));
    }
}
