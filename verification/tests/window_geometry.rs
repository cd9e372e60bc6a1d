//! The frame that a window is restored to.

use hyperpanes_core::persistence::window_geometry::{
    from_fields, geometry_text, load_from, overlap_area, top_edge_visible, DisplayRect, WindowGeometry, MIN_H,
    MIN_VISIBLE, MIN_W,
};

fn frame(x: i64, y: i64, w: i64, h: i64) -> WindowGeometry {
    WindowGeometry {
        x: Some(x),
        y: Some(y),
        width: Some(w),
        height: Some(h),
        maximized: false,
    }
}

const LAPTOP: DisplayRect = DisplayRect {
    x: 0,
    y: 0,
    width: 1512,
    height: 982,
};
/// A monitor to the left of the laptop: its origin is negative.
const EXTERNAL: DisplayRect = DisplayRect {
    x: -3840,
    y: -400,
    width: 3840,
    height: 2160,
};

#[test]
fn a_frame_already_on_a_display_is_left_alone() {
    let g = frame(100, 60, 1280, 800);
    assert_eq!(g.clamp_to_displays(&[LAPTOP]), g);
}

#[test]
fn an_empty_display_list_never_clamps() {
    let g = frame(-9000, -9000, 1280, 800);
    assert_eq!(g.clamp_to_displays(&[]), g);
}

#[test]
fn a_frame_on_an_unplugged_monitor_lands_on_a_real_one() {
    let g = frame(-3000, -200, 2400, 1500);
    let c = g.clamp_to_displays(&[LAPTOP]);
    let (x, y) = c.position().unwrap();
    let (w, h) = c.size().unwrap();
    assert!(
        w <= LAPTOP.width && h <= LAPTOP.height,
        "shrunk to fit: {c:?}"
    );
    assert!(x >= LAPTOP.x && x + w <= LAPTOP.x + LAPTOP.width, "{c:?}");
    assert!((LAPTOP.y..LAPTOP.y + LAPTOP.height).contains(&y), "{c:?}");
}

#[test]
fn a_frame_on_a_still_attached_second_monitor_is_kept() {
    let g = frame(-3000, -200, 2400, 1500);
    assert_eq!(g.clamp_to_displays(&[LAPTOP, EXTERNAL]), g);
}

#[test]
fn a_frame_dragged_mostly_off_the_right_edge_keeps_a_grabbable_strip() {
    let g = frame(1500, 500, 1280, 800);
    let c = g.clamp_to_displays(&[LAPTOP]);
    let (x, _) = c.position().unwrap();
    assert!(x + MIN_VISIBLE <= LAPTOP.x + LAPTOP.width, "{c:?}");
}

#[test]
fn a_frame_dragged_above_the_top_edge_comes_back_down() {
    let g = frame(200, -600, 1280, 800);
    let c = g.clamp_to_displays(&[LAPTOP]);
    let (x, y) = c.position().unwrap();
    assert!((LAPTOP.y..LAPTOP.y + LAPTOP.height).contains(&y), "{c:?}");
    assert!(x >= LAPTOP.x, "{c:?}");
}

#[test]
fn clamping_preserves_the_maximized_flag() {
    let g = WindowGeometry {
        maximized: true,
        ..frame(-9000, -9000, 1280, 800)
    };
    assert!(g.clamp_to_displays(&[LAPTOP]).maximized);
}

#[test]
fn a_geometry_with_no_size_is_returned_untouched() {
    let g = WindowGeometry {
        x: Some(10),
        y: Some(10),
        ..Default::default()
    };
    assert_eq!(g.clamp_to_displays(&[LAPTOP]), g);
}

#[test]
fn missing_file_yields_nothing_remembered() {
    assert_eq!(load_from(None), WindowGeometry::default());
}

#[test]
fn corrupt_file_yields_nothing_remembered() {
    assert_eq!(load_from(Some("{ not json")), WindowGeometry::default());
}

#[test]
fn zero_or_negative_extents_load_as_unset() {
    let g = load_from(Some(r#"{ "x": 5, "y": 5, "width": 0, "height": -20 }"#));
    assert_eq!(g.size(), None);
    assert_eq!(g.position(), Some((5, 5)));
}

#[test]
fn a_written_frame_reads_back() {
    let text = "{\n  \"x\": -1200,\n  \"y\": 40,\n  \"width\": 1440,\n  \"height\": 900,\n  \"maximized\": true\n}";
    let g = WindowGeometry { maximized: true, ..frame(-1200, 40, 1440, 900) };
    assert_eq!(load_from(Some(text)), g);
    assert_eq!(from_fields(g.x, g.y, g.width, g.height, Some(true)), g);
}

#[test]
fn the_display_that_shares_most_takes_the_frame() {
    let g = frame(-1000, 900, 1200, 800);
    assert!(
        overlap_area(-1000, 900, 1200, 800, &EXTERNAL)
            > overlap_area(-1000, 900, 1200, 800, &LAPTOP)
    );
    assert_eq!(overlap_area(-1000, 900, 1200, 800, &LAPTOP), 200 * 82);
    assert_eq!(g.clamp_to_displays(&[LAPTOP, EXTERNAL]), g);
}

#[test]
fn with_no_overlap_the_first_display_takes_the_frame() {
    let g = frame(90_000, 90_000, 1280, 800);
    let c = g.clamp_to_displays(&[LAPTOP, EXTERNAL]);
    let (x, y) = c.position().unwrap();
    assert!((LAPTOP.x..LAPTOP.x + LAPTOP.width).contains(&x), "{c:?}");
    assert!((LAPTOP.y..LAPTOP.y + LAPTOP.height).contains(&y), "{c:?}");
}

#[test]
fn clamping_twice_is_clamping_once() {
    for g in [frame(-3000, -200, 2400, 1500), frame(1500, 500, 1280, 800), frame(0, 0, 10, 10)] {
        let once = g.clamp_to_displays(&[LAPTOP]);
        assert_eq!(once.clamp_to_displays(&[LAPTOP]), once);
    }
}

#[test]
fn a_strip_of_the_top_edge_must_show() {
    assert!(top_edge_visible(LAPTOP.width - MIN_VISIBLE, 0, 500, &LAPTOP));
    assert!(!top_edge_visible(LAPTOP.width - MIN_VISIBLE + 1, 0, 500, &LAPTOP));
    assert!(!top_edge_visible(0, -1, 500, &LAPTOP));
    assert!(!top_edge_visible(0, LAPTOP.height, 500, &LAPTOP));
}

#[test]
fn a_frame_is_restored_no_smaller_than_it_can_be_used() {
    let (w, h) = frame(-9000, -9000, 1, 1).clamp_to_displays(&[LAPTOP]).size().unwrap();
    assert_eq!((w, h), (MIN_W, MIN_H));
}

#[test]
fn window_geometry_save_then_load_round_trips() {
    let g = WindowGeometry { maximized: true, ..frame(-1200, 40, 1440, 900) };
    assert_eq!(load_from(Some(&geometry_text(&g))), g);
}

#[test]
fn saved_shape_is_camel_case_pretty_and_omits_unset() {
    let raw = geometry_text(&frame(10, 20, 1280, 800));
    assert!(raw.contains("\n  \"x\": 10"), "2-space pretty: {raw}");
    assert!(raw.contains("\"width\": 1280"), "{raw}");
    assert!(!raw.contains("maximized"), "{raw}");
    assert_eq!(
        raw,
        "{\n  \"x\": 10,\n  \"y\": 20,\n  \"width\": 1280,\n  \"height\": 800\n}"
    );
}

#[test]
fn the_outermost_frames_are_kept_too() {
    let g = frame(i64::MIN, i64::MAX, i64::MAX, 1);
    assert_eq!(load_from(Some(&geometry_text(&g))), g);
    assert_eq!(geometry_text(&WindowGeometry::default()), "{}");
    assert_eq!(load_from(Some("{}")), WindowGeometry::default());
}
