//! The main window's remembered frame, and how it is pulled back onto the
//! displays that are attached.
//!
//! All measures are logical pixels. The position is that of the outer top left
//! corner; the size is that of the inner area.

use crate::persistence::json::{bool_field, field_at, i64_field, is_flat, is_json, json_text,
    lemma_field_at_push, lemma_with_new_field, new_object, object_fields, pretty,
    pretty_text, put_flag, put_number, read_bool, read_i64, Field, Fields};
use crate::persistence::paths::str_opt;
use vstd::prelude::*;

verus! {

/// A remembered frame, and whether the window was maximized. Every measure may
/// be unset.
#[derive(Debug, Clone, Copy, PartialEq, Eq, Structural)]
pub struct WindowGeometry {
    pub x: Option<i64>,
    pub y: Option<i64>,
    pub width: Option<i64>,
    pub height: Option<i64>,
    /// The window was maximized; the measures are then those of the frame it
    /// had before.
    pub maximized: bool,
}

/// The usable area of a display.
#[derive(Debug, Clone, Copy, PartialEq, Eq, Structural)]
pub struct DisplayRect {
    pub x: i64,
    pub y: i64,
    pub width: i64,
    pub height: i64,
}

/// How much of the window's top edge must be on a display for it to be dragged.
pub const MIN_VISIBLE: i64 = 80;

/// The smallest width that is restored.
pub const MIN_W: i64 = 480;

/// The smallest height that is restored.
pub const MIN_H: i64 = 320;

/// Nothing remembered.
pub open spec fn nothing_remembered() -> WindowGeometry {
    WindowGeometry { x: None, y: None, width: None, height: None, maximized: false }
}

impl Default for WindowGeometry {
    fn default() -> (r: WindowGeometry)
        ensures
            r == nothing_remembered(),
    {
        WindowGeometry { x: None, y: None, width: None, height: None, maximized: false }
    }
}

// ---------------------------------------------------------------------------
// Arithmetic
// ---------------------------------------------------------------------------

pub open spec fn lesser(a: int, b: int) -> int {
    if a <= b {
        a
    } else {
        b
    }
}

pub open spec fn greater(a: int, b: int) -> int {
    if a >= b {
        a
    } else {
        b
    }
}

/// `v`, or the bound that it is beyond.
pub open spec fn within(v: int, lo: int, hi: int) -> int {
    if v < lo {
        lo
    } else if v > hi {
        hi
    } else {
        v
    }
}

/// Whether a number fits the type of the measures.
pub open spec fn fits_i64(v: int) -> bool {
    i64::MIN <= v <= i64::MAX
}

/// How much of the stretch of length `len` from `a` lies on the stretch of
/// length `m` from `b`; negative where they are apart.
pub open spec fn shared(a: int, len: int, b: int, m: int) -> int {
    lesser(a + len, b + m) - greater(a, b)
}

/// The area that a frame shares with a display.
pub open spec fn shared_area(x: int, y: int, w: int, h: int, d: DisplayRect) -> int {
    greater(shared(x, w, d.x as int, d.width as int), 0) * greater(
        shared(y, h, d.y as int, d.height as int),
        0,
    )
}

/// Whether enough of a frame's top edge is on a display.
pub open spec fn top_visible(x: int, y: int, w: int, d: DisplayRect) -> bool {
    shared(x, w, d.x as int, d.width as int) >= MIN_VISIBLE && d.y <= y < d.y + d.height
}

/// Whether the measures of a frame and a display can be worked with: no sum,
/// difference or product of them leaves the type.
pub open spec fn workable(x: int, y: int, w: int, h: int, d: DisplayRect) -> bool {
    &&& fits_i64(x + w)
    &&& fits_i64(y + h)
    &&& fits_i64(d.x + d.width)
    &&& fits_i64(d.y + d.height)
    &&& fits_i64(shared(x, w, d.x as int, d.width as int))
    &&& fits_i64(shared(y, h, d.y as int, d.height as int))
    &&& fits_i64(shared_area(x, y, w, h, d))
}

/// The last display, of the first `n`, that a frame shares most of its area
/// with.
pub open spec fn most_shared(x: int, y: int, w: int, h: int, ds: Seq<DisplayRect>, n: nat) -> int
    decreases n,
{
    if n <= 1 {
        0
    } else {
        let b = most_shared(x, y, w, h, ds, (n - 1) as nat);
        if shared_area(x, y, w, h, ds[n - 1]) >= shared_area(x, y, w, h, ds[b]) {
            n - 1
        } else {
            b
        }
    }
}

/// The display that a frame is matched to: the one that it overlaps most, or
/// the first where it overlaps none.
pub open spec fn matched(x: int, y: int, w: int, h: int, ds: Seq<DisplayRect>) -> DisplayRect {
    let b = ds[most_shared(x, y, w, h, ds, ds.len())];
    if shared_area(x, y, w, h, b) > 0 {
        b
    } else {
        ds[0]
    }
}

/// Whether a frame's top edge is on any display.
pub open spec fn any_top_visible(x: int, y: int, w: int, ds: Seq<DisplayRect>) -> bool {
    exists|i: int| 0 <= i < ds.len() && top_visible(x, y, w, #[trigger] ds[i])
}

/// The width of a frame on a display.
pub open spec fn seated_width(w: int, d: DisplayRect) -> int {
    within(w, lesser(MIN_W as int, d.width as int), d.width as int)
}

/// How far left a frame of width `w` may be on a display.
pub open spec fn leftmost(w: int, d: DisplayRect) -> int {
    d.x - greater(w - MIN_VISIBLE, 0)
}

/// A frame on a display: the size between the smallest one and the display's,
/// the place kept where the top edge was reachable and else in the upper
/// middle, and moved so that the top edge stays reachable.
pub open spec fn seated(
    x: int,
    y: int,
    w: int,
    h: int,
    d: DisplayRect,
    reachable: bool,
) -> (int, int, int, int) {
    let nw = seated_width(w, d);
    let nh = within(h, lesser(MIN_H as int, d.height as int), d.height as int);
    let px = if reachable {
        x
    } else {
        d.x + greater(d.width - nw, 0) / 2
    };
    let py = if reachable {
        y
    } else {
        d.y + greater(d.height - nh, 0) / 4
    };
    (
        within(px, leftmost(nw, d), d.x + d.width - MIN_VISIBLE),
        within(py, d.y as int, d.y + d.height - MIN_VISIBLE),
        nw,
        nh,
    )
}

/// Whether a frame has a size and a place, and there is a display.
pub open spec fn clampable(g: WindowGeometry, ds: Seq<DisplayRect>) -> bool {
    g.x is Some && g.y is Some && g.width is Some && g.height is Some && ds.len() > 0
}

/// What a frame is pulled back to.
pub open spec fn clamped(g: WindowGeometry, ds: Seq<DisplayRect>) -> WindowGeometry {
    if clampable(g, ds) {
        let (x, y, w, h) = (g.x->0 as int, g.y->0 as int, g.width->0 as int, g.height->0 as int);
        let d = matched(x, y, w, h, ds);
        let (nx, ny, nw, nh) = seated(x, y, w, h, d, any_top_visible(x, y, w, ds));
        WindowGeometry {
            x: Some(nx as i64),
            y: Some(ny as i64),
            width: Some(nw as i64),
            height: Some(nh as i64),
            maximized: g.maximized,
        }
    } else {
        g
    }
}

/// What a clamp needs: measures that can be worked with, and a display that is
/// large enough to show a grip of the window.
pub open spec fn can_clamp(g: WindowGeometry, ds: Seq<DisplayRect>) -> bool {
    clampable(g, ds) ==> {
        let (x, y, w, h) = (g.x->0 as int, g.y->0 as int, g.width->0 as int, g.height->0 as int);
        let d = matched(x, y, w, h, ds);
        &&& forall|i: int| 0 <= i < ds.len() ==> workable(x, y, w, h, #[trigger] ds[i])
        &&& d.width >= MIN_VISIBLE
        &&& d.height >= MIN_VISIBLE
        &&& fits_i64(leftmost(seated_width(w, d), d))
    }
}

// ---------------------------------------------------------------------------
// Laws
// ---------------------------------------------------------------------------

proof fn lemma_seated(x: int, y: int, w: int, h: int, d: DisplayRect, reachable: bool)
    requires
        d.width >= MIN_VISIBLE,
        d.height >= MIN_VISIBLE,
    ensures
        ({
            let (nx, ny, nw, nh) = seated(x, y, w, h, d, reachable);
            &&& MIN_VISIBLE <= nw <= d.width
            &&& MIN_VISIBLE <= nh <= d.height
            &&& lesser(MIN_W as int, d.width as int) <= nw
            &&& lesser(MIN_H as int, d.height as int) <= nh
            &&& leftmost(nw, d) <= nx <= d.x + d.width - MIN_VISIBLE
            &&& d.y <= ny <= d.y + d.height - MIN_VISIBLE
            &&& top_visible(nx, ny, nw, d)
        }),
{
}

/// A frame that was pulled back can be grabbed: enough of its top edge is on
/// the display it was matched to. Its size is between the smallest one and that
/// of the display, and the maximized flag is kept.
pub proof fn law_clamped_frame_is_reachable(g: WindowGeometry, ds: Seq<DisplayRect>)
    requires
        clampable(g, ds),
        can_clamp(g, ds),
    ensures
        ({
            let d = matched(
                g.x->0 as int,
                g.y->0 as int,
                g.width->0 as int,
                g.height->0 as int,
                ds,
            );
            let c = clamped(g, ds);
            &&& ds.contains(d)
            &&& top_visible(c.x->0 as int, c.y->0 as int, c.width->0 as int, d)
            &&& lesser(MIN_W as int, d.width as int) <= c.width->0 <= d.width
            &&& lesser(MIN_H as int, d.height as int) <= c.height->0 <= d.height
            &&& c.maximized == g.maximized
        }),
{
    let (x, y, w, h) = (g.x->0 as int, g.y->0 as int, g.width->0 as int, g.height->0 as int);
    let d = matched(x, y, w, h, ds);
    lemma_most_shared(x, y, w, h, ds, ds.len());
    assert(ds.contains(ds[0]));
    assert(ds.contains(ds[most_shared(x, y, w, h, ds, ds.len())]));
    let i = choose|i: int| 0 <= i < ds.len() && ds[i] == d;
    assert(workable(x, y, w, h, ds[i]));
    lemma_seated(x, y, w, h, d, any_top_visible(x, y, w, ds));
}

/// A frame whose size is not below the smallest one, and which lies wholly on
/// the one display there is, with room for the grip, is left alone.
pub proof fn law_frame_on_display_is_left_alone(g: WindowGeometry, d: DisplayRect)
    requires
        clampable(g, seq![d]),
        MIN_W <= g.width->0 <= d.width,
        MIN_H <= g.height->0 <= d.height,
        d.x <= g.x->0 && g.x->0 + g.width->0 <= d.x + d.width,
        d.y <= g.y->0 && g.y->0 + g.height->0 <= d.y + d.height,
    ensures
        clamped(g, seq![d]) == g,
{
    let (x, y, w) = (g.x->0 as int, g.y->0 as int, g.width->0 as int);
    let ds = seq![d];
    assert(top_visible(x, y, w, ds[0]));
}

/// With one display, pulling a frame back twice is pulling it back once.
pub proof fn law_clamp_is_idempotent(g: WindowGeometry, d: DisplayRect)
    requires
        clampable(g, seq![d]),
        can_clamp(g, seq![d]),
    ensures
        clamped(clamped(g, seq![d]), seq![d]) == clamped(g, seq![d]),
{
    let ds = seq![d];
    let (x, y, w, h) = (g.x->0 as int, g.y->0 as int, g.width->0 as int, g.height->0 as int);
    assert(workable(x, y, w, h, ds[0]));
    lemma_seated(x, y, w, h, d, any_top_visible(x, y, w, ds));
    let c = clamped(g, ds);
    assert(top_visible(c.x->0 as int, c.y->0 as int, c.width->0 as int, ds[0]));
    assert(any_top_visible(c.x->0 as int, c.y->0 as int, c.width->0 as int, ds));
}

/// Without a display, a size or a place, nothing is moved.
pub proof fn law_nothing_to_clamp_changes_nothing(g: WindowGeometry, ds: Seq<DisplayRect>)
    requires
        !clampable(g, ds),
    ensures
        clamped(g, ds) == g,
{
}

proof fn lemma_most_shared(x: int, y: int, w: int, h: int, ds: Seq<DisplayRect>, n: nat)
    requires
        1 <= n <= ds.len(),
    ensures
        0 <= most_shared(x, y, w, h, ds, n) < n,
    decreases n,
{
    if n > 1 {
        lemma_most_shared(x, y, w, h, ds, (n - 1) as nat);
    }
}

/// No display shares more of the frame than the one it is matched to, and where
/// none shares any the frame is matched to the first.
pub proof fn law_matched_display_shares_most(
    x: int,
    y: int,
    w: int,
    h: int,
    ds: Seq<DisplayRect>,
    i: int,
)
    requires
        0 <= i < ds.len(),
    ensures
        shared_area(x, y, w, h, ds[i]) <= shared_area(x, y, w, h, matched(x, y, w, h, ds)),
        shared_area(x, y, w, h, matched(x, y, w, h, ds)) == 0 ==> matched(x, y, w, h, ds) == ds[0],
{
    lemma_area(x, y, w, h, ds[i]);
    lemma_area(x, y, w, h, ds[0]);
    lemma_most_is_most(x, y, w, h, ds, ds.len(), i);
    lemma_most_is_most(x, y, w, h, ds, ds.len(), 0);
    lemma_most_shared(x, y, w, h, ds, ds.len());
    lemma_area(x, y, w, h, ds[most_shared(x, y, w, h, ds, ds.len())]);
}

proof fn lemma_area(x: int, y: int, w: int, h: int, d: DisplayRect)
    ensures
        shared_area(x, y, w, h, d) >= 0,
{
    let a = greater(shared(x, w, d.x as int, d.width as int), 0);
    let b = greater(shared(y, h, d.y as int, d.height as int), 0);
    assert(a * b >= 0) by (nonlinear_arith)
        requires
            a >= 0,
            b >= 0,
    ;
}

proof fn lemma_most_is_most(x: int, y: int, w: int, h: int, ds: Seq<DisplayRect>, n: nat, i: int)
    requires
        0 <= i < n <= ds.len(),
    ensures
        shared_area(x, y, w, h, ds[i]) <= shared_area(
            x,
            y,
            w,
            h,
            ds[most_shared(x, y, w, h, ds, n)],
        ),
    decreases n,
{
    if n > 1 && i < n - 1 {
        lemma_most_is_most(x, y, w, h, ds, (n - 1) as nat, i);
    }
}

// ---------------------------------------------------------------------------
// Code
// ---------------------------------------------------------------------------

fn min(a: i64, b: i64) -> (r: i64)
    ensures
        r == lesser(a as int, b as int),
{
    if a <= b {
        a
    } else {
        b
    }
}

fn max(a: i64, b: i64) -> (r: i64)
    ensures
        r == greater(a as int, b as int),
{
    if a >= b {
        a
    } else {
        b
    }
}

fn clamp(v: i64, lo: i64, hi: i64) -> (r: i64)
    ensures
        r == within(v as int, lo as int, hi as int),
{
    if v < lo {
        lo
    } else if v > hi {
        hi
    } else {
        v
    }
}

/// The area of what a frame and a display share; 0 where they do not touch.
pub fn overlap_area(x: i64, y: i64, w: i64, h: i64, d: &DisplayRect) -> (r: i64)
    requires
        workable(x as int, y as int, w as int, h as int, *d),
    ensures
        r == shared_area(x as int, y as int, w as int, h as int, *d),
{
    let ox: i64 = min(x + w, d.x + d.width) - max(x, d.x);
    let oy: i64 = min(y + h, d.y + d.height) - max(y, d.y);
    max(ox, 0) * max(oy, 0)
}

/// Whether enough of the frame's top edge, by which it is dragged, is on a
/// display.
pub fn top_edge_visible(x: i64, y: i64, w: i64, d: &DisplayRect) -> (r: bool)
    requires
        fits_i64(x + w),
        fits_i64(d.x + d.width),
        fits_i64(d.y + d.height),
        fits_i64(shared(x as int, w as int, d.x as int, d.width as int)),
    ensures
        r == top_visible(x as int, y as int, w as int, *d),
{
    let ox: i64 = min(x + w, d.x + d.width) - max(x, d.x);
    ox >= MIN_VISIBLE && y >= d.y && y < d.y + d.height
}

/// Seats a frame on a display.
fn seat(x: i64, y: i64, w: i64, h: i64, d: &DisplayRect, reachable: bool) -> (r: (
    i64,
    i64,
    i64,
    i64,
))
    requires
        d.width >= MIN_VISIBLE,
        d.height >= MIN_VISIBLE,
        fits_i64(d.x + d.width),
        fits_i64(d.y + d.height),
        fits_i64(leftmost(seated_width(w as int, *d), *d)),
    ensures
        (r.0 as int, r.1 as int, r.2 as int, r.3 as int) == seated(
            x as int,
            y as int,
            w as int,
            h as int,
            *d,
            reachable,
        ),
{
    proof {
        lemma_seated(x as int, y as int, w as int, h as int, *d, reachable);
    }
    let nw: i64 = clamp(w, min(MIN_W, d.width), d.width);
    let nh: i64 = clamp(h, min(MIN_H, d.height), d.height);
    let px: i64 = if reachable {
        x
    } else {
        d.x + max(d.width - nw, 0) / 2
    };
    let py: i64 = if reachable {
        y
    } else {
        d.y + max(d.height - nh, 0) / 4
    };
    let nx: i64 = clamp(px, d.x - max(nw - MIN_VISIBLE, 0), d.x + d.width - MIN_VISIBLE);
    let ny: i64 = clamp(py, d.y, d.y + d.height - MIN_VISIBLE);
    (nx, ny, nw, nh)
}

impl WindowGeometry {
    /// The remembered size, where both halves of it are.
    pub fn size(&self) -> (r: Option<(i64, i64)>)
        ensures
            r == (match (self.width, self.height) {
                (Some(w), Some(h)) => Some((w, h)),
                _ => None,
            }),
    {
        match (self.width, self.height) {
            (Some(w), Some(h)) => Some((w, h)),
            _ => None,
        }
    }

    /// The remembered place, where both halves of it are.
    pub fn position(&self) -> (r: Option<(i64, i64)>)
        ensures
            r == (match (self.x, self.y) {
                (Some(x), Some(y)) => Some((x, y)),
                _ => None,
            }),
    {
        match (self.x, self.y) {
            (Some(x), Some(y)) => Some((x, y)),
            _ => None,
        }
    }

    /// Pulls the frame back onto the attached displays. An empty list says that
    /// they could not be enumerated: the frame is then left as it is.
    pub fn clamp_to_displays(&self, displays: &[DisplayRect]) -> (r: WindowGeometry)
        requires
            can_clamp(*self, displays@),
        ensures
            r == clamped(*self, displays@),
    {
        let (w, h) = match self.size() {
            Some(s) => s,
            None => {
                return *self;
            },
        };
        let (x, y) = match self.position() {
            Some(p) => p,
            None => {
                return *self;
            },
        };
        if displays.len() == 0 {
            return *self;
        }
        let ghost ds = displays@;
        let ghost (gx, gy, gw, gh) = (x as int, y as int, w as int, h as int);
        let mut best: usize = 0;
        assert(workable(gx, gy, gw, gh, ds[0]));
        let mut area: i64 = overlap_area(x, y, w, h, &displays[0]);
        let mut reachable: bool = top_edge_visible(x, y, w, &displays[0]);
        let mut i: usize = 1;
        while i < displays.len()
            invariant
                1 <= i <= displays@.len(),
                ds == displays@,
                gx == x && gy == y && gw == w && gh == h,
                forall|j: int| 0 <= j < ds.len() ==> workable(gx, gy, gw, gh, #[trigger] ds[j]),
                best < i,
                best == most_shared(gx, gy, gw, gh, ds, i as nat),
                area == shared_area(gx, gy, gw, gh, ds[best as int]),
                reachable == exists|j: int| 0 <= j < i && top_visible(gx, gy, gw, #[trigger] ds[j]),
            decreases displays.len() - i,
        {
            assert(workable(gx, gy, gw, gh, ds[i as int]));
            let a: i64 = overlap_area(x, y, w, h, &displays[i]);
            if a >= area {
                best = i;
                area = a;
            }
            if top_edge_visible(x, y, w, &displays[i]) {
                reachable = true;
                assert(top_visible(gx, gy, gw, ds[i as int]));
            }
            i = i + 1;
        }
        let d = if area > 0 {
            displays[best]
        } else {
            displays[0]
        };
        assert(d == matched(gx, gy, gw, gh, ds));
        assert(reachable == any_top_visible(gx, gy, gw, ds));
        assert(workable(gx, gy, gw, gh, ds[best as int]));
        let (nx, ny, nw, nh) = seat(x, y, w, h, &d, reachable);
        WindowGeometry {
            x: Some(nx),
            y: Some(ny),
            width: Some(nw),
            height: Some(nh),
            maximized: self.maximized,
        }
    }
}

/// A measure that is above 0.
pub open spec fn positive(v: Option<i64>) -> Option<i64> {
    match v {
        Some(n) => if n > 0 {
            Some(n)
        } else {
            None
        },
        None => None,
    }
}

/// The frame that fields of a file come to. An extent that is not above 0 is
/// none, and only the boolean `true` says maximized.
pub open spec fn frame_of(
    x: Option<i64>,
    y: Option<i64>,
    width: Option<i64>,
    height: Option<i64>,
    maximized: Option<bool>,
) -> WindowGeometry {
    WindowGeometry {
        x,
        y,
        width: positive(width),
        height: positive(height),
        maximized: maximized == Some(true),
    }
}

fn keep_positive(v: Option<i64>) -> (r: Option<i64>)
    ensures
        r == positive(v),
{
    match v {
        Some(n) => if n > 0 {
            Some(n)
        } else {
            None
        },
        None => None,
    }
}

/// A frame from the fields of a file.
pub fn from_fields(
    x: Option<i64>,
    y: Option<i64>,
    width: Option<i64>,
    height: Option<i64>,
    maximized: Option<bool>,
) -> (r: WindowGeometry)
    ensures
        r == frame_of(x, y, width, height, maximized),
{
    let maximized = match maximized {
        Some(b) => b,
        None => false,
    };
    WindowGeometry {
        x,
        y,
        width: keep_positive(width),
        height: keep_positive(height),
        maximized,
    }
}

/// What the text of a geometry file comes to: nothing remembered, where there is
/// none or it is no JSON.
pub open spec fn loaded(text: Option<Seq<char>>) -> WindowGeometry {
    match text {
        Some(t) => if json_text(t) {
            frame_of(
                i64_field(t, "x"@),
                i64_field(t, "y"@),
                i64_field(t, "width"@),
                i64_field(t, "height"@),
                bool_field(t, "maximized"@),
            )
        } else {
            nothing_remembered()
        },
        None => nothing_remembered(),
    }
}

/// The frame of the text of a geometry file, or nothing remembered where the
/// file could not be read.
pub fn load_from(text: Option<&str>) -> (r: WindowGeometry)
    ensures
        r == loaded(str_opt(text)),
{
    match text {
        Some(t) => if is_json(t) {
            from_fields(
                read_i64(t, "x"),
                read_i64(t, "y"),
                read_i64(t, "width"),
                read_i64(t, "height"),
                read_bool(t, "maximized"),
            )
        } else {
            WindowGeometry::default()
        },
        None => WindowGeometry::default(),
    }
}

/// The fields with a measure behind them, where it is set.
pub open spec fn with_measure(fs: Fields, key: Seq<char>, v: Option<i64>) -> Fields {
    match v {
        Some(n) => fs.push((key, Field::Number(n as int))),
        None => fs,
    }
}

/// The measures that a frame is written as.
pub open spec fn measure_fields(g: WindowGeometry) -> Fields {
    with_measure(
        with_measure(
            with_measure(with_measure(Seq::empty(), "x"@, g.x), "y"@, g.y),
            "width"@,
            g.width,
        ),
        "height"@,
        g.height,
    )
}

/// The fields that a frame is written as: a measure only where it is set, and
/// the flag only where the window was maximized.
pub open spec fn frame_fields(g: WindowGeometry) -> Fields {
    if g.maximized {
        measure_fields(g).push(("maximized"@, Field::Flag(true)))
    } else {
        measure_fields(g)
    }
}

/// Whether a text says of each field what a frame says.
pub open spec fn says(text: Seq<char>, g: WindowGeometry) -> bool {
    &&& json_text(text)
    &&& i64_field(text, "x"@) == g.x
    &&& i64_field(text, "y"@) == g.y
    &&& i64_field(text, "width"@) == g.width
    &&& i64_field(text, "height"@) == g.height
    &&& bool_field(text, "maximized"@) == (if g.maximized {
        Some(true)
    } else {
        None
    })
}

/// The keys are five.
proof fn lemma_frame_keys()
    ensures
        "x"@ != "y"@,
        "x"@ != "width"@,
        "x"@ != "height"@,
        "x"@ != "maximized"@,
        "y"@ != "width"@,
        "y"@ != "height"@,
        "y"@ != "maximized"@,
        "width"@ != "height"@,
        "width"@ != "maximized"@,
        "height"@ != "maximized"@,
{
    reveal_strlit("x");
    reveal_strlit("y");
    reveal_strlit("width");
    reveal_strlit("height");
    reveal_strlit("maximized");
    assert("x"@[0] == 'x' && "y"@[0] == 'y');
    assert("x"@.len() == 1 && "y"@.len() == 1 && "width"@.len() == 5 && "height"@.len() == 6
        && "maximized"@.len() == 9);
}

/// A measure as a field.
spec fn measure(v: Option<i64>) -> Option<Field> {
    match v {
        Some(n) => Some(Field::Number(n as int)),
        None => None,
    }
}

proof fn lemma_with_measure(fs: Fields, key: Seq<char>, v: Option<i64>, k: Seq<char>)
    ensures
        field_at(with_measure(fs, key, v), k) == (match field_at(fs, k) {
            Some(f) => Some(f),
            None => if k == key {
                measure(v)
            } else {
                None
            },
        }),
{
    if let Some(n) = v {
        lemma_field_at_push(fs, key, Field::Number(n as int), k);
    }
}

/// Each field is found under its key.
proof fn lemma_frame_fields(g: WindowGeometry)
    ensures
        forall|k: Seq<char>|
            (#[trigger] field_at(frame_fields(g), k)) == (if k == "x"@ {
                measure(g.x)
            } else if k == "y"@ {
                measure(g.y)
            } else if k == "width"@ {
                measure(g.width)
            } else if k == "height"@ {
                measure(g.height)
            } else if k == "maximized"@ && g.maximized {
                Some(Field::Flag(true))
            } else {
                None
            }),
        field_at(measure_fields(g), "maximized"@) is None,
{
    lemma_frame_keys();
    let f1 = with_measure(Seq::empty(), "x"@, g.x);
    let f2 = with_measure(f1, "y"@, g.y);
    let f3 = with_measure(f2, "width"@, g.width);
    assert forall|k: Seq<char>| true implies (#[trigger] field_at(measure_fields(g), k)) == (if k
        == "x"@ {
        measure(g.x)
    } else if k == "y"@ {
        measure(g.y)
    } else if k == "width"@ {
        measure(g.width)
    } else if k == "height"@ {
        measure(g.height)
    } else {
        None
    }) by {
        lemma_with_measure(Seq::empty(), "x"@, g.x, k);
        lemma_with_measure(f1, "y"@, g.y, k);
        lemma_with_measure(f2, "width"@, g.width, k);
        lemma_with_measure(f3, "height"@, g.height, k);
    }
    assert forall|k: Seq<char>| true implies (#[trigger] field_at(frame_fields(g), k)) == (if k
        == "maximized"@ && g.maximized {
        Some(Field::Flag(true))
    } else {
        field_at(measure_fields(g), k)
    }) by {
        lemma_field_at_push(measure_fields(g), "maximized"@, Field::Flag(true), k);
    }
}

/// Puts a measure behind the fields of an object, where it is set.
fn put_measure(
    o: &mut serde_json::Map<String, serde_json::Value>,
    key: &str,
    v: Option<i64>,
)
    requires
        is_flat(*old(o)),
        field_at(object_fields(*old(o)), key@) is None,
    ensures
        is_flat(*final(o)),
        object_fields(*final(o)) == with_measure(object_fields(*old(o)), key@, v),
{
    if let Some(n) = v {
        proof {
            lemma_with_new_field(object_fields(*o), key@, Field::Number(n as int));
        }
        put_number(o, key, n);
    }
}

/// The text that a frame is kept as: indented, with nothing where a field is not
/// set.
pub fn geometry_text(g: &WindowGeometry) -> (r: String)
    ensures
        r@ == pretty_text(frame_fields(*g)),
        says(r@, *g),
{
    let mut o = new_object();
    proof {
        lemma_frame_keys();
        let f1 = with_measure(Seq::empty(), "x"@, g.x);
        let f2 = with_measure(f1, "y"@, g.y);
        lemma_with_measure(Seq::empty(), "x"@, g.x, "y"@);
        lemma_with_measure(Seq::empty(), "x"@, g.x, "width"@);
        lemma_with_measure(Seq::empty(), "x"@, g.x, "height"@);
        lemma_with_measure(f1, "y"@, g.y, "width"@);
        lemma_with_measure(f1, "y"@, g.y, "height"@);
        lemma_with_measure(f2, "width"@, g.width, "height"@);
        lemma_frame_fields(*g);
        lemma_with_new_field(measure_fields(*g), "maximized"@, Field::Flag(true));
    }
    put_measure(&mut o, "x", g.x);
    put_measure(&mut o, "y", g.y);
    put_measure(&mut o, "width", g.width);
    put_measure(&mut o, "height", g.height);
    if g.maximized {
        put_flag(&mut o, "maximized", true);
    }
    pretty(&o).unwrap()
}

/// A frame that was kept is loaded back, where its extents are above 0.
pub proof fn law_kept_frame_is_loaded(g: WindowGeometry, text: Seq<char>)
    requires
        says(text, g),
        positive(g.width) == g.width,
        positive(g.height) == g.height,
    ensures
        loaded(Some(text)) == g,
{
}

/// Where there is no file, or it is no JSON, nothing is remembered.
pub proof fn law_unreadable_file_remembers_nothing(text: Seq<char>)
    ensures
        loaded(None) == nothing_remembered(),
        !json_text(text) ==> loaded(Some(text)) == nothing_remembered(),
{
}

} // verus!
