//! Where files live and where windows stand, seen from outside.

use crate::persistence::json::{bool_field, i64_field, json_text};
use crate::persistence::paths::{durable_data, joined, known_dir, session_state, temp_name,
    user_data, DirsView, PRODUCT_NAME};
use crate::persistence::window_geometry::{any_top_visible, can_clamp, clampable, clamped, greater,
    law_clamped_frame_is_reachable, lesser, loaded, matched, most_shared, seated, seated_width,
    shared, shared_area, top_visible, within, workable, DisplayRect, WindowGeometry, MIN_H,
    MIN_VISIBLE, MIN_W};
use crate::platform::Platform;
use crate::text::{dec, is_ascii_letter};
use crate::text_laws::law_numerals_are_unique;
use vstd::prelude::*;
use vstd::string::*;

verus! {

/// A path is joined with one separator: none is added where the first part ends
/// in one, and the other systems' separator is none on a Unix.
pub proof fn law_parts_are_joined_by_one_separator(base: Seq<char>, rel: Seq<char>)
    requires
        base.len() > 0,
    ensures
        base.last() == '/' ==> forall|p: Platform| #[trigger] joined(base, rel, p) == base + rel,
        base.last() != '/' ==> joined(base, rel, Platform::Linux) == base.push('/') + rel,
        base.last() != '/' ==> joined(base, rel, Platform::Macos) == base.push('/') + rel,
        base.last() == '\\' ==> joined(base, rel, Platform::Windows) == base + rel,
        base.last() != '/' && base.last() != '\\' && base.last() != ':' ==> joined(
            base,
            rel,
            Platform::Windows,
        ) == base.push('\\') + rel,
{
    reveal_strlit("/");
    reveal_strlit("\\");
    assert(base + "/"@ =~= base.push('/'));
    assert(base + "\\"@ =~= base.push('\\'));
}

/// A variable that is set and not empty says where a directory is; else what the
/// system knows counts, and where it knows nothing the working directory.
pub proof fn law_variable_says_where(v: Seq<char>, k: Seq<char>, known: Option<Seq<char>>)
    ensures
        v.len() > 0 ==> known_dir(Some(v), known) == v,
        v.len() == 0 ==> known_dir(Some(v), Some(k)) == k,
        known_dir(None, Some(k)) == k,
        known_dir(None, None) == "."@,
{
}

/// On Linux each kind of data has a variable of its own: where it holds an
/// absolute path the product's directory is right under that, whatever the
/// other variables say.
pub proof fn law_each_kind_has_its_variable(d: DirsView, v: Seq<char>)
    requires
        d.platform == Platform::Linux,
        v.len() > 0,
        v[0] == '/',
        v.last() != '/',
    ensures
        d.xdg_config == Some(v) ==> user_data(d) == v.push('/') + PRODUCT_NAME@,
        d.xdg_data == Some(v) ==> durable_data(d) == v.push('/') + PRODUCT_NAME@,
        d.xdg_state == Some(v) ==> session_state(d) == v.push('/') + PRODUCT_NAME@,
{
    law_parts_are_joined_by_one_separator(v, PRODUCT_NAME@);
}

/// Where a variable is not set, its kind of data is at its usual place under the
/// home directory.
pub proof fn law_unset_variable_means_home(d: DirsView)
    requires
        d.platform == Platform::Linux,
        d.home.len() > 0,
        d.home.last() != '/',
    ensures
        d.xdg_config is None ==> user_data(d) == d.home.push('/') + ".config"@.push('/')
            + PRODUCT_NAME@,
        d.xdg_data is None ==> durable_data(d) == d.home.push('/') + ".local/share"@.push('/')
            + PRODUCT_NAME@,
        d.xdg_state is None ==> session_state(d) == d.home.push('/') + ".local/state"@.push('/')
            + PRODUCT_NAME@,
{
    reveal_strlit(".config");
    reveal_strlit(".local/share");
    reveal_strlit(".local/state");
    let h = d.home.push('/');
    law_parts_are_joined_by_one_separator(d.home, ".config"@);
    law_parts_are_joined_by_one_separator(d.home, ".local/share"@);
    law_parts_are_joined_by_one_separator(d.home, ".local/state"@);
    let a = h + ".config"@;
    let b = h + ".local/share"@;
    let c = h + ".local/state"@;
    assert(a.last() == 'g' && b.last() == 'e' && c.last() == 'e');
    law_parts_are_joined_by_one_separator(a, PRODUCT_NAME@);
    law_parts_are_joined_by_one_separator(b, PRODUCT_NAME@);
    law_parts_are_joined_by_one_separator(c, PRODUCT_NAME@);
    assert(a.push('/') =~= h + ".config"@.push('/'));
    assert(b.push('/') =~= h + ".local/share"@.push('/'));
    assert(c.push('/') =~= h + ".local/state"@.push('/'));
}

/// Of one process, different files are written under different names, and of
/// different processes one file is; a name of such a file is hidden.
pub proof fn law_unfinished_files_are_apart(a: Seq<char>, b: Seq<char>, pid: u32, other: u32)
    ensures
        temp_name(Some(a), pid)[0] == '.',
        temp_name(Some(a), pid).subrange(1, 1int + a.len()) == a,
        temp_name(Some(a), pid) == temp_name(Some(b), pid) ==> a == b,
        temp_name(Some(a), pid) == temp_name(Some(a), other) ==> pid == other,
{
    reveal_strlit(".");
    reveal_strlit(".tmp.");
    let s = temp_name(Some(a), pid);
    assert(s.subrange(1, 1int + a.len()) =~= a);
    if s == temp_name(Some(b), pid) {
        assert(s.len() == 1 + b.len() + 5 + dec(pid as nat).len());
        assert(s.subrange(1, 1int + b.len()) =~= b);
    }
    if s == temp_name(Some(a), other) {
        assert(s.skip(6int + a.len()) =~= dec(pid as nat));
        assert(s.skip(6int + a.len()) =~= dec(other as nat));
        law_numerals_are_unique(pid as nat, other as nat);
    }
}

/// A window whose size suits its display keeps it; one that is too large takes
/// the display's, and one that is too small the smallest.
pub proof fn law_size_is_kept_where_it_suits(g: WindowGeometry, ds: Seq<DisplayRect>)
    requires
        clampable(g, ds),
        can_clamp(g, ds),
    ensures
        ({
            let (x, y, w, h) = (g.x->0 as int, g.y->0 as int, g.width->0 as int, g.height->0 as int);
            let d = matched(x, y, w, h, ds);
            let c = clamped(g, ds);
            &&& MIN_W <= w <= d.width ==> c.width == g.width
            &&& MIN_H <= h <= d.height ==> c.height == g.height
            &&& w > d.width ==> c.width == Some(d.width)
            &&& h > d.height ==> c.height == Some(d.height)
            &&& w < MIN_W <= d.width ==> c.width == Some(MIN_W)
            &&& h < MIN_H <= d.height ==> c.height == Some(MIN_H)
        }),
{
}

/// A window that can be reached on its display stays where it is.
pub proof fn law_reachable_window_stays(g: WindowGeometry, ds: Seq<DisplayRect>)
    requires
        clampable(g, ds),
        can_clamp(g, ds),
        ({
            let (x, y, w, h) = (g.x->0 as int, g.y->0 as int, g.width->0 as int, g.height->0 as int);
            let d = matched(x, y, w, h, ds);
            &&& ds.contains(d)
            &&& top_visible(x, y, w, d)
            &&& MIN_W <= w <= d.width
            &&& y <= d.y + d.height - MIN_VISIBLE
        }),
    ensures
        clamped(g, ds).x == g.x,
        clamped(g, ds).y == g.y,
        clamped(g, ds).width == g.width,
{
    let (x, y, w, h) = (g.x->0 as int, g.y->0 as int, g.width->0 as int, g.height->0 as int);
    let d = matched(x, y, w, h, ds);
    let i = choose|i: int| 0 <= i < ds.len() && ds[i] == d;
    assert(top_visible(x, y, w, ds[i]));
    assert(any_top_visible(x, y, w, ds));
}

/// A window that can be reached on no display is put on one with equal room on
/// its left and its right, up to a pixel, and with a quarter of the room that is
/// left above it.
pub proof fn law_lost_window_is_centred(g: WindowGeometry, ds: Seq<DisplayRect>)
    requires
        clampable(g, ds),
        can_clamp(g, ds),
        !any_top_visible(g.x->0 as int, g.y->0 as int, g.width->0 as int, ds),
    ensures
        ({
            let d = matched(
                g.x->0 as int,
                g.y->0 as int,
                g.width->0 as int,
                g.height->0 as int,
                ds,
            );
            let c = clamped(g, ds);
            let left = c.x->0 - d.x;
            let right = d.x + d.width - (c.x->0 + c.width->0);
            let above = c.y->0 - d.y;
            let room = d.height - c.height->0;
            &&& 0 <= left <= right <= left + 1
            &&& 0 <= above && 4 * above <= room < 4 * above + 4
        }),
{
    let (x, y, w, h) = (g.x->0 as int, g.y->0 as int, g.width->0 as int, g.height->0 as int);
    let d = matched(x, y, w, h, ds);
    law_clamped_frame_is_reachable(g, ds);
    let i = choose|i: int| 0 <= i < ds.len() && ds[i] == d;
    assert(workable(x, y, w, h, ds[i]));
    let nw = seated_width(w, d);
    let nh = within(h, lesser(MIN_H as int, d.height as int), d.height as int);
    assert(nw <= d.width && nh <= d.height);
    assert(0 <= (d.width - nw) / 2 && 2 * ((d.width - nw) / 2) <= d.width - nw);
    assert(0 <= (d.height - nh) / 4 && 4 * ((d.height - nh) / 4) <= d.height - nh);
    assert(d.x + (d.width - nw) / 2 <= d.x + d.width - MIN_VISIBLE);
    assert(d.y + (d.height - nh) / 4 <= d.y + d.height - MIN_VISIBLE);
    let s = seated(x, y, w, h, d, false);
    assert(s.0 == d.x + (d.width - nw) / 2);
    assert(s.1 == d.y + (d.height - nh) / 4);
}

/// Each measure of a file is read by its own name: a place as it stands, an
/// extent only where it is above 0, and the flag only where it is true.
pub proof fn law_measures_are_read_by_name(text: Seq<char>, n: i64)
    requires
        json_text(text),
    ensures
        loaded(Some(text)).x == i64_field(text, "x"@),
        loaded(Some(text)).y == i64_field(text, "y"@),
        i64_field(text, "width"@) == Some(n) && n > 0 <==> loaded(Some(text)).width == Some(n),
        i64_field(text, "height"@) == Some(n) && n > 0 <==> loaded(Some(text)).height == Some(n),
        loaded(Some(text)).maximized <==> bool_field(text, "maximized"@) == Some(true),
{
}

/// The other systems keep the product's data where their programs do.
pub proof fn law_usual_places_elsewhere(d: DirsView)
    requires
        d.home.len() > 0,
        d.home.last() != '/',
        d.app_data.len() > 0,
        d.app_data.last() != '/' && d.app_data.last() != '\\' && d.app_data.last() != ':',
    ensures
        d.platform == Platform::Macos ==> user_data(d) == d.home + "/Library/Application Support/"@
            + PRODUCT_NAME@,
        d.platform == Platform::Windows ==> user_data(d) == d.app_data.push('\\') + PRODUCT_NAME@,
{
    reveal_strlit("Library");
    reveal_strlit("Application Support");
    reveal_strlit("/Library/Application Support/");
    let a = d.home.push('/') + "Library"@;
    let b = a.push('/') + "Application Support"@;
    law_parts_are_joined_by_one_separator(d.home, "Library"@);
    assert(a.last() == 'y');
    law_parts_are_joined_by_one_separator(a, "Application Support"@);
    assert(b.last() == 't');
    law_parts_are_joined_by_one_separator(b, PRODUCT_NAME@);
    assert(b.push('/') =~= d.home + "/Library/Application Support/"@);
    law_parts_are_joined_by_one_separator(d.app_data, PRODUCT_NAME@);
}

/// A frame that lies on a display shares its whole area with it, and one that
/// lies beside it none.
pub proof fn law_shared_area_is_the_overlap(x: int, y: int, w: int, h: int, d: DisplayRect)
    requires
        w >= 0,
        h >= 0,
    ensures
        d.x <= x && x + w <= d.x + d.width && d.y <= y && y + h <= d.y + d.height ==> shared_area(
            x,
            y,
            w,
            h,
            d,
        ) == w * h,
        x + w <= d.x || d.x + d.width <= x || y + h <= d.y || d.y + d.height <= y ==> shared_area(
            x,
            y,
            w,
            h,
            d,
        ) == 0,
{
    let a = greater(shared(x, w, d.x as int, d.width as int), 0);
    let b = greater(shared(y, h, d.y as int, d.height as int), 0);
    assert(a == 0 || b == 0 ==> a * b == 0) by (nonlinear_arith);
}

/// Of displays that share as much of a frame the last is meant, where they share
/// any.
pub proof fn law_last_of_equals_is_meant(
    x: int,
    y: int,
    w: int,
    h: int,
    ds: Seq<DisplayRect>,
    i: int,
)
    requires
        0 <= i < ds.len(),
        shared_area(x, y, w, h, ds[i]) > 0,
        forall|j: int|
            0 <= j < i ==> shared_area(x, y, w, h, #[trigger] ds[j]) <= shared_area(
                x,
                y,
                w,
                h,
                ds[i],
            ),
        forall|j: int|
            i < j < ds.len() ==> shared_area(x, y, w, h, #[trigger] ds[j]) < shared_area(
                x,
                y,
                w,
                h,
                ds[i],
            ),
    ensures
        matched(x, y, w, h, ds) == ds[i],
{
    lemma_most_is_the_last(x, y, w, h, ds, i, ds.len());
}

proof fn lemma_most_is_the_last(
    x: int,
    y: int,
    w: int,
    h: int,
    ds: Seq<DisplayRect>,
    i: int,
    n: nat,
)
    requires
        1 <= n <= ds.len(),
        0 <= i < ds.len(),
        forall|j: int|
            0 <= j < i ==> shared_area(x, y, w, h, #[trigger] ds[j]) <= shared_area(
                x,
                y,
                w,
                h,
                ds[i],
            ),
        forall|j: int|
            i < j < ds.len() ==> shared_area(x, y, w, h, #[trigger] ds[j]) < shared_area(
                x,
                y,
                w,
                h,
                ds[i],
            ),
    ensures
        0 <= most_shared(x, y, w, h, ds, n) < n,
        i < n ==> most_shared(x, y, w, h, ds, n) == i,
    decreases n,
{
    if n > 1 {
        lemma_most_is_the_last(x, y, w, h, ds, i, (n - 1) as nat);
        let b = most_shared(x, y, w, h, ds, (n - 1) as nat);
        assert(ds[b] == ds[b] && ds[n - 1] == ds[n - 1]);
    }
}

/// A drive alone takes no separator: what follows it is relative to the drive's
/// own directory.
pub proof fn law_drive_alone_takes_no_separator(c: char, rel: Seq<char>)
    requires
        is_ascii_letter(c),
    ensures
        joined(seq![c, ':'], rel, Platform::Windows) == seq![c, ':'] + rel,
        joined(seq![c, ':'], rel, Platform::Linux) == seq![c, ':', '/'] + rel,
        joined(Seq::empty(), rel, Platform::Linux) == rel,
{
    reveal_strlit("/");
    let b = seq![c, ':'];
    assert(b.last() == ':');
    assert(b + "/"@ =~= seq![c, ':', '/']);
    assert(Seq::<char>::empty() + rel =~= rel);
}

} // verus!
