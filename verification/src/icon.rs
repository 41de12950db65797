//! The tray icon, drawn pixel by pixel.
//!
//! A disc shows by its colour whether noise is removed. A warning badge in the
//! corner shows that no audio is running at all. The icon is the only surface
//! the program has, so both have to be readable at a glance.
use vstd::prelude::*;

verus! {

/// The icon's width and height in pixels.
pub const ICON_SIZE: usize = 32;

/// Noise is being removed: blue-green.
pub const ACTIVE: [u8; 4] = [0x2a, 0xa1, 0x98, 0xff];

/// Audio passes through untouched: orange, because at this size a difference
/// in brightness is invisible and one in hue is not.
pub const BYPASSED: [u8; 4] = [0xd0, 0x6b, 0x18, 0xff];

/// The badge's outline and its exclamation mark.
pub const DARK: [u8; 4] = [0x1c, 0x1c, 0x1c, 0xff];

/// The badge's fill.
pub const AMBER: [u8; 4] = [0xf5, 0xa6, 0x23, 0xff];

/// Nothing.
pub const CLEAR: [u8; 4] = [0x00, 0x00, 0x00, 0x00];

/// The distance between two coordinates.
pub open spec fn distance(a: int, b: int) -> int {
    if a >= b {
        a - b
    } else {
        b - a
    }
}

/// The pixel lies in a triangle with its tip at the top in column `cx`, which
/// widens evenly to `max_half` pixels on either side at `bottom`.
pub open spec fn inside_triangle(
    x: int,
    y: int,
    top: int,
    bottom: int,
    cx: int,
    max_half: int,
) -> bool {
    &&& top <= y <= bottom
    &&& distance(x, cx) * (bottom - top) <= (y - top) * max_half
}

/// The pixel lies on the disc, which is 14 pixels in radius.
pub open spec fn on_disc(x: int, y: int) -> bool {
    (x - 16) * (x - 16) + (y - 16) * (y - 16) <= 14 * 14
}

/// The pixel lies on the exclamation mark.
pub open spec fn on_mark(x: int, y: int) -> bool {
    22 <= x <= 23 && (20 <= y <= 25 || 27 <= y <= 28)
}

/// The colour of a pixel.
pub open spec fn pixel(enabled: bool, warning: bool, x: int, y: int) -> [u8; 4] {
    if warning && on_mark(x, y) {
        DARK
    } else if warning && inside_triangle(x, y, 17, 29, 23, 6) {
        AMBER
    } else if warning && inside_triangle(x, y, 14, 31, 23, 9) {
        DARK
    } else if on_disc(x, y) {
        if enabled {
            ACTIVE
        } else {
            BYPASSED
        }
    } else {
        CLEAR
    }
}

/// Whether a pixel lies in a triangle.
fn in_triangle(x: usize, y: usize, top: usize, bottom: usize, cx: usize, max_half: usize) -> (r:
    bool)
    requires
        x < ICON_SIZE,
        y < ICON_SIZE,
        top < bottom < ICON_SIZE,
        cx < ICON_SIZE,
        max_half < ICON_SIZE,
    ensures
        r == inside_triangle(
            x as int,
            y as int,
            top as int,
            bottom as int,
            cx as int,
            max_half as int,
        ),
{
    if y < top || y > bottom {
        return false;
    }
    let off: usize = if x >= cx {
        x - cx
    } else {
        cx - x
    };
    assert(off * (bottom - top) <= 32 * 32) by (nonlinear_arith)
        requires
            0 <= off <= 32,
            0 <= bottom - top <= 32,
    ;
    assert((y - top) * max_half <= 32 * 32) by (nonlinear_arith)
        requires
            0 <= y - top <= 32,
            0 <= max_half <= 32,
    ;
    off * (bottom - top) <= (y - top) * max_half
}

/// The colour of a pixel.
fn colour_at(enabled: bool, warning: bool, x: usize, y: usize) -> (r: [u8; 4])
    requires
        x < ICON_SIZE,
        y < ICON_SIZE,
    ensures
        r == pixel(enabled, warning, x as int, y as int),
{
    if warning {
        if 22 <= x && x <= 23 && (20 <= y && y <= 25 || 27 <= y && y <= 28) {
            return DARK;
        }
        if in_triangle(x, y, 17, 29, 23, 6) {
            return AMBER;
        }
        if in_triangle(x, y, 14, 31, 23, 9) {
            return DARK;
        }
    }
    let dx: i32 = x as i32 - 16;
    let dy: i32 = y as i32 - 16;
    assert(dx * dx <= 16 * 16) by (nonlinear_arith)
        requires
            -16 <= dx <= 16,
    ;
    assert(dy * dy <= 16 * 16) by (nonlinear_arith)
        requires
            -16 <= dy <= 16,
    ;
    assert(dx * dx >= 0) by (nonlinear_arith);
    assert(dy * dy >= 0) by (nonlinear_arith);
    if dx * dx + dy * dy <= 14 * 14 {
        if enabled {
            ACTIVE
        } else {
            BYPASSED
        }
    } else {
        CLEAR
    }
}

/// The icon, row by row, four bytes a pixel: red, green, blue and opacity.
pub fn icon_rgba(enabled: bool, warning: bool) -> (r: Vec<u8>)
    ensures
        r@.len() == ICON_SIZE * ICON_SIZE * 4,
        forall|x: int, y: int, c: int|
            0 <= x < ICON_SIZE && 0 <= y < ICON_SIZE && 0 <= c < 4 ==> #[trigger] r@[(y * ICON_SIZE
                + x) * 4 + c] == pixel(enabled, warning, x, y)@[c],
{
    let mut rgba: Vec<u8> = Vec::with_capacity(ICON_SIZE * ICON_SIZE * 4);
    for y in 0..ICON_SIZE
        invariant
            rgba@.len() == y * ICON_SIZE * 4,
            forall|a: int, b: int, c: int|
                0 <= a < ICON_SIZE && 0 <= b < y && 0 <= c < 4 ==> #[trigger] rgba@[(b * ICON_SIZE
                    + a) * 4 + c] == pixel(enabled, warning, a, b)@[c],
    {
        for x in 0..ICON_SIZE
            invariant
                y < ICON_SIZE,
                rgba@.len() == (y * ICON_SIZE + x) * 4,
                forall|a: int, b: int, c: int|
                    0 <= a < ICON_SIZE && 0 <= b < ICON_SIZE && 0 <= c < 4 && (b < y || b == y && a
                        < x) ==> #[trigger] rgba@[(b * ICON_SIZE + a) * 4 + c] == pixel(
                        enabled,
                        warning,
                        a,
                        b,
                    )@[c],
        {
            let ghost before = rgba@;
            let colour = colour_at(enabled, warning, x, y);
            rgba.push(colour[0]);
            rgba.push(colour[1]);
            rgba.push(colour[2]);
            rgba.push(colour[3]);
            assert forall|a: int, b: int, c: int|
                0 <= a < ICON_SIZE && 0 <= b < ICON_SIZE && 0 <= c < 4 && (b < y || b == y && a < x
                    + 1) implies #[trigger] rgba@[(b * ICON_SIZE + a) * 4 + c] == pixel(
                enabled,
                warning,
                a,
                b,
            )@[c] by {
                if b < y || a < x {
                    assert((b * ICON_SIZE + a) * 4 + c < before.len());
                    assert(before[(b * ICON_SIZE + a) * 4 + c] == pixel(enabled, warning, a, b)@[c]);
                }
            }
        }
    }
    rgba
}

/// The badge leaves the disc readable: outside the badge the icon shows what it
/// shows without one, and in the corner opposite, the whole of it is outside.
pub proof fn law_the_badge_stays_in_its_corner(enabled: bool, x: int, y: int)
    requires
        0 <= x < ICON_SIZE,
        0 <= y < ICON_SIZE,
    ensures
        !inside_triangle(x, y, 14, 31, 23, 9) ==> pixel(enabled, true, x, y) == pixel(
            enabled,
            false,
            x,
            y,
        ),
        x < 14 || y < 14 ==> !inside_triangle(x, y, 14, 31, 23, 9),
{
    if on_mark(x, y) || inside_triangle(x, y, 17, 29, 23, 6) {
        assert(inside_triangle(x, y, 14, 31, 23, 9));
    }
}

/// No two states look alike: whether noise is removed shows in the middle of
/// the disc, badge or no badge, and the badge itself in its tip.
pub proof fn law_every_state_looks_different(enabled: bool, warning: bool)
    ensures
        pixel(enabled, warning, 16, 16) == (if enabled {
            ACTIVE
        } else {
            BYPASSED
        }),
        ACTIVE != BYPASSED,
        pixel(enabled, warning, 23, 18) == AMBER <==> warning,
{
    assert(ACTIVE@[0] == 0x2au8);
    assert(BYPASSED@[0] == 0xd0u8);
    assert(AMBER@[0] == 0xf5u8);
    assert(CLEAR@[0] == 0u8);
}

/// The disc is round: a quarter turn about its middle leaves the icon without a
/// badge as it is.
pub proof fn law_the_disc_is_round(enabled: bool, dx: int, dy: int)
    ensures
        pixel(enabled, false, 16 + dx, 16 + dy) == pixel(enabled, false, 16 - dy, 16 + dx),
{
    assert(dx * dx + dy * dy == (-dy) * (-dy) + dx * dx) by (nonlinear_arith);
}

/// The badge is a triangle on its base: it is as wide to the left as to the
/// right of its tip, it never narrows from one row to the next, and a row has no
/// gaps.
pub proof fn law_the_badge_widens_to_its_base(x: int, y: int, d: int, top: int, bottom: int)
    requires
        top < bottom,
        0 <= d,
    ensures
        inside_triangle(23 + d, y, top, bottom, 23, 9) <==> inside_triangle(
            23 - d,
            y,
            top,
            bottom,
            23,
            9,
        ),
        inside_triangle(x, y, top, bottom, 23, 9) && y < bottom ==> inside_triangle(
            x,
            y + 1,
            top,
            bottom,
            23,
            9,
        ),
        inside_triangle(23 + d + 1, y, top, bottom, 23, 9) ==> inside_triangle(
            23 + d,
            y,
            top,
            bottom,
            23,
            9,
        ),
        inside_triangle(23, top, top, bottom, 23, 9),
        inside_triangle(32, bottom, top, bottom, 23, 9),
        !inside_triangle(33, bottom, top, bottom, 23, 9),
{
    let h = bottom - top;
    assert((d + 1) * h >= d * h) by (nonlinear_arith)
        requires
            h > 0,
    ;
    assert(9 * h <= h * 9 && 10 * h > h * 9) by (nonlinear_arith)
        requires
            h > 0,
    ;
}

} // verus!
