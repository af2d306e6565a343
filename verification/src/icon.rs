//! Procedurally-generated application icon.
//!
//! Drawn in code (no binary asset) as a rounded dark badge carrying the app's
//! bandwidth motif: a green download arrow and a blue upload arrow, the same
//! green/blue used for Down/Up throughout the UI. Returned as RGBA for the
//! window/taskbar icon, and serializable to a `.ico` for the executable.
//!
//! The geometry is worked out exactly, in whole hundredths of a pixel.

use crate::gui::{blue, green, red, blue_of, green_of, red_of, COLOR_DOWN, COLOR_UP};
use vstd::prelude::*;

verus! {

/// Icon edge length in pixels.
pub const SIZE: u32 = 64;

/// Half the edge length, in hundredths of a pixel: where the middle is.
pub const MIDDLE: i64 = 3200;

/// Radius of the badge's corners.
pub const RADIUS: i64 = 1408;

/// How far from the middle the straight part of each edge ends: the badge
/// leaves a margin of 3.84 pixels on each side.
pub const STRAIGHT: i64 = 1408;

/// Where the arrows begin and end vertically.
pub const ARROW_TOP: i64 = 1536;
pub const ARROW_BOTTOM: i64 = 4864;

/// Half the width of an arrow's shaft.
pub const STEM_HALF: i64 = 352;

/// Half the width of an arrowhead at its base.
pub const HEAD_HALF: i64 = 1024;

/// Where the arrowheads begin, in percent of the arrow's length.
pub const HEAD_START: i64 = 55;

/// The horizontal centres of the two arrows.
pub const LEFT: i64 = 2176;
pub const RIGHT: i64 = 4224;

/// The background at the bottom and at the top.
pub const BG: u32 = 0x1e_24_30;
pub const BG_EDGE: u32 = 0x2b_33_42;

/// Where the centre of pixel `i` lies along an axis.
pub open spec fn centre(i: int) -> int {
    100 * i + 50
}

/// The distance between two places on an axis.
pub open spec fn distance(a: int, b: int) -> int {
    if a < b {
        b - a
    } else {
        a - b
    }
}

/// How far beyond the straight part of an edge pixel `i` lies.
pub open spec fn overhang(i: int) -> int {
    distance(centre(i), MIDDLE as int) - STRAIGHT
}

/// The greater of a number and zero.
pub open spec fn above_zero(n: int) -> int {
    if n > 0 {
        n
    } else {
        0
    }
}

/// The square of a pixel's distance from the rectangle that the corners' centres
/// span; zero inside of it.
pub open spec fn corner_square(x: int, y: int) -> int {
    let (dx, dy) = (above_zero(overhang(x)), above_zero(overhang(y)));
    dx * dx + dy * dy
}

/// How far inside that rectangle a pixel lies, from its nearest side.
pub open spec fn depth(x: int, y: int) -> int {
    let nearest = if overhang(x) > overhang(y) {
        overhang(x)
    } else {
        overhang(y)
    };
    above_zero(-nearest)
}

/// Half a pixel more than the way from a pixel's corner centre to the outline.
/// What is left of it at the pixel is how much of the pixel the badge covers, so
/// the outline is smoothed over one pixel.
pub open spec fn reach(x: int, y: int) -> int {
    RADIUS + 50 + depth(x, y)
}

/// Whether the badge covers any of the pixel.
pub open spec fn covered(x: int, y: int) -> bool {
    corner_square(x, y) < reach(x, y) * reach(x, y)
}

/// Whether the badge covers at least `a` parts in 255 of the pixel. The root of
/// the square is left out: both sides are squared, 255 with them.
pub open spec fn covers(x: int, y: int, a: int) -> bool {
    let rest = 255 * reach(x, y) - 100 * a;
    rest >= 0 && 65_025 * corner_square(x, y) <= rest * rest
}

/// Whether `a` is a pixel's opacity: as many whole parts in 255 as are covered.
pub open spec fn is_opacity(x: int, y: int, a: int) -> bool {
    &&& 0 <= a <= 255
    &&& covers(x, y, a)
    &&& forall|b: int| a < b <= 255 ==> !#[trigger] covers(x, y, b)
}

/// A pixel's opacity.
pub open spec fn opacity(x: int, y: int) -> int {
    choose|a: int| is_opacity(x, y, a)
}

/// Whether a pixel is inside the chunky arrow glyph centred at `cx`. `down`
/// points the arrow downward (download), else upward (upload).
pub open spec fn in_arrow(x: int, y: int, cx: int, down: bool) -> bool {
    let along = if down {
        centre(y)
    } else {
        2 * MIDDLE - centre(y)
    };
    let aside = distance(centre(x), cx);
    let length = ARROW_BOTTOM - ARROW_TOP;
    &&& ARROW_TOP <= along <= ARROW_BOTTOM
    &&& if 100 * (along - ARROW_TOP) < HEAD_START * length {
        aside <= STEM_HALF
    } else {
        // A triangular head that narrows to the tip.
        aside * ((100 - HEAD_START) * length) <= (HEAD_HALF * 100) * (ARROW_BOTTOM - along)
    }
}

/// One channel of the background in row `y`: a vertical gradient for a bit of
/// depth.
pub open spec fn gradient(top: u8, bottom: u8, y: int) -> u8 {
    ((top * 128 + (bottom - top) * (2 * y + 1)) / 128) as u8
}

/// The red, green and blue of a pixel on the badge. Left glyph: download arrow.
/// Right glyph: upload arrow.
pub open spec fn paint(x: int, y: int) -> (u8, u8, u8) {
    if in_arrow(x, y, LEFT as int, true) {
        (red(COLOR_DOWN), green(COLOR_DOWN), blue(COLOR_DOWN))
    } else if in_arrow(x, y, RIGHT as int, false) {
        (red(COLOR_UP), green(COLOR_UP), blue(COLOR_UP))
    } else {
        (
            gradient(red(BG_EDGE), red(BG), y),
            gradient(green(BG_EDGE), green(BG), y),
            gradient(blue(BG_EDGE), blue(BG), y),
        )
    }
}

/// The pixel in column `x` of row `y`: red, green, blue, opacity.
#[verifier::opaque]
pub open spec fn pixel(x: int, y: int) -> Seq<u8> {
    if covered(x, y) {
        let (r, g, b) = paint(x, y);
        seq![r, g, b, opacity(x, y) as u8]
    } else {
        seq![0u8, 0u8, 0u8, 0u8]
    }
}

/// The whole icon, row by row from the top left.
pub open spec fn drawing() -> Seq<u8> {
    Seq::new(64 * 64 * 4, |k: int| pixel(k / 4 % 64, k / 256)[k % 4])
}

/// Compute [`distance`].
fn distance_between(a: i64, b: i64) -> (d: i64)
    requires
        0 <= a <= 10_000,
        0 <= b <= 10_000,
    ensures
        d == distance(a as int, b as int),
{
    if a < b {
        b - a
    } else {
        a - b
    }
}

/// Compute [`in_arrow`].
fn is_in_arrow(x: u32, y: u32, cx: i64, down: bool) -> (inside: bool)
    requires
        x < SIZE,
        y < SIZE,
        0 <= cx <= 2 * MIDDLE,
    ensures
        inside == in_arrow(x as int, y as int, cx as int, down),
{
    let centre_y = 100 * (y as i64) + 50;
    let along: i64 = if down {
        centre_y
    } else {
        2 * MIDDLE - centre_y
    };
    let aside = distance_between(100 * (x as i64) + 50, cx);
    if along < ARROW_TOP || along > ARROW_BOTTOM {
        return false;
    }
    let length: i64 = ARROW_BOTTOM - ARROW_TOP;
    if 100 * (along - ARROW_TOP) < HEAD_START * length {
        aside <= STEM_HALF
    } else {
        let across: i64 = (100 - HEAD_START) * length;
        let down_to: i64 = HEAD_HALF * 100;
        let rest: i64 = ARROW_BOTTOM - along;
        assert(0 <= aside * across <= 10_000 * 200_000) by (nonlinear_arith)
            requires
                0 <= aside <= 10_000,
                0 <= across <= 200_000,
        ;
        assert(0 <= down_to * rest <= 200_000 * 5_000) by (nonlinear_arith)
            requires
                0 <= down_to <= 200_000,
                0 <= rest <= 5_000,
        ;
        aside * across <= down_to * rest
    }
}

/// Compute [`gradient`].
fn gradient_at(top: u8, bottom: u8, y: u32) -> (channel: u8)
    requires
        y < SIZE,
    ensures
        channel == gradient(top, bottom, y as int),
{
    let t = 2 * (y as i64) + 1;
    let (top, bottom) = (top as i64, bottom as i64);
    assert(0 <= top * (128 - t) + bottom * t <= 255 * 128) by (nonlinear_arith)
        requires
            0 <= top <= 255,
            0 <= bottom <= 255,
            0 <= t <= 128,
    ;
    assert(top * 128 + (bottom - top) * t == top * (128 - t) + bottom * t) by (nonlinear_arith);
    assert(-255 * 128 <= (bottom - top) * t <= 255 * 128) by (nonlinear_arith)
        requires
            0 <= top <= 255,
            0 <= bottom <= 255,
            0 <= t <= 128,
    ;
    ((top * 128 + (bottom - top) * t) / 128) as u8
}

/// Compute [`paint`].
fn paint_at(x: u32, y: u32) -> (colour: (u8, u8, u8))
    requires
        x < SIZE,
        y < SIZE,
    ensures
        colour == paint(x as int, y as int),
{
    if is_in_arrow(x, y, LEFT, true) {
        (red_of(COLOR_DOWN), green_of(COLOR_DOWN), blue_of(COLOR_DOWN))
    } else if is_in_arrow(x, y, RIGHT, false) {
        (red_of(COLOR_UP), green_of(COLOR_UP), blue_of(COLOR_UP))
    } else {
        (
            gradient_at(red_of(BG_EDGE), red_of(BG), y),
            gradient_at(green_of(BG_EDGE), green_of(BG), y),
            gradient_at(blue_of(BG_EDGE), blue_of(BG), y),
        )
    }
}

/// Whether at least `a` parts in 255 are covered, given [`corner_square`] and
/// [`reach`].
fn is_covered(square: i64, reach: i64, a: i64) -> (enough: bool)
    requires
        0 <= square <= 8_000_000,
        0 <= reach <= 3_000,
        0 <= a <= 255,
    ensures
        enough == ({
            let rest = 255 * reach - 100 * a;
            rest >= 0 && 65_025 * square <= rest * rest
        }),
{
    let rest: i64 = 255 * reach - 100 * a;
    if rest < 0 {
        return false;
    }
    assert(0 <= rest * rest <= 765_000 * 765_000) by (nonlinear_arith)
        requires
            0 <= rest <= 765_000,
    ;
    65_025 * square <= rest * rest
}

/// There is one opacity only.
pub(crate) proof fn lemma_opacity(x: int, y: int, a: int)
    requires
        is_opacity(x, y, a),
    ensures
        opacity(x, y) == a,
{
    let b = opacity(x, y);
    assert(is_opacity(x, y, b));
    if a < b {
        assert(!covers(x, y, b));
    }
    if b < a {
        assert(!covers(x, y, a));
    }
}

/// How opaque the badge is at a pixel; `None` outside of it.
fn opacity_at(x: u32, y: u32) -> (found: Option<u8>)
    requires
        x < SIZE,
        y < SIZE,
    ensures
        found == (if covered(x as int, y as int) {
            Some(opacity(x as int, y as int) as u8)
        } else {
            None
        }),
{
    let over_x = distance_between(100 * (x as i64) + 50, MIDDLE) - STRAIGHT;
    let over_y = distance_between(100 * (y as i64) + 50, MIDDLE) - STRAIGHT;
    let dx: i64 = if over_x > 0 {
        over_x
    } else {
        0
    };
    let dy: i64 = if over_y > 0 {
        over_y
    } else {
        0
    };
    let nearest = if over_x > over_y {
        over_x
    } else {
        over_y
    };
    let depth: i64 = if nearest < 0 {
        -nearest
    } else {
        0
    };
    assert(0 <= dx * dx <= 2000 * 2000) by (nonlinear_arith)
        requires
            0 <= dx <= 2000,
    ;
    assert(0 <= dy * dy <= 2000 * 2000) by (nonlinear_arith)
        requires
            0 <= dy <= 2000,
    ;
    let square: i64 = dx * dx + dy * dy;
    let reach: i64 = RADIUS + 50 + depth;
    assert(0 <= reach * reach <= 3000 * 3000) by (nonlinear_arith)
        requires
            0 <= reach <= 3000,
    ;
    if square >= reach * reach {
        return None;
    }
    let mut a: i64 = 255;
    let ghost (gx, gy) = (x as int, y as int);
    while !is_covered(square, reach, a)
        invariant
            0 <= a <= 255,
            0 <= square <= 8_000_000,
            0 <= reach <= 3000,
            square == corner_square(gx, gy),
            reach == self::reach(gx, gy),
            square < reach * reach,
            forall|b: int| a < b <= 255 ==> !#[trigger] covers(gx, gy, b),
        decreases a,
    {
        if a == 0 {
            assert(65_025 * square <= (255 * reach) * (255 * reach)) by (nonlinear_arith)
                requires
                    square < reach * reach,
            ;
        }
        assert(!covers(gx, gy, a as int));
        a = a - 1;
    }
    proof {
        lemma_opacity(gx, gy, a as int);
    }
    Some(a as u8)
}

/// Compute [`pixel`].
fn pixel_at(x: u32, y: u32) -> (px: (u8, u8, u8, u8))
    requires
        x < SIZE,
        y < SIZE,
    ensures
        pixel(x as int, y as int) == seq![px.0, px.1, px.2, px.3],
{
    reveal(pixel);
    match opacity_at(x, y) {
        Some(a) => {
            let (r, g, b) = paint_at(x, y);
            (r, g, b, a)
        },
        None => (0, 0, 0, 0),
    }
}

/// Generate the icon as `SIZE x SIZE` RGBA8 pixels (row-major, top-left origin).
pub fn rgba() -> (px: Vec<u8>)
    ensures
        px@ == drawing(),
{
    let mut px: Vec<u8> = Vec::new();
    let mut p: u32 = 0;
    while p < SIZE * SIZE
        invariant
            p <= SIZE * SIZE,
            px@ == drawing().take(4 * p),
        decreases SIZE * SIZE - p,
    {
        let (r, g, b, a) = pixel_at(p % SIZE, p / SIZE);
        px.push(r);
        px.push(g);
        px.push(b);
        px.push(a);
        assert(px@ =~= drawing().take(4 * (p + 1)));
        p = p + 1;
    }
    assert(px@ =~= drawing());
    px
}

/// A number in `width` bytes, the lowest first.
pub open spec fn little_endian(n: nat, width: nat) -> Seq<u8>
    decreases width,
{
    if width == 0 {
        Seq::empty()
    } else {
        seq![(n % 256) as u8] + little_endian(n / 256, (width - 1) as nat)
    }
}

/// The first bytes of the file: the directory with its only entry (64 x 64
/// pixels, no palette, one plane of 32 bits per pixel, the size of what follows
/// and where it starts), then the bitmap's header, its height doubled since the
/// mask counts too.
pub open spec fn ico_header() -> Seq<u8> {
    little_endian(0, 2) + little_endian(1, 2) + little_endian(1, 2) + seq![64u8, 64u8, 0u8, 0u8]
        + little_endian(1, 2) + little_endian(32, 2) + little_endian(
        40 + 64 * 64 * 4 + 64 * 8,
        4,
    ) + little_endian(22, 4) + little_endian(40, 4) + little_endian(64, 4) + little_endian(128, 4)
        + little_endian(1, 2) + little_endian(32, 2) + little_endian(0, 4) + little_endian(0, 4)
        + little_endian(0, 4) + little_endian(0, 4) + little_endian(0, 4) + little_endian(0, 4)
}

/// Which channel of a pixel stands at place `k` of its four bytes: blue, green,
/// red, opacity.
pub open spec fn swapped(k: int) -> int {
    if k == 3 {
        3
    } else {
        2 - k
    }
}

/// The pixels from the bottom row up, blue first.
pub open spec fn flipped(rgba: Seq<u8>) -> Seq<u8> {
    Seq::new(64 * 64 * 4, |k: int| rgba[(63 - k / 256) * 256 + k % 256 / 4 * 4 + swapped(k % 4)])
}

/// The icon as a `.ico` file with a single image.
pub open spec fn ico(rgba: Seq<u8>) -> Seq<u8> {
    // The mask is all zeros: the opacity carries the transparency already.
    ico_header() + flipped(rgba) + Seq::new(64 * 8, |k: int| 0u8)
}

/// Append a number in `width` bytes.
fn push_little_endian(out: &mut Vec<u8>, n: u32, width: u32)
    ensures
        final(out)@ == old(out)@ + little_endian(n as nat, width as nat),
    decreases width,
{
    if width > 0 {
        out.push((n % 256) as u8);
        push_little_endian(out, n / 256, width - 1);
    }
    assert(out@ =~= old(out)@ + little_endian(n as nat, width as nat));
}

/// Build [`ico_header`].
fn header_bytes() -> (ico: Vec<u8>)
    ensures
        ico@ == ico_header(),
{
    let mut ico: Vec<u8> = Vec::new();
    push_little_endian(&mut ico, 0, 2);  // reserved
    push_little_endian(&mut ico, 1, 2);  // type = icon
    push_little_endian(&mut ico, 1, 2);  // image count
    ico.push(64);
    ico.push(64);
    ico.push(0);  // palette
    ico.push(0);  // reserved
    push_little_endian(&mut ico, 1, 2);  // color planes
    push_little_endian(&mut ico, 32, 2);  // bits per pixel
    push_little_endian(&mut ico, 16_936, 4);  // size of the bitmap
    push_little_endian(&mut ico, 22, 4);  // where it starts
    push_little_endian(&mut ico, 40, 4);  // size of its header
    push_little_endian(&mut ico, 64, 4);
    push_little_endian(&mut ico, 128, 4);
    push_little_endian(&mut ico, 1, 2);
    push_little_endian(&mut ico, 32, 2);
    push_little_endian(&mut ico, 0, 4);  // uncompressed
    push_little_endian(&mut ico, 0, 4);
    push_little_endian(&mut ico, 0, 4);
    push_little_endian(&mut ico, 0, 4);
    push_little_endian(&mut ico, 0, 4);
    push_little_endian(&mut ico, 0, 4);
    assert(ico@ =~= ico_header());
    ico
}

/// Encode the icon as a single-image `.ico` (32-bit BGRA bitmap) for the Windows
/// executable resource.
pub fn ico_bytes() -> (bytes: Vec<u8>)
    ensures
        bytes@ == ico(drawing()),
{
    let px = rgba();
    let mut bytes = header_bytes();
    let ghost header = bytes@;
    let mut p: usize = 0;
    while p < 64 * 64
        invariant
            p <= 64 * 64,
            px@.len() == 64 * 64 * 4,
            bytes@ == header + flipped(px@).take(4 * p),
        decreases 64 * 64 - p,
    {
        let i: usize = ((63 - p / 64) * 64 + p % 64) * 4;
        bytes.push(px[i + 2]);
        bytes.push(px[i + 1]);
        bytes.push(px[i]);
        bytes.push(px[i + 3]);
        assert(bytes@ =~= header + flipped(px@).take(4 * (p + 1)));
        p = p + 1;
    }
    let ghost image = header + flipped(px@);
    assert(bytes@ =~= image);
    let mut m: usize = 0;
    while m < 64 * 8
        invariant
            m <= 64 * 8,
            bytes@ == image + Seq::new(m as nat, |k: int| 0u8),
        decreases 64 * 8 - m,
    {
        bytes.push(0);
        m = m + 1;
        assert(bytes@ =~= image + Seq::new(m as nat, |k: int| 0u8));
    }
    bytes
}

} // verus!
