//! What the icon looks like, and that its file holds it.

use crate::gui::{blue, green, red};
use crate::icon::{
    corner_square, covered, covers, depth, drawing, flipped, gradient, ico, ico_header, in_arrow,
    is_opacity, lemma_opacity, little_endian, opacity, overhang, paint, pixel, reach, swapped,
    ARROW_BOTTOM, ARROW_TOP, HEAD_HALF, HEAD_START,
};
use vstd::prelude::*;

verus! {

/// The picture holds its pixels row by row from the top left, each as red, green,
/// blue and opacity.
pub proof fn law_pixels_stand_in_rows(x: int, y: int, k: int)
    requires
        0 <= x < 64,
        0 <= y < 64,
        0 <= k < 4,
    ensures
        drawing().len() == 64 * 64 * 4,
        drawing()[4 * (64 * y + x) + k] == pixel(x, y)[k],
{
    let i = 4 * (64 * y + x) + k;
    assert(i / 4 == 64 * y + x && i % 4 == k);
    assert(i / 256 == y);
    assert((64 * y + x) % 64 == x);
}

/// A pixel outside of the badge is transparent, one on it has its colour and its
/// opacity.
pub proof fn law_pixels_are_painted(x: int, y: int)
    ensures
        !covered(x, y) ==> pixel(x, y) == seq![0u8, 0u8, 0u8, 0u8],
        covered(x, y) ==> {
            let (r, g, b) = paint(x, y);
            pixel(x, y) == seq![r, g, b, opacity(x, y) as u8]
        },
{
    reveal(pixel);
}

/// How far a pixel's centre lies from the middle of the picture along an axis, in
/// hundredths of a pixel.
pub open spec fn off_centre(i: int) -> int {
    if i < 32 {
        3150 - 100 * i
    } else {
        100 * i - 3150
    }
}

/// The badge is a square with rounded corners. Where neither axis is more than
/// 14.08 pixels off the centre it is opaque. Past that on one axis or both, the
/// distance from there counts, the radius being 14.08 pixels too, and the outline
/// is smoothed over one pixel.
pub proof fn law_badge_is_a_rounded_square(x: int, y: int)
    ensures
        ({
            let (u, v) = (off_centre(x), off_centre(y));
            &&& u <= 1408 && v <= 1408 ==> covered(x, y) && opacity(x, y) == 255
            &&& u >= 1408 && v <= 1408 ==> (covered(x, y) <==> u < 2866)
            &&& u <= 1408 && v >= 1408 ==> (covered(x, y) <==> v < 2866)
            &&& u >= 1408 && v >= 1408 ==> (covered(x, y) <==> (u - 1408) * (u - 1408) + (v - 1408)
                * (v - 1408) < 1458 * 1458)
        }),
{
    let (u, v) = (off_centre(x), off_centre(y));
    assert(overhang(x) == u - 1408);
    assert(overhang(y) == v - 1408);
    if u <= 1408 && v <= 1408 {
        let r = reach(x, y);
        assert(r >= 1458);
        assert(corner_square(x, y) == 0);
        assert(r * r > 0) by (nonlinear_arith)
            requires
                r >= 1458,
        ;
        let rest = 255 * r - 25_500;
        assert(rest * rest >= 0) by (nonlinear_arith);
        assert(covers(x, y, 255));
        assert(is_opacity(x, y, 255));
        lemma_opacity(x, y, 255);
    } else {
        assert(depth(x, y) == 0);
        assert(reach(x, y) == 1458);
        if v <= 1408 {
            let d = u - 1408;
            assert(corner_square(x, y) == d * d);
            assert(d * d < 1458 * 1458 <==> d < 1458) by (nonlinear_arith)
                requires
                    d >= 0,
            ;
        } else if u <= 1408 {
            let d = v - 1408;
            assert(corner_square(x, y) == d * d);
            assert(d * d < 1458 * 1458 <==> d < 1458) by (nonlinear_arith)
                requires
                    d >= 0,
            ;
        }
        if u == 1408 && v > 1408 {
            let d = v - 1408;
            assert(d * d < 1458 * 1458 <==> d < 1458) by (nonlinear_arith)
                requires
                    d >= 0,
            ;
        }
        if v == 1408 && u > 1408 {
            assert(corner_square(x, y) == (u - 1408) * (u - 1408));
        }
    }
}

/// Along a straight edge a pixel is as opaque as the part of it that lies inside
/// the outline, in whole parts of 255: all of it if that is a pixel or more.
pub proof fn law_edges_are_smooth(x: int, y: int)
    requires
        1408 <= off_centre(x) < 2866,
        off_centre(y) <= 1408,
    ensures
        ({
            let inside = 2866 - off_centre(x);
            opacity(x, y) == if inside >= 100 {
                255
            } else {
                255 * inside / 100
            }
        }),
{
    let d = off_centre(x) - 1408;
    let inside = 1458 - d;
    assert(overhang(x) == d);
    assert(overhang(y) == off_centre(y) - 1408);
    assert(corner_square(x, y) == d * d);
    assert(reach(x, y) == 1458);
    let a: int = if inside >= 100 {
        255
    } else {
        255 * inside / 100
    };
    assert forall|b: int| 0 <= b <= 255 implies (#[trigger] covers(x, y, b) <==> 100 * b <= 255
        * inside) by {
        let rest = 255 * 1458 - 100 * b;
        assert(65_025 * (d * d) <= rest * rest <==> 255 * d <= rest) by (nonlinear_arith)
            requires
                d >= 0,
                rest >= 0,
        ;
    }
    assert(covers(x, y, a));
    assert(is_opacity(x, y, a));
    lemma_opacity(x, y, a);
}

/// At a corner a pixel is as opaque as its distance from the corner's centre
/// leaves inside the outline, in whole parts of 255.
pub proof fn law_corners_are_smooth(x: int, y: int)
    requires
        off_centre(x) >= 1408,
        off_centre(y) >= 1408,
        covered(x, y),
    ensures
        ({
            let (u, v) = (off_centre(x) - 1408, off_centre(y) - 1408);
            let a = opacity(x, y);
            let (rest, less) = (371_790 - 100 * a, 371_690 - 100 * a);
            &&& 0 <= a <= 255
            &&& 65_025 * (u * u + v * v) <= rest * rest
            &&& a < 255 ==> 65_025 * (u * u + v * v) > less * less
        }),
{
    let (u, v) = (off_centre(x) - 1408, off_centre(y) - 1408);
    assert(overhang(x) == u);
    assert(overhang(y) == v);
    assert(corner_square(x, y) == u * u + v * v);
    assert(reach(x, y) == 1458);
    let square = corner_square(x, y);
    assert(square < 1458 * 1458);
    assert(covers(x, y, 0)) by {
        let rest = 255 * reach(x, y) - 100 * 0;
        assert(rest == 371_790);
        assert(rest * rest == 371_790 * 371_790);
    }
    let a = lemma_has_opacity(x, y, 255);
    lemma_opacity(x, y, a);
    if a < 255 {
        assert(!covers(x, y, a + 1));
    }
}

/// The outline looks the same from every side: left and right, top and bottom, and
/// across the diagonal.
pub proof fn law_badge_is_symmetric(x: int, y: int)
    ensures
        covered(63 - x, y) == covered(x, y),
        covered(x, 63 - y) == covered(x, y),
        covered(y, x) == covered(x, y),
        covered(x, y) ==> {
            &&& opacity(63 - x, y) == opacity(x, y)
            &&& opacity(x, 63 - y) == opacity(x, y)
            &&& opacity(y, x) == opacity(x, y)
        },
{
    lemma_same_outline(63 - x, y, x, y);
    lemma_same_outline(x, 63 - y, x, y);
    lemma_same_outline(y, x, x, y);
}

proof fn lemma_same_outline(x: int, y: int, u: int, v: int)
    requires
        corner_square(x, y) == corner_square(u, v),
        reach(x, y) == reach(u, v),
    ensures
        covered(x, y) == covered(u, v),
        covered(x, y) ==> opacity(x, y) == opacity(u, v),
{
    if covered(x, y) {
        let (square, r) = (corner_square(x, y), reach(x, y));
        assert(65_025 * square <= (255 * r) * (255 * r)) by (nonlinear_arith)
            requires
                square < r * r,
        ;
        assert(covers(x, y, 0));
        let a = lemma_has_opacity(x, y, 255);
        lemma_opacity(x, y, a);
        assert(is_opacity(u, v, a)) by {
            assert(covers(u, v, a));
            assert forall|b: int| a < b <= 255 implies !#[trigger] covers(u, v, b) by {
                assert(!covers(x, y, b));
            }
        }
        lemma_opacity(u, v, a);
    }
}

proof fn lemma_has_opacity(x: int, y: int, a: int) -> (found: int)
    requires
        0 <= a <= 255,
        reach(x, y) >= 0,
        covers(x, y, 0),
        forall|b: int| a < b <= 255 ==> !#[trigger] covers(x, y, b),
    ensures
        is_opacity(x, y, found),
    decreases a,
{
    if covers(x, y, a) {
        a
    } else {
        lemma_has_opacity(x, y, a - 1)
    }
}

/// The upload arrow is the download arrow turned upside down and moved to the
/// other side.
pub proof fn law_arrows_mirror_each_other(x: int, y: int)
    ensures
        in_arrow(x, y, 2176, true) == in_arrow(63 - x, 63 - y, 4224, false),
        in_arrow(x, y, 2176, true) == in_arrow(63 - x, y, 4224, true),
{
}

/// An arrow is a shaft 7.04 pixels wide that widens to 20.48 at its head and
/// narrows to nothing at the tip. All of it lies between 15.36 and 48.64 pixels
/// from the top, the shaft in the first 55 percent of that.
pub proof fn law_arrows_have_a_shaft_and_a_head(x: int, y: int, cx: int)
    ensures
        ({
            let down = 100 * y + 50;
            let aside = if 100 * x + 50 < cx {
                cx - (100 * x + 50)
            } else {
                100 * x + 50 - cx
            };
            let inside = in_arrow(x, y, cx, true);
            &&& inside ==> 1536 <= down <= 4864
            &&& inside ==> aside <= 1024
            &&& 1536 <= down && 10 * (down - 1536) < 18_304 ==> (inside <==> aside <= 352)
            &&& 10 * (down - 1536) >= 18_304 && down <= 4864 ==> (inside <==> aside * 14_976 <= (
            4864 - down) * 10_240)
        }),
{
    let down = 100 * y + 50;
    let aside = if 100 * x + 50 < cx {
        cx - (100 * x + 50)
    } else {
        100 * x + 50 - cx
    };
    assert(aside * ((100 - 55) * 3328) == 10 * (aside * 14_976)) by (nonlinear_arith);
    assert((1024 * 100) * (4864 - down) == 10 * ((4864 - down) * 10_240)) by (nonlinear_arith);
    assert(ARROW_BOTTOM - ARROW_TOP == 3328);
    assert((100 - HEAD_START) * (ARROW_BOTTOM - ARROW_TOP) == (100 - 55) * 3328);
    assert(HEAD_HALF * 100 == 1024 * 100);
    assert(HEAD_START * (ARROW_BOTTOM - ARROW_TOP) == 183_040);
}

/// The download arrow on the left is green, the upload arrow on the right blue.
/// What lies under neither is the background, a little lighter at the top.
pub proof fn law_arrows_are_coloured(x: int, y: int)
    ensures
        in_arrow(x, y, 2176, true) ==> paint(x, y) == (0x4cu8, 0xafu8, 0x50u8),
        !in_arrow(x, y, 2176, true) && in_arrow(x, y, 4224, false) ==> paint(x, y) == (
            0x21u8,
            0x96u8,
            0xf3u8,
        ),
        !in_arrow(x, y, 2176, true) && !in_arrow(x, y, 4224, false) ==> paint(x, y) == (
            gradient(0x2b, 0x1e, y),
            gradient(0x33, 0x24, y),
            gradient(0x42, 0x30, y),
        ),
{
    assert(red(0x4c_af_50) == 0x4c && green(0x4c_af_50) == 0xaf && blue(0x4c_af_50) == 0x50);
    assert(red(0x21_96_f3) == 0x21 && green(0x21_96_f3) == 0x96 && blue(0x21_96_f3) == 0xf3);
    assert(red(0x1e_24_30) == 0x1e && green(0x1e_24_30) == 0x24 && blue(0x1e_24_30) == 0x30);
    assert(red(0x2b_33_42) == 0x2b && green(0x2b_33_42) == 0x33 && blue(0x2b_33_42) == 0x42);
}

/// The background goes evenly from its upper to its lower colour: each row is as
/// far along as its centre, rounded down.
pub proof fn law_gradient_is_even(top: u8, bottom: u8, y: int)
    requires
        0 <= y < 64,
    ensures
        ({
            let exact = top * (127 - 2 * y) + bottom * (2 * y + 1);
            128 * gradient(top, bottom, y) <= exact < 128 * (gradient(top, bottom, y) + 1)
        }),
{
    let t = 2 * y + 1;
    let exact = top * (127 - 2 * y) + bottom * (2 * y + 1);
    assert(top * 128 + (bottom - top) * t == exact) by (nonlinear_arith)
        requires
            t == 2 * y + 1,
            exact == top * (127 - 2 * y) + bottom * (2 * y + 1),
    ;
    assert(0 <= exact <= 255 * 128) by (nonlinear_arith)
        requires
            0 <= y < 64,
            exact == top * (127 - 2 * y) + bottom * (2 * y + 1),
            0 <= top <= 255,
            0 <= bottom <= 255,
    ;
}

/// What bytes, the lowest first, amount to.
pub open spec fn read_little_endian(bytes: Seq<u8>) -> nat
    decreases bytes.len(),
{
    if bytes.len() == 0 {
        0
    } else {
        bytes[0] as nat + 256 * read_little_endian(bytes.drop_first())
    }
}

/// The largest number that fits in so many bytes, and one.
pub open spec fn bound_of(width: nat) -> nat
    decreases width,
{
    if width == 0 {
        1
    } else {
        256 * bound_of((width - 1) as nat)
    }
}

/// A number in bytes reads back as itself if it fits.
pub proof fn law_little_endian_reads_back(n: nat, width: nat)
    requires
        n < bound_of(width),
    ensures
        little_endian(n, width).len() == width,
        read_little_endian(little_endian(n, width)) == n,
    decreases width,
{
    if width > 0 {
        law_little_endian_reads_back(n / 256, (width - 1) as nat);
        let bytes = little_endian(n, width);
        assert(bytes.drop_first() =~= little_endian(n / 256, (width - 1) as nat));
    }
}

/// The icon file: a directory with one entry for one image of 64 by 64 pixels and
/// 32 bits each, which begins at byte 22 and fills the rest of the file, and the
/// image's own header with the height of picture and mask together.
pub proof fn law_icon_file_describes_its_image(rgba: Seq<u8>)
    ensures
        ico(rgba).len() == 22 + 40 + 64 * 64 * 4 + 64 * 8,
        ico_header() == seq![
            0u8, 0u8, 1u8, 0u8, 1u8, 0u8,
            64u8, 64u8, 0u8, 0u8, 1u8, 0u8, 32u8, 0u8, 0x28u8, 0x42u8, 0u8, 0u8,
            22u8, 0u8, 0u8, 0u8,
            40u8, 0u8, 0u8, 0u8, 64u8, 0u8, 0u8, 0u8, 128u8, 0u8, 0u8, 0u8, 1u8, 0u8, 32u8, 0u8,
            0u8, 0u8, 0u8, 0u8, 0u8, 0u8, 0u8, 0u8, 0u8, 0u8, 0u8, 0u8, 0u8, 0u8, 0u8, 0u8,
            0u8, 0u8, 0u8, 0u8, 0u8, 0u8, 0u8, 0u8,
        ],
        ico(rgba).take(62) == ico_header(),
{
    lemma_word(0);
    lemma_word(1);
    lemma_word(32);
    lemma_double_word(40 + 64 * 64 * 4 + 64 * 8);
    lemma_double_word(22);
    lemma_double_word(40);
    lemma_double_word(64);
    lemma_double_word(128);
    lemma_double_word(0);
    assert(ico_header().len() == 62);
    assert(ico(rgba).take(62) =~= ico_header());
}

proof fn lemma_word(n: nat)
    requires
        n < 0x1_0000,
    ensures
        little_endian(n, 2) == seq![(n % 256) as u8, (n / 256) as u8],
{
    reveal_with_fuel(little_endian, 3);
    assert(little_endian(n, 2) =~= seq![(n % 256) as u8, (n / 256) as u8]);
}

proof fn lemma_double_word(n: nat)
    requires
        n < 0x1_0000_0000,
    ensures
        little_endian(n, 4) == seq![
            (n % 256) as u8,
            (n / 256 % 256) as u8,
            (n / 0x1_0000 % 256) as u8,
            (n / 0x100_0000) as u8,
        ],
{
    reveal_with_fuel(little_endian, 5);
    assert(n / 256 / 256 == n / 0x1_0000);
    assert(n / 256 / 256 / 256 == n / 0x100_0000);
    assert(little_endian(n, 4) =~= seq![
        (n % 256) as u8,
        (n / 256 % 256) as u8,
        (n / 0x1_0000 % 256) as u8,
        (n / 0x100_0000) as u8,
    ]);
}

/// The icon file holds every pixel of the picture, the rows from the bottom up and
/// each pixel as blue, green, red and opacity.
pub proof fn law_icon_file_holds_every_pixel(rgba: Seq<u8>, x: int, y: int, c: int)
    requires
        0 <= x < 64,
        0 <= y < 64,
        0 <= c < 4,
    ensures
        ico(rgba)[62 + 4 * (64 * (63 - y) + x) + c] == rgba[4 * (64 * y + x) + if c == 3 {
            3
        } else {
            2 - c
        }],
{
    lemma_flipped(rgba, x, y, c);
    lemma_behind_the_header(rgba, 4 * (64 * (63 - y) + x) + c);
}

/// The mask behind the pixels is empty: the opacity says it all.
pub proof fn law_icon_mask_is_empty(rgba: Seq<u8>, k: int)
    requires
        62 + 64 * 64 * 4 <= k < 62 + 64 * 64 * 4 + 64 * 8,
    ensures
        ico(rgba)[k] == 0,
{
    lemma_behind_the_header(rgba, k - 62);
}

proof fn lemma_behind_the_header(rgba: Seq<u8>, k: int)
    requires
        0 <= k < 64 * 64 * 4 + 64 * 8,
    ensures
        ico(rgba)[62 + k] == if k < 64 * 64 * 4 {
            flipped(rgba)[k]
        } else {
            0u8
        },
{
    lemma_header_length();
}

proof fn lemma_header_length()
    ensures
        ico_header().len() == 62,
{
    law_icon_file_describes_its_image(Seq::empty());
}

proof fn lemma_flipped(rgba: Seq<u8>, x: int, y: int, c: int)
    requires
        0 <= x < 64,
        0 <= y < 64,
        0 <= c < 4,
    ensures
        flipped(rgba)[4 * (64 * (63 - y) + x) + c] == rgba[4 * (64 * y + x) + swapped(c)],
{
    let k = 4 * (64 * (63 - y) + x) + c;
    assert(k / 256 == 63 - y);
    assert(k % 256 == 4 * x + c);
    assert((4 * x + c) / 4 == x);
    assert(k % 4 == c);
}

} // verus!
