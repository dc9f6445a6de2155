//! The overlay's pixels: a uniform translucent black with the four corners
//! cut out as fully opaque black, in little-endian ARGB8888.

use vstd::prelude::*;
use vstd::arithmetic::div_mod::lemma_fundamental_div_mod_converse;

verus! {

/// A fully opaque black pixel.
pub const OPAQUE_BLACK: u32 = 0xFF00_0000;

/// Bytes per pixel.
pub const BYTES_PER_PIXEL: usize = 4;

/// Whether the point at distance (`dx`, `dy`) from a rounding origin lies
/// outside the circle of radius `r` around it.
pub open spec fn beyond_radius(r: int, dx: int, dy: int) -> bool {
    dx * dx + dy * dy > r * r
}

/// Whether pixel (`x`, `y`) of a `width` by `height` surface lies in one of the
/// four corner boxes of side `radius` and farther than `radius` from that
/// box's inner vertex.
pub open spec fn in_corner_cutout(radius: int, width: int, height: int, x: int, y: int) -> bool {
    let left = x < radius;
    let right = x > width - radius;
    let top = y < radius;
    let bottom = y > height - radius;
    ||| left && top && beyond_radius(radius, radius - x, radius - y)
    ||| right && top && beyond_radius(radius, x - (width - radius), radius - y)
    ||| left && bottom && beyond_radius(radius, radius - x, y - (height - radius))
    ||| right && bottom && beyond_radius(radius, x - (width - radius), y - (height - radius))
}

/// Black with `level` as alpha: the level is shifted into the top byte of the
/// pixel, so only its low eight bits stay.
pub open spec fn tint(level: u32) -> u32 {
    ((level % 256) * 0x100_0000) as u32
}

/// The colour of pixel (`x`, `y`).
pub open spec fn pixel_color_spec(
    level: u32,
    radius: u32,
    width: u32,
    height: u32,
    x: u32,
    y: u32,
) -> u32 {
    if in_corner_cutout(radius as int, width as int, height as int, x as int, y as int) {
        OPAQUE_BLACK
    } else {
        tint(level)
    }
}

/// Byte `k` (0 is the lowest) of `color` in little-endian order.
pub open spec fn color_byte(color: u32, k: int) -> u8 {
    if k == 0 {
        (color % 256) as u8
    } else if k == 1 {
        ((color / 0x100) % 256) as u8
    } else if k == 2 {
        ((color / 0x1_0000) % 256) as u8
    } else {
        (color / 0x100_0000) as u8
    }
}

/// The whole canvas, row by row, four bytes per pixel.
pub open spec fn canvas(level: u32, radius: u32, width: u32, height: u32) -> Seq<u8> {
    Seq::new(
        (width * height * 4) as nat,
        |k: int|
            color_byte(
                pixel_color_spec(
                    level,
                    radius,
                    width,
                    height,
                    ((k / 4) % (width as int)) as u32,
                    ((k / 4) / (width as int)) as u32,
                ),
                k % 4,
            ),
    )
}

/// `dx * dx + dy * dy > r * r`, computed wide enough for any three `u32`-sized
/// distances.
fn is_beyond_radius(r: u64, dx: u64, dy: u64) -> (out: bool)
    requires
        r <= u32::MAX,
        dx <= 2 * u32::MAX,
        dy <= 2 * u32::MAX,
    ensures
        out == beyond_radius(r as int, dx as int, dy as int),
{
    assert(dx * dx <= 0x1_FFFF_FFFE * 0x1_FFFF_FFFE) by (nonlinear_arith)
        requires
            dx <= 0x1_FFFF_FFFE,
    ;
    assert(dy * dy <= 0x1_FFFF_FFFE * 0x1_FFFF_FFFE) by (nonlinear_arith)
        requires
            dy <= 0x1_FFFF_FFFE,
    ;
    assert(r * r <= 0xFFFF_FFFF * 0xFFFF_FFFF) by (nonlinear_arith)
        requires
            r <= 0xFFFF_FFFF,
    ;
    let dx2: u128 = (dx as u128) * (dx as u128);
    let dy2: u128 = (dy as u128) * (dy as u128);
    let r2: u128 = (r as u128) * (r as u128);
    dx2 + dy2 > r2
}

/// Computes the colour of one pixel.
pub fn pixel_color(level: u32, radius: u32, width: u32, height: u32, x: u32, y: u32) -> (color: u32)
    ensures
        color == pixel_color_spec(level, radius, width, height, x, y),
{
    let r: u64 = radius as u64;
    let w: u64 = width as u64;
    let h: u64 = height as u64;
    let px: u64 = x as u64;
    let py: u64 = y as u64;
    let left = px < r;
    let right = px + r > w;
    let top = py < r;
    let bottom = py + r > h;
    let mut cut = false;
    if left && top && is_beyond_radius(r, r - px, r - py) {
        cut = true;
    }
    if right && top && is_beyond_radius(r, px + r - w, r - py) {
        cut = true;
    }
    if left && bottom && is_beyond_radius(r, r - px, py + r - h) {
        cut = true;
    }
    if right && bottom && is_beyond_radius(r, px + r - w, py + r - h) {
        cut = true;
    }
    if cut {
        OPAQUE_BLACK
    } else {
        (level % 256) * 0x100_0000
    }
}

/// Renders the canvas of a `width` by `height` surface: every pixel black with
/// alpha `level`, the corner cut-outs of side `radius` fully opaque.
pub fn create_buffer(level: u32, radius: u32, width: u32, height: u32) -> (buffer: Vec<u8>)
    requires
        width * height * 4 <= usize::MAX,
    ensures
        buffer@ == canvas(level, radius, width, height),
{
    let ghost model = canvas(level, radius, width, height);
    assert(width * height <= width * height * 4) by (nonlinear_arith);
    let mut buffer: Vec<u8> = Vec::new();
    let mut y: u32 = 0;
    while y < height
        invariant
            y <= height,
            width * height * 4 <= usize::MAX,
            model == canvas(level, radius, width, height),
            buffer@.len() == y * width * 4,
            forall|k: int| 0 <= k < buffer@.len() ==> buffer@[k] == model[k],
        decreases height - y,
    {
        let mut x: u32 = 0;
        while x < width
            invariant
                x <= width,
                y < height,
                width * height * 4 <= usize::MAX,
                model == canvas(level, radius, width, height),
                buffer@.len() == (y * width + x) * 4,
                forall|k: int| 0 <= k < buffer@.len() ==> buffer@[k] == model[k],
            decreases width - x,
        {
            let color = pixel_color(level, radius, width, height, x, y);
            let ghost base = buffer@.len() as int;
            proof {
                let p = y * width + x;
                lemma_fundamental_div_mod_converse(p, width as int, y as int, x as int);
                assert(p + 1 <= width * height) by (nonlinear_arith)
                    requires
                        p == y * width + x,
                        0 <= x < width,
                        0 <= y < height,
                ;
                assert forall|c: int| 0 <= c < 4 implies #[trigger] model[base + c] == color_byte(
                    color,
                    c,
                ) by {
                    assert((base + c) / 4 == p);
                    assert((base + c) % 4 == c);
                }
            }
            buffer.push((color % 256) as u8);
            buffer.push(((color / 0x100) % 256) as u8);
            buffer.push(((color / 0x1_0000) % 256) as u8);
            buffer.push((color / 0x100_0000) as u8);
            proof {
                assert(model[base + 0] == color_byte(color, 0));
                assert(model[base + 1] == color_byte(color, 1));
                assert(model[base + 2] == color_byte(color, 2));
                assert(model[base + 3] == color_byte(color, 3));
            }
            x = x + 1;
        }
        proof {
            assert((y * width + width) * 4 == (y + 1) * width * 4) by (nonlinear_arith);
        }
        y = y + 1;
    }
    proof {
        assert(buffer@.len() == width * height * 4) by (nonlinear_arith)
            requires
                buffer@.len() == y * width * 4,
                y == height,
        ;
        assert(buffer@ =~= model);
    }
    buffer
}

/// Whether pixel (`x`, `y`) lies in none of the four corner boxes: it is at
/// least `radius` from the left edge and no farther right than `width -
/// radius`, or the same from top to bottom.
pub open spec fn outside_corner_boxes(radius: int, width: int, height: int, x: int, y: int) -> bool {
    radius <= x <= width - radius || radius <= y <= height - radius
}

/// Every pixel outside the corner boxes is black with the low byte of the
/// level as alpha, whatever the size and the radius.
pub proof fn lemma_outside_corners_is_tinted(
    level: u32,
    radius: u32,
    width: u32,
    height: u32,
    x: u32,
    y: u32,
)
    requires
        outside_corner_boxes(radius as int, width as int, height as int, x as int, y as int),
    ensures
        pixel_color_spec(level, radius, width, height, x, y) == tint(level),
        color_byte(tint(level), 3) == level % 256,
        color_byte(tint(level), 0) == 0,
        color_byte(tint(level), 1) == 0,
        color_byte(tint(level), 2) == 0,
{
}

/// With a radius above zero the pixel in the top left corner is fully opaque;
/// with a radius above one, so are those in the top right and bottom left
/// corners; and with a radius of four or more, so is the one in the bottom
/// right corner. (The right and bottom boxes begin one pixel later than the
/// left and top ones end, so their corner pixels are one nearer to the
/// vertex.)
pub proof fn lemma_corners_are_opaque(level: u32, radius: u32, width: u32, height: u32)
    requires
        radius > 0,
        width > 0,
        height > 0,
    ensures
        pixel_color_spec(level, radius, width, height, 0, 0) == OPAQUE_BLACK,
        color_byte(OPAQUE_BLACK, 3) == 255,
        radius > 1 ==> pixel_color_spec(level, radius, width, height, (width - 1) as u32, 0)
            == OPAQUE_BLACK,
        radius > 1 ==> pixel_color_spec(level, radius, width, height, 0, (height - 1) as u32)
            == OPAQUE_BLACK,
        radius >= 4 ==> pixel_color_spec(
            level,
            radius,
            width,
            height,
            (width - 1) as u32,
            (height - 1) as u32,
        ) == OPAQUE_BLACK,
{
    let r = radius as int;
    assert(beyond_radius(r, r, r)) by (nonlinear_arith)
        requires
            r > 0,
    ;
    if radius > 1 {
        assert(beyond_radius(r, r - 1, r)) by (nonlinear_arith)
            requires
                r > 1,
        ;
        assert(beyond_radius(r, r, r - 1)) by (nonlinear_arith)
            requires
                r > 1,
        ;
    }
    if radius >= 4 {
        assert(beyond_radius(r, r - 1, r - 1)) by (nonlinear_arith)
            requires
                r >= 4,
        ;
    }
}

/// Byte `k` of pixel (`x`, `y`) stands in the canvas at `4 * (y * width + x)
/// + k`.
pub proof fn lemma_canvas_holds_pixels(
    level: u32,
    radius: u32,
    width: u32,
    height: u32,
    x: u32,
    y: u32,
    k: int,
)
    requires
        x < width,
        y < height,
        0 <= k < 4,
    ensures
        0 <= 4 * (y * width + x) + k < canvas(level, radius, width, height).len(),
        canvas(level, radius, width, height)[4 * (y * width + x) + k] == color_byte(
            pixel_color_spec(level, radius, width, height, x, y),
            k,
        ),
{
    let p = y * width + x;
    lemma_fundamental_div_mod_converse(p, width as int, y as int, x as int);
    assert(0 <= p && p + 1 <= width * height) by (nonlinear_arith)
        requires
            p == y * width + x,
            0 <= x < width,
            0 <= y < height,
    ;
    assert((4 * p + k) / 4 == p);
    assert((4 * p + k) % 4 == k);
}

} // verus!
