use vstd::prelude::*;

verus! {

/// Which faces of a model the rasterizer skips.
#[derive(Debug, Clone, Copy, PartialEq, Eq, Structural)]
pub enum CullingEnum {
    Neither,
    Front,
    Back,
    Both,
}

/// How the rasterizer draws.
#[derive(Debug, Clone, Copy, PartialEq, Eq, Structural)]
pub struct RenderConfig {
    pub face_culling: CullingEnum,
    pub debug_bounding_boxes: bool,
    pub z_pyramid: bool,
    pub affine_color: bool,
}

/// The sign of a projected triangle's signed area (its edge function), which tells
/// which way the triangle faces the camera.
#[derive(Debug, Clone, Copy, PartialEq, Eq, Structural)]
pub enum Facing {
    /// The area is too small to draw.
    Degenerate,
    /// The area is positive.
    Positive,
    /// The area is negative.
    Negative,
}

/// Whether a triangle facing as `facing` is drawn under `culling`: a degenerate
/// triangle never is; `Front` culling skips positive-area triangles, `Back` culling
/// negative-area ones, `Both` skips all and `Neither` none.
pub open spec fn spec_is_drawn(culling: CullingEnum, facing: Facing) -> bool {
    match facing {
        Facing::Degenerate => false,
        Facing::Positive => culling == CullingEnum::Neither || culling == CullingEnum::Back,
        Facing::Negative => culling == CullingEnum::Neither || culling == CullingEnum::Front,
    }
}

/// Whether a triangle facing as `facing` is drawn under `culling`.
pub fn is_drawn(culling: CullingEnum, facing: Facing) -> (drawn: bool)
    ensures
        drawn == spec_is_drawn(culling, facing),
{
    match facing {
        Facing::Degenerate => false,
        Facing::Positive => match culling {
            CullingEnum::Both => false,
            CullingEnum::Front => false,
            CullingEnum::Back => true,
            CullingEnum::Neither => true,
        },
        Facing::Negative => match culling {
            CullingEnum::Both => false,
            CullingEnum::Front => true,
            CullingEnum::Back => false,
            CullingEnum::Neither => true,
        },
    }
}

/// A rectangle of pixels, bounds included.
#[derive(Debug, Clone, Copy, PartialEq, Eq, Structural)]
pub struct PixelBounds {
    pub min_x: usize,
    pub min_y: usize,
    pub max_x: usize,
    pub max_y: usize,
}

/// The smaller of two numbers.
pub open spec fn min_of(a: int, b: int) -> int {
    if a <= b {
        a
    } else {
        b
    }
}

/// The larger of two numbers.
pub open spec fn max_of(a: int, b: int) -> int {
    if a >= b {
        a
    } else {
        b
    }
}

/// The pixels a triangle with corners at pixel columns `xs` and rows `ys` (already
/// clamped at 0) may cover on a `width` x `height` screen: the corners' bounding box,
/// its far edges clamped to the last column and row and its near edges at most the
/// screen size. `None` when that box lies off the screen (it touches neither past the
/// first column and row nor before the screen's far edges).
pub open spec fn spec_triangle_pixels(xs: [usize; 3], ys: [usize; 3], width: usize, height: usize) -> Option<PixelBounds> {
    let min_x = min_of(min_of(min_of(width as int, xs[0] as int), xs[1] as int), xs[2] as int);
    let min_y = min_of(min_of(min_of(height as int, ys[0] as int), ys[1] as int), ys[2] as int);
    let max_x = min_of(max_of(max_of(max_of(0, xs[0] as int), xs[1] as int), xs[2] as int), width - 1);
    let max_y = min_of(max_of(max_of(max_of(0, ys[0] as int), ys[1] as int), ys[2] as int), height - 1);
    if max_x > 0 && max_y > 0 && min_x < width && min_y < height {
        Some(PixelBounds { min_x: min_x as usize, min_y: min_y as usize, max_x: max_x as usize, max_y: max_y as usize })
    } else {
        None
    }
}

/// The pixels a triangle with corners at pixel columns `xs` and rows `ys` may cover on
/// a `width` x `height` screen, as [`spec_triangle_pixels`] says.
pub fn triangle_pixels(xs: [usize; 3], ys: [usize; 3], width: usize, height: usize) -> (bounds: Option<PixelBounds>)
    requires
        width > 0,
        height > 0,
    ensures
        bounds == spec_triangle_pixels(xs, ys, width, height),
        bounds is Some <==> corners_reach_screen(xs, ys, width, height),
        bounds matches Some(b) ==> is_corner_box(b, xs, ys, width, height),
{
    proof {
        lemma_triangle_pixels_is_corner_box(xs, ys, width, height);
    }
    let mut min_x = width;
    let mut min_y = height;
    let mut max_x: usize = 0;
    let mut max_y: usize = 0;
    let mut i: usize = 0;
    while i < 3
        invariant
            i <= 3,
            min_x as int == (if i == 0 { width as int } else if i == 1 { min_of(width as int, xs[0] as int) } else if i == 2 { min_of(min_of(width as int, xs[0] as int), xs[1] as int) } else { min_of(min_of(min_of(width as int, xs[0] as int), xs[1] as int), xs[2] as int) }),
            min_y as int == (if i == 0 { height as int } else if i == 1 { min_of(height as int, ys[0] as int) } else if i == 2 { min_of(min_of(height as int, ys[0] as int), ys[1] as int) } else { min_of(min_of(min_of(height as int, ys[0] as int), ys[1] as int), ys[2] as int) }),
            max_x as int == (if i == 0 { 0 } else if i == 1 { max_of(0, xs[0] as int) } else if i == 2 { max_of(max_of(0, xs[0] as int), xs[1] as int) } else { max_of(max_of(max_of(0, xs[0] as int), xs[1] as int), xs[2] as int) }),
            max_y as int == (if i == 0 { 0 } else if i == 1 { max_of(0, ys[0] as int) } else if i == 2 { max_of(max_of(0, ys[0] as int), ys[1] as int) } else { max_of(max_of(max_of(0, ys[0] as int), ys[1] as int), ys[2] as int) }),
        decreases 3 - i,
    {
        let ux = xs[i];
        let uy = ys[i];
        if ux < min_x {
            min_x = ux;
        }
        if ux > max_x {
            max_x = ux;
        }
        if uy < min_y {
            min_y = uy;
        }
        if uy > max_y {
            max_y = uy;
        }
        i = i + 1;
    }
    if max_x > width - 1 {
        max_x = width - 1;
    }
    if max_y > height - 1 {
        max_y = height - 1;
    }
    if max_x > 0 && max_y > 0 && min_x < width && min_y < height {
        Some(PixelBounds { min_x, min_y, max_x, max_y })
    } else {
        None
    }
}

/// A rectangle of depth-pyramid tiles (8 x 8 pixel blocks), bounds included.
#[derive(Debug, Clone, Copy, PartialEq, Eq, Structural)]
pub struct TileBounds {
    pub start_x: usize,
    pub end_x: usize,
    pub start_y: usize,
    pub end_y: usize,
}

/// The last tile along a screen side of `size` pixels: one less than the number of
/// whole tiles, or 0 when there is none.
pub open spec fn last_tile(size: usize) -> int {
    if size / 8 >= 1 {
        size / 8 - 1
    } else {
        0
    }
}

/// The tiles of the depth pyramid that the pixel box from (`min_x`, `min_y`) to
/// (`max_x`, `max_y`) falls in, on a `width` x `height` screen: each corner's tile,
/// clamped to the last tile along each side.
pub open spec fn spec_pyramid_tiles(min_x: usize, min_y: usize, max_x: usize, max_y: usize, width: usize, height: usize) -> TileBounds {
    TileBounds {
        start_x: min_of((min_x / 8) as int, last_tile(width)) as usize,
        end_x: min_of((max_x / 8) as int, last_tile(width)) as usize,
        start_y: min_of((min_y / 8) as int, last_tile(height)) as usize,
        end_y: min_of((max_y / 8) as int, last_tile(height)) as usize,
    }
}

/// The tiles of the depth pyramid that a pixel box falls in, as
/// [`spec_pyramid_tiles`] says.
pub fn pyramid_tiles(min_x: usize, min_y: usize, max_x: usize, max_y: usize, width: usize, height: usize) -> (tiles: TileBounds)
    ensures
        tiles == spec_pyramid_tiles(min_x, min_y, max_x, max_y, width, height),
        is_clamped_tile(tiles.start_x as int, min_x as int, width),
        is_clamped_tile(tiles.end_x as int, max_x as int, width),
        is_clamped_tile(tiles.start_y as int, min_y as int, height),
        is_clamped_tile(tiles.end_y as int, max_y as int, height),
{
    proof {
        lemma_pyramid_tiles_hold_corners(min_x, min_y, max_x, max_y, width, height);
    }
    let start_y = min_y >> 3;
    let end_y = max_y >> 3;
    let start_x = min_x >> 3;
    let end_x = max_x >> 3;
    assert(start_y == min_y / 8 && end_y == max_y / 8 && start_x == min_x / 8 && end_x == max_x / 8) by (bit_vector)
        requires start_y == min_y >> 3, end_y == max_y >> 3, start_x == min_x >> 3, end_x == max_x >> 3;
    let tiles_y = height >> 3;
    let tiles_x = width >> 3;
    assert(tiles_y == height / 8 && tiles_x == width / 8) by (bit_vector)
        requires tiles_y == height >> 3, tiles_x == width >> 3;
    let max_tile_y = tiles_y.saturating_sub(1);
    let max_tile_x = tiles_x.saturating_sub(1);
    TileBounds {
        start_x: if start_x < max_tile_x { start_x } else { max_tile_x },
        end_x: if end_x < max_tile_x { end_x } else { max_tile_x },
        start_y: if start_y < max_tile_y { start_y } else { max_tile_y },
        end_y: if end_y < max_tile_y { end_y } else { max_tile_y },
    }
}

/// Front and back culling split the triangles that are not degenerate between them:
/// each such triangle is drawn under exactly one of the two.
pub proof fn lemma_front_back_complementary(facing: Facing)
    requires
        facing != Facing::Degenerate,
    ensures
        spec_is_drawn(CullingEnum::Front, facing) != spec_is_drawn(CullingEnum::Back, facing),
        spec_is_drawn(CullingEnum::Neither, facing),
        !spec_is_drawn(CullingEnum::Both, facing),
{
}

/// The pixel box of a visible triangle lies on the screen, and its near corner is
/// not past its far corner, so every pixel row `y * width + x` it covers is inside a
/// `width * height` frame.
pub proof fn lemma_triangle_pixels_on_screen(xs: [usize; 3], ys: [usize; 3], width: usize, height: usize)
    requires
        width > 0,
        height > 0,
        spec_triangle_pixels(xs, ys, width, height) is Some,
    ensures
        ({
            let b = spec_triangle_pixels(xs, ys, width, height).unwrap();
            &&& b.min_x <= b.max_x < width
            &&& b.min_y <= b.max_y < height
            &&& b.max_y * width + b.max_x < width * height
        }),
{
    let b = spec_triangle_pixels(xs, ys, width, height).unwrap();
    assert(b.max_y * width + b.max_x < width * height) by (nonlinear_arith)
        requires b.max_y < height, b.max_x < width;
}

/// The tiles a pixel box falls in are tiles of the screen's tile grid.
pub proof fn lemma_pyramid_tiles_in_grid(min_x: usize, min_y: usize, max_x: usize, max_y: usize, width: usize, height: usize)
    ensures
        ({
            let t = spec_pyramid_tiles(min_x, min_y, max_x, max_y, width, height);
            &&& t.start_x <= last_tile(width) && t.end_x <= last_tile(width)
            &&& t.start_y <= last_tile(height) && t.end_y <= last_tile(height)
            &&& min_x <= max_x ==> t.start_x <= t.end_x
            &&& min_y <= max_y ==> t.start_y <= t.end_y
        }),
{
    assert(min_x <= max_x ==> min_x / 8 <= max_x / 8) by (nonlinear_arith);
    assert(min_y <= max_y ==> min_y / 8 <= max_y / 8) by (nonlinear_arith);
}

/// `b` is the pixel box of three corners at columns `xs` and rows `ys` on a `width` x
/// `height` screen: its near edges are the least column and row of the corners, its
/// far edges the greatest, each cut back to the screen's last column and row.
pub open spec fn is_corner_box(b: PixelBounds, xs: [usize; 3], ys: [usize; 3], width: usize, height: usize) -> bool {
    // the box holds every corner
    &&& b.min_x <= xs[0] && b.min_x <= xs[1] && b.min_x <= xs[2]
    &&& b.min_y <= ys[0] && b.min_y <= ys[1] && b.min_y <= ys[2]
    &&& (xs[0] < width ==> xs[0] <= b.max_x) && (xs[1] < width ==> xs[1] <= b.max_x) && (xs[2]
        < width ==> xs[2] <= b.max_x)
    &&& (ys[0] < height ==> ys[0] <= b.max_y) && (ys[1] < height ==> ys[1] <= b.max_y) && (ys[2]
        < height ==> ys[2] <= b.max_y)
    // and is no larger: its near edges are corners' columns and rows
    &&& b.min_x == xs[0] || b.min_x == xs[1] || b.min_x == xs[2]
    &&& b.min_y == ys[0] || b.min_y == ys[1] || b.min_y == ys[2]
    &&& b.max_x <= xs[0] || b.max_x <= xs[1] || b.max_x <= xs[2]
    &&& b.max_y <= ys[0] || b.max_y <= ys[1] || b.max_y <= ys[2]
    // and it lies on the screen
    &&& b.max_x < width && b.max_y < height
    &&& (b.max_x == width - 1 || b.max_x == xs[0] || b.max_x == xs[1] || b.max_x == xs[2])
    &&& (b.max_y == height - 1 || b.max_y == ys[0] || b.max_y == ys[1] || b.max_y == ys[2])
}

/// Whether a triangle with corners at columns `xs` and rows `ys` shows on a `width` x
/// `height` screen: some corner lies right of the first column and some below the first
/// row (on a screen more than one pixel wide and tall), and some corner lies left of
/// the screen's right edge and some above its bottom edge.
pub open spec fn corners_reach_screen(xs: [usize; 3], ys: [usize; 3], width: usize, height: usize) -> bool {
    &&& width > 1 && (xs[0] > 0 || xs[1] > 0 || xs[2] > 0)
    &&& height > 1 && (ys[0] > 0 || ys[1] > 0 || ys[2] > 0)
    &&& xs[0] < width || xs[1] < width || xs[2] < width
    &&& ys[0] < height || ys[1] < height || ys[2] < height
}

/// A triangle has a pixel box exactly when its corners reach the screen, and the box is
/// then the corners' bounding box cut to the screen.
pub proof fn lemma_triangle_pixels_is_corner_box(xs: [usize; 3], ys: [usize; 3], width: usize, height: usize)
    requires
        width > 0,
        height > 0,
    ensures
        spec_triangle_pixels(xs, ys, width, height) is Some <==> corners_reach_screen(xs, ys, width, height),
        spec_triangle_pixels(xs, ys, width, height) matches Some(b) ==> is_corner_box(b, xs, ys, width, height),
{
}

/// `tile` is the tile of pixel `pixel` along a side of `size` pixels, or the last tile
/// when the pixel lies past it: tile `t` holds pixels `8 * t` to `8 * t + 7`.
pub open spec fn is_clamped_tile(tile: int, pixel: int, size: usize) -> bool {
    &&& 0 <= tile <= last_tile(size)
    &&& {
        ||| 8 * tile <= pixel < 8 * tile + 8
        ||| tile == last_tile(size) && pixel >= 8 * tile + 8
    }
}

/// The last tile along a side is the last one wholly on it: its pixels `8 * t` to
/// `8 * t + 7` fit in the side and the next tile's do not; a side shorter than two
/// tiles has only tile 0.
pub proof fn lemma_last_tile(size: usize)
    ensures
        size < 16 ==> last_tile(size) == 0,
        size >= 8 ==> 8 * last_tile(size) + 8 <= size < 8 * last_tile(size) + 16,
{
}

/// Each bound of the tiles of a pixel box is the tile holding the matching corner of
/// the box, clamped to the last tile of the screen.
pub proof fn lemma_pyramid_tiles_hold_corners(min_x: usize, min_y: usize, max_x: usize, max_y: usize, width: usize, height: usize)
    ensures
        ({
            let t = spec_pyramid_tiles(min_x, min_y, max_x, max_y, width, height);
            &&& is_clamped_tile(t.start_x as int, min_x as int, width)
            &&& is_clamped_tile(t.end_x as int, max_x as int, width)
            &&& is_clamped_tile(t.start_y as int, min_y as int, height)
            &&& is_clamped_tile(t.end_y as int, max_y as int, height)
        }),
{
}

} // verus!
