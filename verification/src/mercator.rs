use vstd::arithmetic::div_mod::{
    lemma_div_denominator, lemma_div_is_ordered, lemma_div_pos_is_pos, lemma_fundamental_div_mod,
    lemma_mod_bound,
};
use vstd::arithmetic::power2::{
    lemma2_to64, lemma_pow2_adds, lemma_pow2_pos, lemma_pow2_strictly_increases,
    lemma_pow2_unfold, pow2,
};
use vstd::bits::lemma_u64_shl_is_mul;
use vstd::prelude::*;

verus! {

/// Number of bits of a world coordinate: each axis of the Mercator square is
/// divided into `2^WORLD_BITS` world units.
pub const WORLD_BITS: i32 = 32;

/// The finest zoom level the library works at. At this level a tile index and
/// a count of tiles both fit an `i32`.
pub const MAX_ZOOM: i32 = 30;

/// A position on the Mercator square, in world units. `x` grows eastward from
/// the antimeridian, `y` grows southward from the northern edge, so every
/// pair of coordinates is a position on the map.
///
/// A place at longitude `lon` and latitude `lat`, in degrees, has
/// `x = (lon + 180) / 360 * 2^32` and
/// `y = (1 - asinh(tan(lat)) / pi) / 2 * 2^32`, both rounded down. That
/// conversion takes a logarithm and is left to the caller; from there on
/// everything is integer arithmetic.
#[derive(Clone, Copy, Debug, PartialEq, Eq, Structural)]
pub struct WorldPoint {
    pub x: u32,
    pub y: u32,
}

/// A position in the tile plane of one zoom level: the tile it falls in and
/// how far into that tile it lies, in world units. The continuous tile
/// coordinate along an axis is `tile + part / tile_span(zoom)`.
#[derive(Clone, Copy, Debug, PartialEq, Eq, Structural)]
pub struct TileCoordinate {
    pub x_tile: i32,
    pub y_tile: i32,
    pub x_part: u32,
    pub y_part: u32,
}

/// The zoom levels the library accepts.
pub open spec fn valid_zoom(zoom: int) -> bool {
    0 <= zoom <= MAX_ZOOM
}

/// Number of tiles along one axis at `zoom`.
pub open spec fn tiles_across(zoom: int) -> int {
    pow2(zoom as nat) as int
}

/// Side of one tile at `zoom`, in world units.
pub open spec fn tile_span(zoom: int) -> int {
    pow2((WORLD_BITS - zoom) as nat) as int
}

/// Index of the tile that holds world coordinate `coord` at `zoom`.
pub open spec fn tile_of(coord: int, zoom: int) -> int {
    coord / tile_span(zoom)
}

/// Distance of world coordinate `coord` from the low edge of its tile.
pub open spec fn part_of(coord: int, zoom: int) -> int {
    coord % tile_span(zoom)
}

/// The tile coordinate of `point` at `zoom`.
pub open spec fn projected(point: WorldPoint, zoom: int) -> TileCoordinate {
    TileCoordinate {
        x_tile: tile_of(point.x as int, zoom) as i32,
        y_tile: tile_of(point.y as int, zoom) as i32,
        x_part: part_of(point.x as int, zoom) as u32,
        y_part: part_of(point.y as int, zoom) as u32,
    }
}

/// The tiles of one level tile the axis exactly: span times count is the
/// length of the axis, and both are positive.
pub proof fn lemma_span_times_count(zoom: int)
    requires
        valid_zoom(zoom),
    ensures
        tile_span(zoom) * tiles_across(zoom) == 0x1_0000_0000,
        4 <= tile_span(zoom) <= 0x1_0000_0000,
        1 <= tiles_across(zoom) <= 0x4000_0000,
{
    let s: nat = (WORLD_BITS - zoom) as nat;
    let z: nat = zoom as nat;
    lemma_pow2_adds(s, z);
    lemma2_to64();
    lemma_pow2_pos(z);
    if zoom < 30 {
        lemma_pow2_strictly_increases(z, 30);
    }
    if zoom > 0 {
        lemma_pow2_strictly_increases(s, 32);
    }
    if s > 2 {
        lemma_pow2_strictly_increases(2, s);
    }
}

/// Tile index and in-tile part are the quotient and remainder of the world
/// coordinate by the tile span, and the index lies within the level.
pub proof fn lemma_tile_and_part(coord: int, zoom: int)
    requires
        valid_zoom(zoom),
        0 <= coord < 0x1_0000_0000,
    ensures
        tile_of(coord, zoom) * tile_span(zoom) + part_of(coord, zoom) == coord,
        0 <= part_of(coord, zoom) < tile_span(zoom),
        0 <= tile_of(coord, zoom) < tiles_across(zoom),
{
    lemma_span_times_count(zoom);
    let d = tile_span(zoom);
    let n = tiles_across(zoom);
    lemma_fundamental_div_mod(coord, d);
    lemma_mod_bound(coord, d);
    lemma_div_pos_is_pos(coord, d);
    let q = coord / d;
    assert(d * q == q * d) by (nonlinear_arith);
    assert(q < n) by (nonlinear_arith)
        requires
            q * d <= coord,
            coord < d * n,
            d > 0,
    ;
}

/// At zoom 0 the whole map is the single tile 0: every position has tile
/// index 0 on both axes, and its continuous tile coordinate, the part over
/// the span, lies in `[0, 1)`.
pub proof fn lemma_zoom_zero_is_one_tile(point: WorldPoint)
    ensures
        projected(point, 0).x_tile == 0,
        projected(point, 0).y_tile == 0,
        projected(point, 0).x_part == point.x,
        projected(point, 0).y_part == point.y,
        0 <= projected(point, 0).x_part < tile_span(0),
        0 <= projected(point, 0).y_part < tile_span(0),
{
    lemma2_to64();
    lemma_tile_and_part(point.x as int, 0);
    lemma_tile_and_part(point.y as int, 0);
}

/// Moving east never moves back in the tile plane, at any zoom: the tile
/// index does not decrease, and within one tile the part does not decrease.
/// The same holds southward, the two axes being treated alike.
pub proof fn lemma_tile_coordinate_monotonic(a: int, b: int, zoom: int)
    requires
        valid_zoom(zoom),
        0 <= a <= b < 0x1_0000_0000,
    ensures
        tile_of(a, zoom) <= tile_of(b, zoom),
        tile_of(a, zoom) == tile_of(b, zoom) ==> part_of(a, zoom) <= part_of(b, zoom),
{
    lemma_span_times_count(zoom);
    lemma_div_is_ordered(a, b, tile_span(zoom));
    lemma_tile_and_part(a, zoom);
    lemma_tile_and_part(b, zoom);
}

/// The pyramid law: the tile that holds a position at one level is the
/// parent, with half the index, of the tile that holds it one level finer.
pub proof fn lemma_tile_of_coarser(coord: int, zoom: int)
    requires
        0 <= zoom < MAX_ZOOM,
        0 <= coord < 0x1_0000_0000,
    ensures
        tile_of(coord, zoom) == tile_of(coord, zoom + 1) / 2,
        tile_span(zoom) == 2 * tile_span(zoom + 1),
{
    lemma_span_times_count(zoom + 1);
    lemma_pow2_unfold((WORLD_BITS - zoom) as nat);
    lemma_div_denominator(coord, tile_span(zoom + 1), 2);
}

/// Side of one tile at `zoom`, in world units.
pub fn span_of(zoom: i32) -> (span: u64)
    requires
        valid_zoom(zoom as int),
    ensures
        span == tile_span(zoom as int),
        4 <= span <= 0x1_0000_0000,
{
    let shift: u64 = (WORLD_BITS - zoom) as u64;
    proof {
        lemma_span_times_count(zoom as int);
        lemma_u64_shl_is_mul(1u64, shift);
    }
    1u64 << shift
}

/// Places `point` in the tile plane of `zoom`: the tile that holds it and its
/// offset within that tile.
pub fn project(point: WorldPoint, zoom: i32) -> (c: TileCoordinate)
    requires
        valid_zoom(zoom as int),
    ensures
        c == projected(point, zoom as int),
        c.x_tile * tile_span(zoom as int) + c.x_part == point.x,
        c.y_tile * tile_span(zoom as int) + c.y_part == point.y,
        0 <= c.x_part < tile_span(zoom as int),
        0 <= c.y_part < tile_span(zoom as int),
        0 <= c.x_tile < tiles_across(zoom as int),
        0 <= c.y_tile < tiles_across(zoom as int),
{
    let span: u64 = span_of(zoom);
    let x: u64 = point.x as u64;
    let y: u64 = point.y as u64;
    proof {
        lemma_span_times_count(zoom as int);
        lemma_tile_and_part(point.x as int, zoom as int);
        lemma_tile_and_part(point.y as int, zoom as int);
    }
    TileCoordinate {
        x_tile: (x / span) as i32,
        y_tile: (y / span) as i32,
        x_part: (x % span) as u32,
        y_part: (y % span) as u32,
    }
}

} // verus!
