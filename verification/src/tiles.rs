use crate::bounds::Bounding;
use crate::mercator::{
    lemma_span_times_count, lemma_tile_and_part, lemma_tile_coordinate_monotonic,
    lemma_tile_of_coarser, project, tile_of, tiles_across, valid_zoom, TileCoordinate, WorldPoint,
    MAX_ZOOM,
};
use vstd::arithmetic::power2::lemma2_to64;
use vstd::prelude::*;

verus! {

/// Finest zoom level that the public tile servers offer.
pub const OSM_MAX_ZOOM: i32 = 19;

/// Side of one tile image, in pixels.
pub const OSM_TILE_SIZE: i32 = 256;

/// Largest canvas the basemap may cover: width and height in pixels.
pub const HEATMAP_MAX_SIZE: (i32, i32) = (2160, 3840);

/// A rectangle of tiles at one zoom level, edges included. Tile columns are
/// counted eastward and tile rows southward.
#[derive(Clone, Copy, Debug, PartialEq, Eq, Structural)]
pub struct MapTiles {
    pub zoom: i32,
    pub x_tile_min: i32,
    pub y_tile_max: i32,
    pub x_tile_max: i32,
    pub y_tile_min: i32,
}

impl MapTiles {
    /// The zoom is one the library works at, the bounds are in order, and
    /// every tile of the rectangle exists at that zoom.
    pub open spec fn wf(&self) -> bool {
        &&& valid_zoom(self.zoom as int)
        &&& 0 <= self.x_tile_min <= self.x_tile_max < tiles_across(self.zoom as int)
        &&& 0 <= self.y_tile_min <= self.y_tile_max < tiles_across(self.zoom as int)
    }

    /// Number of tile columns.
    pub open spec fn nx(&self) -> int {
        self.x_tile_max - self.x_tile_min + 1
    }

    /// Number of tile rows.
    pub open spec fn ny(&self) -> int {
        self.y_tile_max - self.y_tile_min + 1
    }

    /// Number of tile columns.
    pub fn get_nx(&self) -> (n: i32)
        requires
            self.wf(),
        ensures
            n == self.nx(),
            1 <= n <= tiles_across(self.zoom as int),
    {
        proof {
            lemma_span_times_count(self.zoom as int);
        }
        self.x_tile_max - self.x_tile_min + 1
    }

    /// Number of tile rows.
    pub fn get_ny(&self) -> (n: i32)
        requires
            self.wf(),
        ensures
            n == self.ny(),
            1 <= n <= tiles_across(self.zoom as int),
    {
        proof {
            lemma_span_times_count(self.zoom as int);
        }
        self.y_tile_max - self.y_tile_min + 1
    }
}

/// What the search for a zoom level came to.
#[derive(Clone, Copy, Debug, PartialEq, Eq, Structural)]
pub struct TileSelection {
    /// The grid that was chosen.
    pub tiles: MapTiles,
    /// Set when no zoom level fits the canvas and the search stopped at its
    /// floor: the grid is then the one of zoom 0, which does not fit either.
    pub clamped: bool,
}

/// The tiles at `zoom` that enclose `bounding`: from the tile that holds its
/// north-west corner to the tile that holds its south-east corner.
pub open spec fn grid_at(bounding: Bounding, zoom: int) -> MapTiles {
    MapTiles {
        zoom: zoom as i32,
        x_tile_min: tile_of(bounding.west as int, zoom) as i32,
        y_tile_max: tile_of(bounding.south as int, zoom) as i32,
        x_tile_max: tile_of(bounding.east as int, zoom) as i32,
        y_tile_min: tile_of(bounding.north as int, zoom) as i32,
    }
}

/// The pixel footprint of `grid`, with tiles of `tile_px` pixels a side, is
/// within `max_canvas` in width and in height.
pub open spec fn fits(grid: MapTiles, max_canvas: (i32, i32), tile_px: i32) -> bool {
    grid.nx() * tile_px <= max_canvas.0 && grid.ny() * tile_px <= max_canvas.1
}

/// The zoom the search settles on: going down from `max_zoom`, the first
/// level whose enclosing grid fits the canvas, and 0 when none does.
pub open spec fn selected_zoom(
    bounding: Bounding,
    max_canvas: (i32, i32),
    tile_px: i32,
    max_zoom: int,
) -> int
    decreases max_zoom,
{
    if max_zoom <= 0 {
        0
    } else if fits(grid_at(bounding, max_zoom), max_canvas, tile_px) {
        max_zoom
    } else {
        selected_zoom(bounding, max_canvas, tile_px, max_zoom - 1)
    }
}

/// The enclosing grid of a rectangle is a grid: its bounds are in order and
/// within the level, and they are the tile indices themselves.
pub proof fn lemma_grid_at_wf(bounding: Bounding, zoom: int)
    requires
        bounding.wf(),
        valid_zoom(zoom),
    ensures
        grid_at(bounding, zoom).wf(),
        grid_at(bounding, zoom).zoom == zoom,
        grid_at(bounding, zoom).x_tile_min == tile_of(bounding.west as int, zoom),
        grid_at(bounding, zoom).x_tile_max == tile_of(bounding.east as int, zoom),
        grid_at(bounding, zoom).y_tile_min == tile_of(bounding.north as int, zoom),
        grid_at(bounding, zoom).y_tile_max == tile_of(bounding.south as int, zoom),
{
    lemma_span_times_count(zoom);
    lemma_tile_and_part(bounding.west as int, zoom);
    lemma_tile_and_part(bounding.east as int, zoom);
    lemma_tile_and_part(bounding.north as int, zoom);
    lemma_tile_and_part(bounding.south as int, zoom);
    lemma_tile_coordinate_monotonic(bounding.west as int, bounding.east as int, zoom);
    lemma_tile_coordinate_monotonic(bounding.north as int, bounding.south as int, zoom);
}

/// The tiles at `zoom` that enclose `bounding`.
pub fn tiles_at(bounding: &Bounding, zoom: i32) -> (grid: MapTiles)
    requires
        bounding.wf(),
        valid_zoom(zoom as int),
    ensures
        grid == grid_at(*bounding, zoom as int),
        grid.wf(),
{
    let south_west: TileCoordinate = project(
        WorldPoint { x: bounding.west, y: bounding.south },
        zoom,
    );
    let north_east: TileCoordinate = project(
        WorldPoint { x: bounding.east, y: bounding.north },
        zoom,
    );
    proof {
        lemma_grid_at_wf(*bounding, zoom as int);
    }
    MapTiles {
        zoom,
        x_tile_min: south_west.x_tile,
        y_tile_max: south_west.y_tile,
        x_tile_max: north_east.x_tile,
        y_tile_min: north_east.y_tile,
    }
}

/// Whether the pixel footprint of `grid` is within `max_canvas`.
pub fn fits_canvas(grid: &MapTiles, max_canvas: (i32, i32), tile_px: i32) -> (ok: bool)
    requires
        grid.wf(),
    ensures
        ok == fits(*grid, max_canvas, tile_px),
{
    let nx: i64 = grid.get_nx() as i64;
    let ny: i64 = grid.get_ny() as i64;
    let px: i64 = tile_px as i64;
    proof {
        lemma_span_times_count(grid.zoom as int);
        assert(-0x2000_0000_0000_0000 <= nx * px <= 0x2000_0000_0000_0000) by (nonlinear_arith)
            requires
                1 <= nx <= 0x4000_0000,
                -0x8000_0000 <= px < 0x8000_0000,
        ;
        assert(-0x2000_0000_0000_0000 <= ny * px <= 0x2000_0000_0000_0000) by (nonlinear_arith)
            requires
                1 <= ny <= 0x4000_0000,
                -0x8000_0000 <= px < 0x8000_0000,
        ;
    }
    nx * px <= max_canvas.0 as i64 && ny * px <= max_canvas.1 as i64
}

/// Chooses the tile grid that backs `bounding`: the enclosing grid at the
/// finest zoom, from `max_zoom` down, whose pixel footprint is within
/// `max_canvas`. When no level fits, the search stops at zoom 0 and says so
/// in `clamped`.
pub fn get_map_tiles(
    bounding: &Bounding,
    max_canvas: (i32, i32),
    tile_px: i32,
    max_zoom: i32,
) -> (r: TileSelection)
    requires
        bounding.wf(),
        valid_zoom(max_zoom as int),
    ensures
        r.tiles.zoom == selected_zoom(*bounding, max_canvas, tile_px, max_zoom as int),
        r.tiles == grid_at(*bounding, r.tiles.zoom as int),
        r.tiles.wf(),
        r.clamped == !fits(r.tiles, max_canvas, tile_px),
        0 <= r.tiles.zoom <= max_zoom,
        r.clamped ==> r.tiles.zoom == 0,
        forall|z: int|
            r.tiles.zoom < z <= max_zoom ==> !fits(
                #[trigger] grid_at(*bounding, z),
                max_canvas,
                tile_px,
            ),
{
    let mut zoom: i32 = max_zoom;
    let mut tiles: MapTiles = tiles_at(bounding, zoom);
    let mut ok: bool = fits_canvas(&tiles, max_canvas, tile_px);
    while !ok && zoom > 0
        invariant
            bounding.wf(),
            0 <= zoom <= max_zoom <= MAX_ZOOM,
            tiles == grid_at(*bounding, zoom as int),
            tiles.wf(),
            ok == fits(tiles, max_canvas, tile_px),
            selected_zoom(*bounding, max_canvas, tile_px, max_zoom as int) == selected_zoom(
                *bounding,
                max_canvas,
                tile_px,
                zoom as int,
            ),
            forall|z: int|
                zoom < z <= max_zoom ==> !fits(
                    #[trigger] grid_at(*bounding, z),
                    max_canvas,
                    tile_px,
                ),
        decreases zoom,
    {
        zoom = zoom - 1;
        tiles = tiles_at(bounding, zoom);
        ok = fits_canvas(&tiles, max_canvas, tile_px);
    }
    TileSelection { tiles, clamped: !ok }
}

/// What the selected zoom is, said without the search: it lies in
/// `0..=max_zoom`, no finer level up to `max_zoom` fits the canvas, and it
/// fits itself unless it is 0.
pub proof fn lemma_selected_zoom_is_finest_fit(
    bounding: Bounding,
    max_canvas: (i32, i32),
    tile_px: i32,
    max_zoom: int,
)
    requires
        0 <= max_zoom,
    ensures
        0 <= selected_zoom(bounding, max_canvas, tile_px, max_zoom) <= max_zoom,
        forall|z: int|
            selected_zoom(bounding, max_canvas, tile_px, max_zoom) < z <= max_zoom ==> !fits(
                #[trigger] grid_at(bounding, z),
                max_canvas,
                tile_px,
            ),
        selected_zoom(bounding, max_canvas, tile_px, max_zoom) == 0 || fits(
            grid_at(bounding, selected_zoom(bounding, max_canvas, tile_px, max_zoom)),
            max_canvas,
            tile_px,
        ),
    decreases max_zoom,
{
    if max_zoom > 0 && !fits(grid_at(bounding, max_zoom), max_canvas, tile_px) {
        lemma_selected_zoom_is_finest_fit(bounding, max_canvas, tile_px, max_zoom - 1);
    }
}

/// A rectangle that lies within one tile at `max_zoom` gets that one tile,
/// at `max_zoom`, whenever a single tile fits the canvas. A rectangle that
/// is a single point is such a rectangle at every zoom.
pub proof fn lemma_single_tile_takes_max_zoom(
    bounding: Bounding,
    max_canvas: (i32, i32),
    tile_px: i32,
    max_zoom: int,
)
    requires
        bounding.wf(),
        valid_zoom(max_zoom),
        tile_of(bounding.west as int, max_zoom) == tile_of(bounding.east as int, max_zoom),
        tile_of(bounding.north as int, max_zoom) == tile_of(bounding.south as int, max_zoom),
        tile_px <= max_canvas.0,
        tile_px <= max_canvas.1,
    ensures
        selected_zoom(bounding, max_canvas, tile_px, max_zoom) == max_zoom,
        grid_at(bounding, max_zoom).nx() == 1,
        grid_at(bounding, max_zoom).ny() == 1,
{
    lemma_grid_at_wf(bounding, max_zoom);
    let grid = grid_at(bounding, max_zoom);
    assert(grid.nx() * tile_px == tile_px && grid.ny() * tile_px == tile_px) by (nonlinear_arith)
        requires
            grid.nx() == 1,
            grid.ny() == 1,
    ;
}

/// Making the canvas smaller never makes the selected zoom finer.
pub proof fn lemma_smaller_canvas_never_finer(
    bounding: Bounding,
    canvas: (i32, i32),
    smaller: (i32, i32),
    tile_px: i32,
    max_zoom: int,
)
    requires
        smaller.0 <= canvas.0,
        smaller.1 <= canvas.1,
    ensures
        selected_zoom(bounding, smaller, tile_px, max_zoom) <= selected_zoom(
            bounding,
            canvas,
            tile_px,
            max_zoom,
        ),
    decreases max_zoom,
{
    if max_zoom > 0 {
        lemma_smaller_canvas_never_finer(bounding, canvas, smaller, tile_px, max_zoom - 1);
        lemma_selected_zoom_is_finest_fit(bounding, canvas, tile_px, max_zoom - 1);
    }
}

/// One level coarser, the enclosing grid has no more columns and no more
/// rows than before; at zoom 0 it is the single tile of that level.
pub proof fn lemma_coarser_grid_not_larger(bounding: Bounding, zoom: int)
    requires
        bounding.wf(),
        0 <= zoom < MAX_ZOOM,
    ensures
        grid_at(bounding, zoom).nx() <= grid_at(bounding, zoom + 1).nx(),
        grid_at(bounding, zoom).ny() <= grid_at(bounding, zoom + 1).ny(),
        grid_at(bounding, 0).nx() == 1,
        grid_at(bounding, 0).ny() == 1,
{
    lemma_grid_at_wf(bounding, zoom);
    lemma_grid_at_wf(bounding, zoom + 1);
    lemma_grid_at_wf(bounding, 0);
    lemma_span_times_count(0);
    lemma2_to64();
    lemma_tile_of_coarser(bounding.west as int, zoom);
    lemma_tile_of_coarser(bounding.east as int, zoom);
    lemma_tile_of_coarser(bounding.north as int, zoom);
    lemma_tile_of_coarser(bounding.south as int, zoom);
}

/// With tiles of non-negative size, a grid that fits the canvas at one level
/// fits it at every coarser level: the search never passes over a level that
/// would have fitted.
pub proof fn lemma_fit_carries_to_coarser(
    bounding: Bounding,
    max_canvas: (i32, i32),
    tile_px: i32,
    zoom: int,
    coarser: int,
)
    requires
        bounding.wf(),
        0 <= coarser <= zoom <= MAX_ZOOM,
        0 <= tile_px,
        fits(grid_at(bounding, zoom), max_canvas, tile_px),
    ensures
        fits(grid_at(bounding, coarser), max_canvas, tile_px),
    decreases zoom - coarser,
{
    if coarser < zoom {
        lemma_coarser_grid_not_larger(bounding, zoom - 1);
        let fine = grid_at(bounding, zoom);
        let next = grid_at(bounding, zoom - 1);
        assert(next.nx() * tile_px <= fine.nx() * tile_px) by (nonlinear_arith)
            requires
                next.nx() <= fine.nx(),
                0 <= tile_px,
        ;
        assert(next.ny() * tile_px <= fine.ny() * tile_px) by (nonlinear_arith)
            requires
                next.ny() <= fine.ny(),
                0 <= tile_px,
        ;
        lemma_fit_carries_to_coarser(bounding, max_canvas, tile_px, zoom - 1, coarser);
    }
}

} // verus!
