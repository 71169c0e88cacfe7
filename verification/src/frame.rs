use crate::bounds::{get_bounding, is_bounding_of, Bounding};
use crate::error::FramingError;
use crate::mercator::{
    lemma_span_times_count, lemma_tile_coordinate_monotonic, tile_of, valid_zoom, WorldPoint,
};
use crate::scene::{
    all_have_elevation, elevation_at, elevation_range, first_empty_track,
    first_lacking_elevation, highest_elevation, is_highest_elevation, is_lowest_elevation, lay_out,
    lemma_sample_lies_on_its_tile, lemma_scene_heights, lowest_elevation, no_empty_track,
    scene_axis, scene_of, ScenePoint, SCENE_BASE_HEIGHT, SCENE_HEIGHT_RANGE, SCENE_TILE_SIZE,
};
use crate::tiles::{
    fits, get_map_tiles, grid_at, lemma_grid_at_wf, selected_zoom, MapTiles, TileSelection,
};
use crate::track::{
    all_positions, is_sample, lemma_positions_hold_every_sample, positions, Track,
};
use vstd::prelude::*;

verus! {

/// Everything the viewer draws: the tile grid of the basemap and the tracks
/// laid out on it.
#[derive(Debug)]
pub struct Frame {
    /// The smallest rectangle that holds every sample.
    pub bounding: Bounding,
    /// The tile grid that backs the rectangle.
    pub tiles: MapTiles,
    /// Set when no zoom level fitted the canvas and zoom 0 was taken.
    pub clamped: bool,
    /// One polyline per track, one scene point per sample.
    pub polylines: Vec<Vec<ScenePoint>>,
}

/// `p` lies over the basemap of `grid`: within the footprint of its tiles,
/// which is centred on the origin.
pub open spec fn on_basemap(grid: MapTiles, p: ScenePoint) -> bool {
    &&& -grid.nx() * (SCENE_TILE_SIZE / 2) <= p.x < grid.nx() * (SCENE_TILE_SIZE / 2)
    &&& -grid.ny() * (SCENE_TILE_SIZE / 2) <= p.y < grid.ny() * (SCENE_TILE_SIZE / 2)
}

/// Along one axis, a position between the edges of a rectangle is drawn
/// within the footprint of the grid that encloses the rectangle.
proof fn lemma_axis_within_footprint(coord: int, low: int, high: int, zoom: int)
    requires
        valid_zoom(zoom),
        0 <= low <= coord <= high < 0x1_0000_0000,
    ensures
        ({
            let tile_min = tile_of(low, zoom);
            let count = tile_of(high, zoom) - tile_of(low, zoom) + 1;
            let half = count * (SCENE_TILE_SIZE / 2);
            -half <= scene_axis(coord, zoom, tile_min, count) < half
        }),
{
    lemma_tile_coordinate_monotonic(low, coord, zoom);
    lemma_tile_coordinate_monotonic(coord, high, zoom);
    let tile_min = tile_of(low, zoom);
    let count = tile_of(high, zoom) - tile_of(low, zoom) + 1;
    let index = tile_of(coord, zoom) - tile_min;
    lemma_sample_lies_on_its_tile(coord, zoom, tile_min, count, index);
}

/// Tracks framed by the grid that encloses their bounding rectangle lie over
/// the basemap, at any zoom: every sample is drawn within the footprint of
/// the tiles.
pub proof fn lemma_framed_samples_on_basemap(
    bounding: Bounding,
    tracks: Seq<Track>,
    zoom: int,
    t: int,
    i: int,
)
    requires
        is_bounding_of(bounding, all_positions(tracks)),
        valid_zoom(zoom),
        is_sample(tracks, t, i),
    ensures
        on_basemap(grid_at(bounding, zoom), scene_of(grid_at(bounding, zoom), tracks)[t][i]),
{
    let all = all_positions(tracks);
    let p = tracks[t]@[i].position;
    lemma_positions_hold_every_sample(tracks, t, i);
    let k = choose|k: int| 0 <= k < all.len() && all[k] == p;
    assert(bounding.contains(all[k]));
    lemma_grid_at_wf(bounding, zoom);
    lemma_span_times_count(zoom);
    lemma_axis_within_footprint(p.x as int, bounding.west as int, bounding.east as int, zoom);
    lemma_axis_within_footprint(p.y as int, bounding.north as int, bounding.south as int, zoom);
}

/// Frames `tracks`: finds the rectangle that holds them, chooses the tile
/// grid that backs it within `max_canvas`, and lays the tracks out on that
/// grid.
///
/// Fails with `EmptyInput` when there is no track or a track has no sample,
/// naming the first such track, and otherwise with `MissingElevation`,
/// naming the first such sample, when a sample carries no elevation. An
/// empty track is reported before a missing elevation, wherever the two
/// stand.
pub fn frame_tracks(
    tracks: &Vec<Track>,
    max_canvas: (i32, i32),
    tile_px: i32,
    max_zoom: i32,
) -> (r: Result<Frame, FramingError>)
    requires
        valid_zoom(max_zoom as int),
    ensures
        match r {
            Ok(frame) => {
                &&& no_empty_track(tracks@)
                &&& all_have_elevation(tracks@)
                &&& is_lowest_elevation(tracks@, lowest_elevation(tracks@))
                &&& is_highest_elevation(tracks@, highest_elevation(tracks@))
                &&& frame.bounding.wf()
                &&& is_bounding_of(frame.bounding, all_positions(tracks@))
                &&& frame.tiles.wf()
                &&& frame.tiles.zoom == selected_zoom(
                    frame.bounding,
                    max_canvas,
                    tile_px,
                    max_zoom as int,
                )
                &&& frame.tiles == grid_at(frame.bounding, frame.tiles.zoom as int)
                &&& frame.clamped == !fits(frame.tiles, max_canvas, tile_px)
                &&& frame.clamped ==> frame.tiles.zoom == 0
                &&& frame.polylines.len() == tracks.len()
                &&& forall|t: int|
                    0 <= t < tracks.len() ==> (#[trigger] frame.polylines[t]).len()
                        == tracks[t]@.len()
                &&& forall|t: int, i: int| #[trigger]
                    is_sample(tracks@, t, i) ==> {
                        &&& frame.polylines[t][i] == scene_of(frame.tiles, tracks@)[t][i]
                        &&& on_basemap(frame.tiles, frame.polylines[t][i])
                        &&& SCENE_BASE_HEIGHT <= frame.polylines[t][i].z <= SCENE_BASE_HEIGHT
                            + SCENE_HEIGHT_RANGE
                    }
                &&& forall|t: int, i: int, u: int, j: int|
                    #![trigger is_sample(tracks@, t, i), is_sample(tracks@, u, j)]
                    is_sample(tracks@, t, i) && is_sample(tracks@, u, j) && elevation_at(
                        tracks@,
                        t,
                        i,
                    ) < elevation_at(tracks@, u, j) ==> frame.polylines[t][i].z
                        < frame.polylines[u][j].z
            },
            Err(FramingError::EmptyInput { empty_track: None }) => tracks.len() == 0,
            Err(FramingError::EmptyInput { empty_track: Some(t) }) => first_empty_track(
                tracks@,
                t as int,
            ),
            Err(FramingError::MissingElevation { track, point }) => {
                &&& no_empty_track(tracks@)
                &&& first_lacking_elevation(tracks@, track as int, point as int)
            },
        },
{
    let (lowest, highest): (i32, i32) = match elevation_range(tracks) {
        Ok(range) => range,
        Err(e) => {
            return Err(e);
        },
    };
    let all: Vec<WorldPoint> = positions(tracks);
    let bounding: Bounding = match get_bounding(&all) {
        Ok(b) => b,
        Err(e) => {
            proof {
                assert(is_sample(tracks@, 0, 0));
                lemma_positions_hold_every_sample(tracks@, 0, 0);
            }
            return Err(e);
        },
    };
    let selection: TileSelection = get_map_tiles(&bounding, max_canvas, tile_px, max_zoom);
    let polylines: Vec<Vec<ScenePoint>> = lay_out(&selection.tiles, tracks, lowest, highest);
    proof {
        lemma_scene_heights(selection.tiles, tracks@);
        assert forall|t: int, i: int| #[trigger] is_sample(tracks@, t, i) implies on_basemap(
            selection.tiles,
            polylines[t][i],
        ) by {
            lemma_framed_samples_on_basemap(bounding, tracks@, selection.tiles.zoom as int, t, i);
        }
    }
    Ok(Frame { bounding, tiles: selection.tiles, clamped: selection.clamped, polylines })
}

} // verus!
