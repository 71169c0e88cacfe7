use crate::error::FramingError;
use crate::mercator::{
    lemma_span_times_count, lemma_tile_and_part, part_of, span_of, tile_of, tile_span,
    tiles_across, valid_zoom,
};
use crate::tiles::MapTiles;
use crate::track::{is_sample, GeoPoint, Track};
use vstd::arithmetic::div_mod::{lemma_div_is_ordered, lemma_div_plus_one};
use vstd::prelude::*;

verus! {

/// Side of one tile of the basemap in the scene, in scene steps. The
/// basemap quads and the tracks are both laid out with it. It is a power of
/// two no smaller than the map, so that every world unit, at every zoom, is
/// a whole number of steps and no position is rounded.
pub const SCENE_TILE_SIZE: i64 = 0x2_0000_0000;

/// Number of scene steps in one scene unit: a tile side is 256 hundredths of
/// a scene unit.
pub const SCENE_UNIT: i64 = 3_355_443_200;

/// Height at which the lowest sample floats above the basemap: a tenth of a
/// scene unit.
pub const SCENE_BASE_HEIGHT: i64 = 335_544_320;

/// Height between the lowest and the highest sample: two scene units. It
/// has more steps than two elevations can be apart, so that samples of
/// different elevation never share a height.
pub const SCENE_HEIGHT_RANGE: i64 = 6_710_886_400;

/// A position in the scene, in scene steps. `x` grows eastward and `y`
/// southward from the centre of the tile grid; `z` is the height above the
/// basemap.
#[derive(Clone, Copy, Debug, PartialEq, Eq, Structural)]
pub struct ScenePoint {
    pub x: i64,
    pub y: i64,
    pub z: i64,
}

/// There is a track, and every track has a sample.
pub open spec fn no_empty_track(tracks: Seq<Track>) -> bool {
    &&& tracks.len() > 0
    &&& forall|t: int| 0 <= t < tracks.len() ==> (#[trigger] tracks[t])@.len() > 0
}

/// Track `t` is the first without a sample.
pub open spec fn first_empty_track(tracks: Seq<Track>, t: int) -> bool {
    &&& 0 <= t < tracks.len()
    &&& tracks[t]@.len() == 0
    &&& forall|u: int| 0 <= u < t ==> (#[trigger] tracks[u])@.len() > 0
}

/// Sample `i` of track `t` carries no elevation.
pub open spec fn lacks_elevation(tracks: Seq<Track>, t: int, i: int) -> bool {
    is_sample(tracks, t, i) && tracks[t]@[i].elevation is None
}

/// Every sample carries an elevation.
pub open spec fn all_have_elevation(tracks: Seq<Track>) -> bool {
    forall|t: int, i: int| !#[trigger] lacks_elevation(tracks, t, i)
}

/// Sample `i` of track `t` is the first without an elevation, tracks and
/// samples taken in order.
pub open spec fn first_lacking_elevation(tracks: Seq<Track>, t: int, i: int) -> bool {
    &&& lacks_elevation(tracks, t, i)
    &&& forall|u: int, j: int| #[trigger]
        lacks_elevation(tracks, u, j) ==> t < u || (t == u && i <= j)
}

/// The elevation of sample `i` of track `t`.
pub open spec fn elevation_at(tracks: Seq<Track>, t: int, i: int) -> int {
    tracks[t]@[i].elevation.unwrap() as int
}

/// `lowest` is the least elevation of any sample.
pub open spec fn is_lowest_elevation(tracks: Seq<Track>, lowest: int) -> bool {
    &&& forall|t: int, i: int| #[trigger]
        is_sample(tracks, t, i) ==> lowest <= elevation_at(tracks, t, i)
    &&& exists|t: int, i: int| #[trigger]
        is_sample(tracks, t, i) && elevation_at(tracks, t, i) == lowest
}

/// `highest` is the greatest elevation of any sample.
pub open spec fn is_highest_elevation(tracks: Seq<Track>, highest: int) -> bool {
    &&& forall|t: int, i: int| #[trigger]
        is_sample(tracks, t, i) ==> elevation_at(tracks, t, i) <= highest
    &&& exists|t: int, i: int| #[trigger]
        is_sample(tracks, t, i) && elevation_at(tracks, t, i) == highest
}

/// The least elevation of any sample of any track.
pub open spec fn lowest_elevation(tracks: Seq<Track>) -> int {
    choose|lowest: int| is_lowest_elevation(tracks, lowest)
}

/// The greatest elevation of any sample of any track.
pub open spec fn highest_elevation(tracks: Seq<Track>) -> int {
    choose|highest: int| is_highest_elevation(tracks, highest)
}

/// Number of scene steps that one world unit takes up at `zoom`: the tile
/// size over the tile span, which divides it.
pub open spec fn scene_scale(zoom: int) -> int {
    2 * tiles_across(zoom)
}

/// Position along one scene axis of world coordinate `coord`, for a grid
/// that starts at tile `tile_min` and is `count` tiles long: the distance
/// from the grid's low edge, scaled to the scene, then shifted so that the
/// grid is centred on the origin. Nothing is rounded.
pub open spec fn scene_axis(coord: int, zoom: int, tile_min: int, count: int) -> int {
    let from_low_edge = coord - tile_min * tile_span(zoom);
    from_low_edge * scene_scale(zoom) - count * (SCENE_TILE_SIZE / 2)
}

/// Height in the scene of a sample at `elevation`, the samples ranging from
/// `lowest` to `highest`: the base height plus the sample's share of the
/// height range, rounded down to a scene step. Where all samples share one
/// elevation there is no share to take, and the height is the base height.
pub open spec fn scene_height(elevation: int, lowest: int, highest: int) -> int {
    if lowest < highest {
        SCENE_BASE_HEIGHT + (elevation - lowest) * SCENE_HEIGHT_RANGE / (highest - lowest)
    } else {
        SCENE_BASE_HEIGHT as int
    }
}

/// Where `point` stands in the scene laid out on `grid`.
pub open spec fn scene_point(grid: MapTiles, point: GeoPoint, lowest: int, highest: int)
    -> ScenePoint {
    ScenePoint {
        x: scene_axis(
            point.position.x as int,
            grid.zoom as int,
            grid.x_tile_min as int,
            grid.nx(),
        ) as i64,
        y: scene_axis(
            point.position.y as int,
            grid.zoom as int,
            grid.y_tile_min as int,
            grid.ny(),
        ) as i64,
        z: scene_height(point.elevation.unwrap() as int, lowest, highest) as i64,
    }
}

/// The scene of `tracks` on `grid`: one polyline per track, one scene point
/// per sample, heights normalised over all samples of all tracks.
pub open spec fn scene_of(grid: MapTiles, tracks: Seq<Track>) -> Seq<Seq<ScenePoint>> {
    Seq::new(
        tracks.len(),
        |t: int|
            Seq::new(
                tracks[t]@.len(),
                |i: int|
                    scene_point(
                        grid,
                        tracks[t]@[i],
                        lowest_elevation(tracks),
                        highest_elevation(tracks),
                    ),
            ),
    )
}

/// There is one least and one greatest elevation.
pub proof fn lemma_elevation_range_unique(tracks: Seq<Track>, lowest: int, highest: int)
    requires
        is_lowest_elevation(tracks, lowest),
        is_highest_elevation(tracks, highest),
    ensures
        lowest_elevation(tracks) == lowest,
        highest_elevation(tracks) == highest,
        lowest <= highest,
{
    let l = lowest_elevation(tracks);
    let h = highest_elevation(tracks);
    assert(is_lowest_elevation(tracks, l));
    assert(is_highest_elevation(tracks, h));
    let (t0, i0) = choose|t: int, i: int| #[trigger]
        is_sample(tracks, t, i) && elevation_at(tracks, t, i) == lowest;
    let (t1, i1) = choose|t: int, i: int| #[trigger]
        is_sample(tracks, t, i) && elevation_at(tracks, t, i) == l;
    let (t2, i2) = choose|t: int, i: int| #[trigger]
        is_sample(tracks, t, i) && elevation_at(tracks, t, i) == highest;
    let (t3, i3) = choose|t: int, i: int| #[trigger]
        is_sample(tracks, t, i) && elevation_at(tracks, t, i) == h;
    assert(is_sample(tracks, t0, i0) && is_sample(tracks, t1, i1));
    assert(is_sample(tracks, t2, i2) && is_sample(tracks, t3, i3));
}

/// Centre, along one scene axis, of the basemap quad of the tile at place
/// `index` in a grid that is `count` tiles long.
pub open spec fn quad_center_axis(index: int, count: int) -> int {
    (2 * index + 1 - count) * (SCENE_TILE_SIZE / 2)
}

/// Samples at the same elevation stand at the same height, whichever tracks
/// they belong to. In particular a track that stays at one elevation is drawn
/// at one height.
pub proof fn lemma_equal_elevation_equal_height(
    grid: MapTiles,
    tracks: Seq<Track>,
    t: int,
    i: int,
    u: int,
    j: int,
)
    requires
        is_sample(tracks, t, i),
        is_sample(tracks, u, j),
        elevation_at(tracks, t, i) == elevation_at(tracks, u, j),
    ensures
        scene_of(grid, tracks)[t][i].z == scene_of(grid, tracks)[u][j].z,
{
}

/// The scene has one polyline per track and one point per sample.
pub proof fn lemma_scene_keeps_counts(grid: MapTiles, tracks: Seq<Track>)
    ensures
        scene_of(grid, tracks).len() == tracks.len(),
        forall|t: int|
            0 <= t < tracks.len() ==> (#[trigger] scene_of(grid, tracks)[t]).len()
                == tracks[t]@.len(),
{
}

/// The scene scale is the tile size over the tile span, exactly.
pub proof fn lemma_scene_scale(zoom: int)
    requires
        valid_zoom(zoom),
    ensures
        scene_scale(zoom) * tile_span(zoom) == SCENE_TILE_SIZE,
        2 <= scene_scale(zoom) <= 0x8000_0000,
{
    lemma_span_times_count(zoom);
    let n: int = tiles_across(zoom);
    let d: int = tile_span(zoom);
    assert((2 * n) * d == 2 * (d * n)) by (nonlinear_arith);
}

/// Heights follow elevations: the lowest sample stands at the base height,
/// the highest, where there is a higher one, at the base height plus the
/// height range, and a higher sample always stands strictly higher, however
/// close the two elevations are.
pub proof fn lemma_height_follows_elevation(a: int, b: int, lowest: int, highest: int)
    requires
        lowest <= a <= b <= highest,
        highest - lowest <= SCENE_HEIGHT_RANGE,
    ensures
        scene_height(lowest, lowest, highest) == SCENE_BASE_HEIGHT,
        SCENE_BASE_HEIGHT <= scene_height(a, lowest, highest),
        scene_height(a, lowest, highest) <= scene_height(b, lowest, highest),
        scene_height(b, lowest, highest) <= SCENE_BASE_HEIGHT + SCENE_HEIGHT_RANGE,
        lowest < highest ==> scene_height(highest, lowest, highest) == SCENE_BASE_HEIGHT
            + SCENE_HEIGHT_RANGE,
        a < b ==> scene_height(a, lowest, highest) < scene_height(b, lowest, highest),
{
    if lowest < highest {
        let d: int = highest - lowest;
        let r: int = SCENE_HEIGHT_RANGE as int;
        let x: int = (a - lowest) * r;
        let y: int = (b - lowest) * r;
        assert(0 * r == 0);
        assert(0int / d == 0) by (nonlinear_arith)
            requires
                d > 0,
        ;
        assert(0 <= x <= y <= d * r) by (nonlinear_arith)
            requires
                0 <= a - lowest <= b - lowest <= d,
                r > 0,
                x == (a - lowest) * r,
                y == (b - lowest) * r,
        ;
        lemma_div_is_ordered(0, x, d);
        lemma_div_is_ordered(x, y, d);
        lemma_div_is_ordered(y, d * r, d);
        assert(d * r / d == r) by (nonlinear_arith)
            requires
                d > 0,
        ;
        if a < b {
            let step: int = b - a;
            assert(y == x + step * r) by (nonlinear_arith)
                requires
                    x == (a - lowest) * r,
                    y == (b - lowest) * r,
                    step == b - a,
            ;
            assert(step * r >= r) by (nonlinear_arith)
                requires
                    step >= 1,
                    r > 0,
            ;
            lemma_div_plus_one(x, d);
            lemma_div_is_ordered(d + x, y, d);
        }
    }
}

/// Some elevation is the least: among the samples that are no higher than
/// `v`, of which there is one, one is the lowest of all.
proof fn lemma_lowest_exists(tracks: Seq<Track>, v: int)
    requires
        exists|t: int, i: int| #[trigger]
            is_sample(tracks, t, i) && elevation_at(tracks, t, i) <= v,
    ensures
        exists|lowest: int| is_lowest_elevation(tracks, lowest),
    decreases v - i32::MIN,
{
    if exists|t: int, i: int| #[trigger]
        is_sample(tracks, t, i) && elevation_at(tracks, t, i) <= v - 1 {
        let (t, i) = choose|t: int, i: int| #[trigger]
            is_sample(tracks, t, i) && elevation_at(tracks, t, i) <= v - 1;
        assert(elevation_at(tracks, t, i) >= i32::MIN);
        lemma_lowest_exists(tracks, v - 1);
    } else {
        let (t, i) = choose|t: int, i: int| #[trigger]
            is_sample(tracks, t, i) && elevation_at(tracks, t, i) <= v;
        assert(is_sample(tracks, t, i) && elevation_at(tracks, t, i) == v);
        assert(is_lowest_elevation(tracks, v));
    }
}

/// Some elevation is the greatest: among the samples that are no lower than
/// `v`, of which there is one, one is the highest of all.
proof fn lemma_highest_exists(tracks: Seq<Track>, v: int)
    requires
        exists|t: int, i: int| #[trigger]
            is_sample(tracks, t, i) && elevation_at(tracks, t, i) >= v,
    ensures
        exists|highest: int| is_highest_elevation(tracks, highest),
    decreases i32::MAX - v,
{
    if exists|t: int, i: int| #[trigger]
        is_sample(tracks, t, i) && elevation_at(tracks, t, i) >= v + 1 {
        let (t, i) = choose|t: int, i: int| #[trigger]
            is_sample(tracks, t, i) && elevation_at(tracks, t, i) >= v + 1;
        assert(elevation_at(tracks, t, i) <= i32::MAX);
        lemma_highest_exists(tracks, v + 1);
    } else {
        let (t, i) = choose|t: int, i: int| #[trigger]
            is_sample(tracks, t, i) && elevation_at(tracks, t, i) >= v;
        assert(is_sample(tracks, t, i) && elevation_at(tracks, t, i) == v);
        assert(is_highest_elevation(tracks, v));
    }
}

/// Tracks that hold a sample have a least and a greatest elevation, and
/// every sample lies between the two.
pub proof fn lemma_elevation_range_exists(tracks: Seq<Track>, t: int, i: int)
    requires
        is_sample(tracks, t, i),
    ensures
        is_lowest_elevation(tracks, lowest_elevation(tracks)),
        is_highest_elevation(tracks, highest_elevation(tracks)),
        i32::MIN <= lowest_elevation(tracks) <= elevation_at(tracks, t, i) <= highest_elevation(
            tracks,
        ) <= i32::MAX,
{
    lemma_lowest_exists(tracks, elevation_at(tracks, t, i));
    lemma_highest_exists(tracks, elevation_at(tracks, t, i));
    let lowest = lowest_elevation(tracks);
    let highest = highest_elevation(tracks);
    let (t0, i0) = choose|t: int, i: int| #[trigger]
        is_sample(tracks, t, i) && elevation_at(tracks, t, i) == lowest;
    let (t1, i1) = choose|t: int, i: int| #[trigger]
        is_sample(tracks, t, i) && elevation_at(tracks, t, i) == highest;
    assert(is_sample(tracks, t0, i0) && is_sample(tracks, t1, i1));
}

/// Every sample stands between the base height and the base height plus the
/// height range.
pub proof fn lemma_heights_within_range(grid: MapTiles, tracks: Seq<Track>, t: int, i: int)
    requires
        is_sample(tracks, t, i),
    ensures
        SCENE_BASE_HEIGHT <= scene_of(grid, tracks)[t][i].z <= SCENE_BASE_HEIGHT
            + SCENE_HEIGHT_RANGE,
        scene_of(grid, tracks)[t][i].z == scene_height(
            elevation_at(tracks, t, i),
            lowest_elevation(tracks),
            highest_elevation(tracks),
        ),
{
    lemma_elevation_range_exists(tracks, t, i);
    let e = elevation_at(tracks, t, i);
    lemma_height_follows_elevation(e, e, lowest_elevation(tracks), highest_elevation(tracks));
}

/// A sample at a higher elevation stands strictly higher in the scene,
/// whichever tracks the two belong to and however close their elevations.
pub proof fn lemma_higher_sample_stands_higher(
    grid: MapTiles,
    tracks: Seq<Track>,
    t: int,
    i: int,
    u: int,
    j: int,
)
    requires
        is_sample(tracks, t, i),
        is_sample(tracks, u, j),
        elevation_at(tracks, t, i) < elevation_at(tracks, u, j),
    ensures
        scene_of(grid, tracks)[t][i].z < scene_of(grid, tracks)[u][j].z,
{
    lemma_elevation_range_exists(tracks, t, i);
    lemma_elevation_range_exists(tracks, u, j);
    lemma_heights_within_range(grid, tracks, t, i);
    lemma_heights_within_range(grid, tracks, u, j);
    lemma_height_follows_elevation(
        elevation_at(tracks, t, i),
        elevation_at(tracks, u, j),
        lowest_elevation(tracks),
        highest_elevation(tracks),
    );
}

/// What the two laws above say of every sample at once.
pub proof fn lemma_scene_heights(grid: MapTiles, tracks: Seq<Track>)
    ensures
        forall|t: int, i: int| #[trigger]
            is_sample(tracks, t, i) ==> SCENE_BASE_HEIGHT <= scene_of(grid, tracks)[t][i].z
                <= SCENE_BASE_HEIGHT + SCENE_HEIGHT_RANGE,
        forall|t: int, i: int, u: int, j: int|
            #![trigger is_sample(tracks, t, i), is_sample(tracks, u, j)]
            is_sample(tracks, t, i) && is_sample(tracks, u, j) && elevation_at(tracks, t, i)
                < elevation_at(tracks, u, j) ==> scene_of(grid, tracks)[t][i].z < scene_of(
                grid,
                tracks,
            )[u][j].z,
{
    assert forall|t: int, i: int| #[trigger] is_sample(tracks, t, i) implies SCENE_BASE_HEIGHT
        <= scene_of(grid, tracks)[t][i].z <= SCENE_BASE_HEIGHT + SCENE_HEIGHT_RANGE by {
        lemma_heights_within_range(grid, tracks, t, i);
    }
    assert forall|t: int, i: int, u: int, j: int|
        #![trigger is_sample(tracks, t, i), is_sample(tracks, u, j)]
        is_sample(tracks, t, i) && is_sample(tracks, u, j) && elevation_at(tracks, t, i)
            < elevation_at(tracks, u, j) implies scene_of(grid, tracks)[t][i].z < scene_of(
        grid,
        tracks,
    )[u][j].z by {
        lemma_higher_sample_stands_higher(grid, tracks, t, i, u, j);
    }
}

/// A position that falls in the tile at place `index` of the grid, along one
/// axis, is drawn on the basemap quad of that tile: within half a tile of the
/// quad's centre.
pub proof fn lemma_sample_lies_on_its_tile(
    coord: int,
    zoom: int,
    tile_min: int,
    count: int,
    index: int,
)
    requires
        valid_zoom(zoom),
        0 <= coord < 0x1_0000_0000,
        tile_of(coord, zoom) == tile_min + index,
    ensures
        quad_center_axis(index, count) - SCENE_TILE_SIZE / 2 <= scene_axis(
            coord,
            zoom,
            tile_min,
            count,
        ) < quad_center_axis(index, count) + SCENE_TILE_SIZE / 2,
{
    lemma_scene_scale(zoom);
    lemma_tile_and_part(coord, zoom);
    let d: int = tile_span(zoom);
    let k: int = scene_scale(zoom);
    let part: int = part_of(coord, zoom);
    assert((coord - tile_min * d) * k == index * (k * d) + part * k) by (nonlinear_arith)
        requires
            coord == (tile_min + index) * d + part,
    ;
    assert(0 <= part * k < k * d) by (nonlinear_arith)
        requires
            0 <= part < d,
            k > 0,
    ;
}

/// The least and the greatest elevation over all samples of all tracks.
///
/// Fails with `EmptyInput` when there is no track or a track has no sample,
/// naming the first such track, and otherwise with `MissingElevation`,
/// naming the first such sample, when a sample carries no elevation. An
/// empty track is reported before a missing elevation, wherever the two
/// stand.
pub fn elevation_range(tracks: &Vec<Track>) -> (r: Result<(i32, i32), FramingError>)
    ensures
        match r {
            Ok((lowest, highest)) => {
                &&& no_empty_track(tracks@)
                &&& all_have_elevation(tracks@)
                &&& is_lowest_elevation(tracks@, lowest as int)
                &&& is_highest_elevation(tracks@, highest as int)
                &&& lowest == lowest_elevation(tracks@)
                &&& highest == highest_elevation(tracks@)
            },
            Err(FramingError::EmptyInput { empty_track: None }) => tracks.len() == 0,
            Err(FramingError::EmptyInput { empty_track: Some(t) }) => first_empty_track(
                tracks@,
                t as int,
            ),
            Err(FramingError::MissingElevation { track, point }) => {
                &&& no_empty_track(tracks@)
                &&& first_lacking_elevation(tracks@, track as int, point as int)
            },
        },
{
    if tracks.len() == 0 {
        return Err(FramingError::EmptyInput { empty_track: None });
    }
    let mut t: usize = 0;
    while t < tracks.len()
        invariant
            t <= tracks.len(),
            forall|u: int| 0 <= u < t ==> (#[trigger] tracks@[u])@.len() > 0,
        decreases tracks.len() - t,
    {
        if tracks[t].points.len() == 0 {
            return Err(FramingError::EmptyInput { empty_track: Some(t) });
        }
        t = t + 1;
    }
    let mut lowest: i32 = 0;
    let mut highest: i32 = 0;
    let ghost mut low_at: (int, int) = (0, 0);
    let ghost mut high_at: (int, int) = (0, 0);
    t = 0;
    while t < tracks.len()
        invariant
            t <= tracks.len(),
            no_empty_track(tracks@),
            forall|u: int, j: int| #[trigger]
                lacks_elevation(tracks@, u, j) ==> t <= u,
            forall|u: int, j: int| #[trigger]
                is_sample(tracks@, u, j) && u < t ==> lowest <= elevation_at(tracks@, u, j)
                    <= highest,
            t > 0 ==> is_sample(tracks@, low_at.0, low_at.1) && elevation_at(
                tracks@,
                low_at.0,
                low_at.1,
            ) == lowest,
            t > 0 ==> is_sample(tracks@, high_at.0, high_at.1) && elevation_at(
                tracks@,
                high_at.0,
                high_at.1,
            ) == highest,
        decreases tracks.len() - t,
    {
        let track: &Track = &tracks[t];
        let mut i: usize = 0;
        while i < track.points.len()
            invariant
                t < tracks.len(),
                track == &tracks@[t as int],
                i <= track.points.len(),
                no_empty_track(tracks@),
                forall|u: int, j: int| #[trigger]
                    lacks_elevation(tracks@, u, j) ==> t < u || (t == u && i <= j),
                forall|u: int, j: int| #[trigger]
                    is_sample(tracks@, u, j) && (u < t || (u == t && j < i)) ==> lowest
                        <= elevation_at(tracks@, u, j) <= highest,
                t > 0 || i > 0 ==> is_sample(tracks@, low_at.0, low_at.1) && elevation_at(
                    tracks@,
                    low_at.0,
                    low_at.1,
                ) == lowest,
                t > 0 || i > 0 ==> is_sample(tracks@, high_at.0, high_at.1) && elevation_at(
                    tracks@,
                    high_at.0,
                    high_at.1,
                ) == highest,
            decreases track.points.len() - i,
        {
            match track.points[i].elevation {
                None => {
                    assert(lacks_elevation(tracks@, t as int, i as int));
                    return Err(FramingError::MissingElevation { track: t, point: i });
                },
                Some(e) => {
                    assert(is_sample(tracks@, t as int, i as int));
                    assert(elevation_at(tracks@, t as int, i as int) == e);
                    if (t == 0 && i == 0) || e < lowest {
                        lowest = e;
                        proof {
                            low_at = (t as int, i as int);
                        }
                    }
                    if (t == 0 && i == 0) || e > highest {
                        highest = e;
                        proof {
                            high_at = (t as int, i as int);
                        }
                    }
                },
            }
            i = i + 1;
        }
        t = t + 1;
    }
    proof {
        assert(is_sample(tracks@, low_at.0, low_at.1));
        assert(is_sample(tracks@, high_at.0, high_at.1));
        assert forall|u: int, j: int| !#[trigger] lacks_elevation(tracks@, u, j) by {}
        lemma_elevation_range_unique(tracks@, lowest as int, highest as int);
    }
    Ok((lowest, highest))
}

/// Position of world coordinate `coord` along one scene axis of a grid at
/// `zoom` that starts at tile `tile_min` and is `count` tiles long.
pub fn axis_position(coord: u32, zoom: i32, tile_min: i32, count: i32) -> (at: i64)
    requires
        valid_zoom(zoom as int),
        0 <= tile_min,
        1 <= count,
        tile_min + count <= tiles_across(zoom as int),
    ensures
        at == scene_axis(coord as int, zoom as int, tile_min as int, count as int),
{
    let span: u64 = span_of(zoom);
    let scale: i64 = (SCENE_TILE_SIZE as u64 / span) as i64;
    proof {
        lemma_span_times_count(zoom as int);
        lemma_scene_scale(zoom as int);
        let k: int = scene_scale(zoom as int);
        assert(SCENE_TILE_SIZE as int / span as int == k) by (nonlinear_arith)
            requires
                k * span == SCENE_TILE_SIZE,
                span > 0,
        ;
        assert(0 <= coord * scale <= 0xffff_ffff * 0x8000_0000) by (nonlinear_arith)
            requires
                0 <= coord <= 0xffff_ffff,
                0 <= scale <= 0x8000_0000,
        ;
        assert((coord - tile_min * span) * scale == coord * scale - tile_min * (scale * span))
            by (nonlinear_arith);
    }
    let east: i64 = coord as i64 * scale;
    let halves: i64 = 2 * tile_min as i64 + count as i64;
    east - halves * (SCENE_TILE_SIZE / 2)
}

/// Height in the scene of a sample at `elevation`, the samples ranging from
/// `lowest` to `highest`.
pub fn height_of(elevation: i32, lowest: i32, highest: i32) -> (z: i64)
    requires
        lowest <= elevation <= highest,
    ensures
        z == scene_height(elevation as int, lowest as int, highest as int),
        SCENE_BASE_HEIGHT <= z <= SCENE_BASE_HEIGHT + SCENE_HEIGHT_RANGE,
{
    proof {
        lemma_height_follows_elevation(
            elevation as int,
            elevation as int,
            lowest as int,
            highest as int,
        );
    }
    if lowest < highest {
        let range: u128 = (highest as i64 - lowest as i64) as u128;
        let above: u128 = (elevation as i64 - lowest as i64) as u128;
        assert(above * SCENE_HEIGHT_RANGE <= 0xffff_ffff * SCENE_HEIGHT_RANGE) by (nonlinear_arith)
            requires
                0 <= above <= 0xffff_ffff,
        ;
        let share: u128 = above * (SCENE_HEIGHT_RANGE as u128) / range;
        SCENE_BASE_HEIGHT + share as i64
    } else {
        SCENE_BASE_HEIGHT
    }
}

/// Lays the samples out once their elevation range is known.
pub(crate) fn lay_out(
    map_tiles: &MapTiles,
    tracks: &Vec<Track>,
    lowest: i32,
    highest: i32,
) -> (polylines: Vec<Vec<ScenePoint>>)
    requires
        map_tiles.wf(),
        all_have_elevation(tracks@),
        is_lowest_elevation(tracks@, lowest as int),
        is_highest_elevation(tracks@, highest as int),
    ensures
        polylines.len() == tracks.len(),
        forall|t: int|
            0 <= t < tracks.len() ==> (#[trigger] polylines[t]).len() == tracks[t]@.len(),
        forall|t: int, i: int| #[trigger]
            is_sample(tracks@, t, i) ==> polylines[t][i] == scene_of(*map_tiles, tracks@)[t][i],
{
    proof {
        lemma_elevation_range_unique(tracks@, lowest as int, highest as int);
    }
    let nx: i32 = map_tiles.get_nx();
    let ny: i32 = map_tiles.get_ny();
    let mut polylines: Vec<Vec<ScenePoint>> = Vec::new();
    let mut t: usize = 0;
    while t < tracks.len()
        invariant
            t <= tracks.len(),
            map_tiles.wf(),
            nx == map_tiles.nx(),
            ny == map_tiles.ny(),
            all_have_elevation(tracks@),
            is_lowest_elevation(tracks@, lowest as int),
            is_highest_elevation(tracks@, highest as int),
            lowest_elevation(tracks@) == lowest,
            highest_elevation(tracks@) == highest,
            polylines.len() == t,
            forall|u: int| 0 <= u < t ==> (#[trigger] polylines[u]).len() == tracks[u]@.len(),
            forall|u: int, j: int| #[trigger]
                is_sample(tracks@, u, j) && u < t ==> polylines[u][j] == scene_of(
                    *map_tiles,
                    tracks@,
                )[u][j],
        decreases tracks.len() - t,
    {
        let track: &Track = &tracks[t];
        let mut vertices: Vec<ScenePoint> = Vec::new();
        let mut i: usize = 0;
        while i < track.points.len()
            invariant
                t < tracks.len(),
                track == &tracks@[t as int],
                i <= track.points.len(),
                map_tiles.wf(),
                nx == map_tiles.nx(),
                ny == map_tiles.ny(),
                all_have_elevation(tracks@),
                is_lowest_elevation(tracks@, lowest as int),
                is_highest_elevation(tracks@, highest as int),
                lowest_elevation(tracks@) == lowest,
                highest_elevation(tracks@) == highest,
                vertices.len() == i,
                forall|j: int|
                    0 <= j < i ==> #[trigger] vertices[j] == scene_of(*map_tiles, tracks@)[t as int][j],
            decreases track.points.len() - i,
        {
            let point: GeoPoint = track.points[i];
            assert(is_sample(tracks@, t as int, i as int));
            assert(!lacks_elevation(tracks@, t as int, i as int));
            let elevation: i32 = match point.elevation {
                Some(e) => e,
                None => lowest,
            };
            assert(elevation == elevation_at(tracks@, t as int, i as int));
            let x: i64 = axis_position(point.position.x, map_tiles.zoom, map_tiles.x_tile_min, nx);
            let y: i64 = axis_position(point.position.y, map_tiles.zoom, map_tiles.y_tile_min, ny);
            let z: i64 = height_of(elevation, lowest, highest);
            vertices.push(ScenePoint { x, y, z });
            i = i + 1;
        }
        polylines.push(vertices);
        t = t + 1;
    }
    polylines
}

/// Places every sample of every track in the scene laid out on `map_tiles`:
/// one polyline per track, in the order of the tracks, one scene point per
/// sample, in the order of the samples. Positions are exact; heights are
/// rounded down to a scene step, which keeps samples of different elevation
/// at different heights.
///
/// Fails with `EmptyInput` when there is no track or a track has no sample,
/// naming the first such track, and otherwise with `MissingElevation`,
/// naming the first such sample, when a sample carries no elevation. An
/// empty track is reported before a missing elevation, wherever the two
/// stand.
pub fn get_polylines(map_tiles: &MapTiles, tracks: &Vec<Track>) -> (r: Result<
    Vec<Vec<ScenePoint>>,
    FramingError,
>)
    requires
        map_tiles.wf(),
    ensures
        match r {
            Ok(polylines) => {
                &&& no_empty_track(tracks@)
                &&& all_have_elevation(tracks@)
                &&& is_lowest_elevation(tracks@, lowest_elevation(tracks@))
                &&& is_highest_elevation(tracks@, highest_elevation(tracks@))
                &&& polylines.len() == tracks.len()
                &&& forall|t: int|
                    0 <= t < tracks.len() ==> (#[trigger] polylines[t]).len() == tracks[t]@.len()
                &&& forall|t: int, i: int| #[trigger]
                    is_sample(tracks@, t, i) ==> {
                        &&& polylines[t][i] == scene_of(*map_tiles, tracks@)[t][i]
                        &&& SCENE_BASE_HEIGHT <= polylines[t][i].z <= SCENE_BASE_HEIGHT
                            + SCENE_HEIGHT_RANGE
                    }
                &&& forall|t: int, i: int, u: int, j: int|
                    #![trigger is_sample(tracks@, t, i), is_sample(tracks@, u, j)]
                    is_sample(tracks@, t, i) && is_sample(tracks@, u, j) && elevation_at(
                        tracks@,
                        t,
                        i,
                    ) < elevation_at(tracks@, u, j) ==> polylines[t][i].z < polylines[u][j].z
            },
            Err(FramingError::EmptyInput { empty_track: None }) => tracks.len() == 0,
            Err(FramingError::EmptyInput { empty_track: Some(t) }) => first_empty_track(
                tracks@,
                t as int,
            ),
            Err(FramingError::MissingElevation { track, point }) => {
                &&& no_empty_track(tracks@)
                &&& first_lacking_elevation(tracks@, track as int, point as int)
            },
        },
{
    let (lowest, highest): (i32, i32) = match elevation_range(tracks) {
        Ok(range) => range,
        Err(e) => {
            return Err(e);
        },
    };
    let polylines: Vec<Vec<ScenePoint>> = lay_out(map_tiles, tracks, lowest, highest);
    proof {
        lemma_scene_heights(*map_tiles, tracks@);
    }
    Ok(polylines)
}

/// Centre of the basemap quad of the tile in column `i` and row `j` of the
/// grid, columns counted eastward and rows southward from 0. It is laid out
/// with the same tile size and about the same origin as the tracks.
pub fn quad_center(map_tiles: &MapTiles, i: i32, j: i32) -> (c: (i64, i64))
    requires
        map_tiles.wf(),
        0 <= i < map_tiles.nx(),
        0 <= j < map_tiles.ny(),
    ensures
        c.0 == quad_center_axis(i as int, map_tiles.nx()),
        c.1 == quad_center_axis(j as int, map_tiles.ny()),
{
    let nx: i64 = map_tiles.get_nx() as i64;
    let ny: i64 = map_tiles.get_ny() as i64;
    proof {
        lemma_span_times_count(map_tiles.zoom as int);
    }
    let half: i64 = SCENE_TILE_SIZE / 2;
    ((2 * i as i64 + 1 - nx) * half, (2 * j as i64 + 1 - ny) * half)
}

} // verus!
