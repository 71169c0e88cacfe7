use gpx_heatmap::error::FramingError;
use gpx_heatmap::mercator::{project, WorldPoint};
use gpx_heatmap::scene::{
    axis_position, elevation_range, get_polylines, height_of, quad_center, ScenePoint,
    SCENE_BASE_HEIGHT, SCENE_HEIGHT_RANGE, SCENE_TILE_SIZE, SCENE_UNIT,
};
use gpx_heatmap::tiles::MapTiles;
use gpx_heatmap::track::{positions, GeoPoint, Track};

fn sample(x: u32, y: u32, elevation: i32) -> GeoPoint {
    GeoPoint { position: WorldPoint { x, y }, elevation: Some(elevation) }
}

fn hike() -> Vec<Track> {
    vec![
        Track {
            points: vec![
                sample(2242927365, 1510652626, 400),
                sample(2243046670, 1510565155, 425),
                sample(2243165974, 1510477676, 450),
            ],
        },
        Track { points: vec![sample(2243106322, 1510617639, 410)] },
    ]
}

fn grid17() -> MapTiles {
    MapTiles { zoom: 17, x_tile_min: 68448, y_tile_max: 46101, x_tile_max: 68455, y_tile_min: 46096 }
}

fn grid19() -> MapTiles {
    MapTiles {
        zoom: 19,
        x_tile_min: 273794,
        y_tile_max: 184405,
        x_tile_max: 273823,
        y_tile_min: 184384,
    }
}

#[test]
fn positions_flatten_the_tracks_in_order() {
    let all = positions(&hike());
    assert_eq!(
        all,
        vec![
            WorldPoint { x: 2242927365, y: 1510652626 },
            WorldPoint { x: 2243046670, y: 1510565155 },
            WorldPoint { x: 2243165974, y: 1510477676 },
            WorldPoint { x: 2243106322, y: 1510617639 },
        ]
    );
    assert_eq!(positions(&Vec::new()), Vec::<WorldPoint>::new());
    let hollow = vec![Track { points: Vec::new() }, Track { points: vec![sample(1, 2, 3)] }];
    assert_eq!(positions(&hollow), vec![WorldPoint { x: 1, y: 2 }]);
}

#[test]
fn scene_lengths_are_parts_of_the_scene_unit() {
    assert_eq!(SCENE_TILE_SIZE, 1i64 << 33);
    assert_eq!(SCENE_UNIT * 256, SCENE_TILE_SIZE * 100);
    assert_eq!(SCENE_BASE_HEIGHT * 10, SCENE_UNIT);
    assert_eq!(SCENE_HEIGHT_RANGE, 2 * SCENE_UNIT);
    assert!(SCENE_HEIGHT_RANGE > u32::MAX as i64);
}

#[test]
fn height_is_the_share_of_the_range() {
    assert_eq!(height_of(400, 400, 450), 335544320);
    assert_eq!(height_of(450, 400, 450), 7046430720);
    assert_eq!(height_of(425, 400, 450), 3690987520);
    assert_eq!(height_of(401, 400, 450), 469762048);
    assert_eq!(height_of(449, 400, 450), 6912212992);
    assert_eq!(height_of(410, 400, 450), 1677721600);
    assert_eq!(height_of(-5, -10, 10), 2013265920);
    assert_eq!(height_of(0, i32::MIN, i32::MAX), 3690987520);
    assert_eq!(height_of(i32::MAX, i32::MIN, i32::MAX), 7046430720);
    assert_eq!(height_of(400, 400, 450), SCENE_BASE_HEIGHT);
    assert_eq!(height_of(450, 400, 450), SCENE_BASE_HEIGHT + SCENE_HEIGHT_RANGE);
}

#[test]
fn height_without_a_range_is_the_base_height() {
    assert_eq!(height_of(7, 7, 7), SCENE_BASE_HEIGHT);
    assert_eq!(height_of(i32::MIN, i32::MIN, i32::MIN), SCENE_BASE_HEIGHT);
    assert_eq!(height_of(i32::MAX, i32::MAX, i32::MAX), SCENE_BASE_HEIGHT);
}

#[test]
fn nearby_elevations_get_different_heights() {
    assert_eq!(height_of(40000, 40000, 45000), 335544320);
    assert_eq!(height_of(40001, 40000, 45000), 336886497);
    assert_eq!(height_of(40020, 40000, 45000), 362387865);
    let mut last = height_of(40000, 40000, 45000);
    for e in 40001..=40100 {
        let z = height_of(e, 40000, 45000);
        assert!(last < z);
        last = z;
    }
}

#[test]
fn widest_range_still_keeps_elevations_apart() {
    assert_eq!(height_of(i32::MIN, i32::MIN, i32::MAX), 335544320);
    assert_eq!(height_of(i32::MIN + 1, i32::MIN, i32::MAX), 335544321);
    let middle = [-3, -2, -1, 0, 1, 2, 3];
    for pair in middle.windows(2) {
        assert!(height_of(pair[0], i32::MIN, i32::MAX) < height_of(pair[1], i32::MIN, i32::MAX));
    }
    assert!(
        height_of(i32::MAX - 1, i32::MIN, i32::MAX) < height_of(i32::MAX, i32::MIN, i32::MAX)
    );
}

#[test]
fn nearby_samples_stand_at_different_heights() {
    let tracks = vec![
        Track { points: vec![sample(10, 10, 40000), sample(20, 20, 40020)] },
        Track { points: vec![sample(30, 30, 45000), sample(40, 40, 40001)] },
    ];
    let grid = MapTiles { zoom: 0, x_tile_min: 0, y_tile_max: 0, x_tile_max: 0, y_tile_min: 0 };
    let lines = get_polylines(&grid, &tracks).unwrap();
    assert_eq!(lines[0][0].z, 335544320);
    assert_eq!(lines[0][1].z, 362387865);
    assert_eq!(lines[1][0].z, 7046430720);
    assert_eq!(lines[1][1].z, 336886497);
    assert!(lines[0][0].z < lines[1][1].z);
    assert!(lines[1][1].z < lines[0][1].z);
    assert!(lines[0][1].z < lines[1][0].z);
}

#[test]
fn axis_position_is_centred_on_the_grid() {
    assert_eq!(axis_position(0, 0, 0, 1), -4294967296);
    assert_eq!(axis_position(0x8000_0000, 0, 0, 1), 0);
    assert_eq!(axis_position(u32::MAX, 0, 0, 1), 4294967294);
    assert_eq!(axis_position(2242927365, 17, 68448, 8), -28251521024);
    assert_eq!(axis_position(1510652626, 17, 46096, 6), 21127233536);
}

#[test]
fn axis_position_keeps_every_world_unit_apart() {
    for zoom in [0, 9, 17, 30] {
        let step = 2i64 << zoom;
        let here = axis_position(2242927365, zoom, 0, 1);
        assert_eq!(axis_position(2242927366, zoom, 0, 1) - here, step);
        assert_eq!(here - axis_position(2242927364, zoom, 0, 1), step);
    }
}

#[test]
fn axis_position_outside_the_grid_is_outside_the_footprint() {
    assert_eq!(axis_position(0, 1, 1, 1), -12884901888);
    assert_eq!(axis_position(u32::MAX, 1, 0, 1), 12884901884);
}

#[test]
fn axis_position_at_the_deepest_zoom() {
    assert_eq!(axis_position(u32::MAX, 30, 0, 1), 9223372030412324864);
    assert_eq!(axis_position(0, 30, 0x3fff_ffff, 1), -9223372032559808512);
    assert_eq!(axis_position(u32::MAX, 30, 0x3fff_ffff, 1), 2147483648);
    assert_eq!(axis_position(0, 30, 0, 0x4000_0000), -4611686018427387904);
}

#[test]
fn elevation_range_spans_all_tracks() {
    assert_eq!(elevation_range(&hike()), Ok((400, 450)));
    let flat = vec![Track { points: vec![sample(0, 0, -3), sample(9, 9, -3)] }];
    assert_eq!(elevation_range(&flat), Ok((-3, -3)));
    let split = vec![
        Track { points: vec![sample(0, 0, 5)] },
        Track { points: vec![sample(0, 0, -7), sample(0, 0, 6)] },
    ];
    assert_eq!(elevation_range(&split), Ok((-7, 6)));
}

#[test]
fn empty_input_is_rejected() {
    let nothing = FramingError::EmptyInput { empty_track: None };
    assert_eq!(elevation_range(&Vec::new()), Err(nothing));
    assert_eq!(get_polylines(&grid17(), &Vec::new()), Err(nothing));
    let hollow = vec![
        Track { points: vec![sample(1, 2, 3)] },
        Track { points: Vec::new() },
        Track { points: Vec::new() },
    ];
    let second = FramingError::EmptyInput { empty_track: Some(1) };
    assert_eq!(elevation_range(&hollow), Err(second));
    assert_eq!(get_polylines(&grid17(), &hollow), Err(second));
    let only = vec![Track { points: Vec::new() }];
    assert_eq!(
        get_polylines(&grid17(), &only),
        Err(FramingError::EmptyInput { empty_track: Some(0) })
    );
}

#[test]
fn missing_elevation_names_the_first_sample() {
    let mut tracks = hike();
    tracks[1].points[0].elevation = None;
    assert_eq!(
        get_polylines(&grid17(), &tracks),
        Err(FramingError::MissingElevation { track: 1, point: 0 })
    );
    tracks[0].points[2].elevation = None;
    tracks[0].points[1].elevation = None;
    assert_eq!(
        elevation_range(&tracks),
        Err(FramingError::MissingElevation { track: 0, point: 1 })
    );
    assert_eq!(
        get_polylines(&grid17(), &tracks),
        Err(FramingError::MissingElevation { track: 0, point: 1 })
    );
}

#[test]
fn empty_track_is_reported_before_missing_elevation() {
    let tracks = vec![
        Track { points: vec![GeoPoint { position: WorldPoint { x: 1, y: 1 }, elevation: None }] },
        Track { points: Vec::new() },
    ];
    assert_eq!(
        get_polylines(&grid17(), &tracks),
        Err(FramingError::EmptyInput { empty_track: Some(1) })
    );
}

#[test]
fn polylines_match_tracks_point_for_point() {
    let tracks = hike();
    let lines = get_polylines(&grid17(), &tracks).unwrap();
    assert_eq!(lines.len(), tracks.len());
    for (line, track) in lines.iter().zip(tracks.iter()) {
        assert_eq!(line.len(), track.points.len());
    }
    assert_eq!(
        lines,
        vec![
            vec![
                ScenePoint { x: -28251521024, y: 21127233536, z: 335544320 },
                ScenePoint { x: 3023568896, y: -1802764288, z: 3690987520 },
                ScenePoint { x: 34298396672, y: -24734859264, z: 7046430720 },
            ],
            vec![ScenePoint { x: 18660982784, y: 11955601408, z: 1677721600 }],
        ]
    );
}

#[test]
fn polylines_follow_the_zoom_of_the_grid() {
    let lines = get_polylines(&grid19(), &hike()).unwrap();
    assert_eq!(
        lines,
        vec![
            vec![
                ScenePoint { x: -121596018688, y: 93098868736, z: 335544320 },
                ScenePoint { x: 3504340992, y: 1378877440, z: 3690987520 },
                ScenePoint { x: 128603652096, y: -90349502464, z: 7046430720 },
            ],
            vec![ScenePoint { x: 66053996544, y: 56412340224, z: 1677721600 }],
        ]
    );
}

#[test]
fn equal_elevations_give_equal_heights() {
    let tracks = vec![
        Track { points: vec![sample(10, 10, 300), sample(20, 20, 300), sample(30, 30, 300)] },
        Track { points: vec![sample(40, 40, 100), sample(50, 50, 300), sample(60, 60, 500)] },
    ];
    let grid = MapTiles { zoom: 0, x_tile_min: 0, y_tile_max: 0, x_tile_max: 0, y_tile_min: 0 };
    let lines = get_polylines(&grid, &tracks).unwrap();
    for p in lines[0].iter() {
        assert_eq!(p.z, 3690987520);
    }
    assert_eq!(lines[1][0].z, 335544320);
    assert_eq!(lines[1][1].z, 3690987520);
    assert_eq!(lines[1][2].z, 7046430720);
}

#[test]
fn one_shared_elevation_gives_the_base_height() {
    let tracks = vec![
        Track { points: vec![sample(10, 10, 300), sample(20, 20, 300)] },
        Track { points: vec![sample(40, 40, 300)] },
    ];
    let grid = MapTiles { zoom: 0, x_tile_min: 0, y_tile_max: 0, x_tile_max: 0, y_tile_min: 0 };
    let lines = get_polylines(&grid, &tracks).unwrap();
    for line in lines.iter() {
        for p in line.iter() {
            assert_eq!(p.z, SCENE_BASE_HEIGHT);
        }
    }
}

#[test]
fn quad_centres_are_one_tile_apart() {
    let grid = grid17();
    assert_eq!(quad_center(&grid, 0, 0), (-30064771072, -21474836480));
    assert_eq!(quad_center(&grid, 0, 5), (-30064771072, 21474836480));
    assert_eq!(quad_center(&grid, 7, 0), (30064771072, -21474836480));
    assert_eq!(quad_center(&grid, 4, 2), (4294967296, -4294967296));
    for i in 1..8 {
        assert_eq!(quad_center(&grid, i, 0).0 - quad_center(&grid, i - 1, 0).0, SCENE_TILE_SIZE);
    }
    let single = MapTiles { zoom: 0, x_tile_min: 0, y_tile_max: 0, x_tile_max: 0, y_tile_min: 0 };
    assert_eq!(quad_center(&single, 0, 0), (0, 0));
}

#[test]
fn samples_are_drawn_on_their_own_tile() {
    for grid in [grid17(), grid19()] {
        let tracks = hike();
        let lines = get_polylines(&grid, &tracks).unwrap();
        for (line, track) in lines.iter().zip(tracks.iter()) {
            for (p, s) in line.iter().zip(track.points.iter()) {
                let c = project(s.position, grid.zoom);
                let (cx, cy) =
                    quad_center(&grid, c.x_tile - grid.x_tile_min, c.y_tile - grid.y_tile_min);
                assert!(cx - SCENE_TILE_SIZE / 2 <= p.x && p.x < cx + SCENE_TILE_SIZE / 2);
                assert!(cy - SCENE_TILE_SIZE / 2 <= p.y && p.y < cy + SCENE_TILE_SIZE / 2);
            }
        }
    }
}

#[test]
fn track_within_one_tile_stays_on_that_quad() {
    let span: u32 = 8192;
    let grid = MapTiles { zoom: 19, x_tile_min: 4, y_tile_max: 10, x_tile_max: 6, y_tile_min: 8 };
    let track = Track {
        points: vec![
            sample(5 * span, 9 * span, 1),
            sample(5 * span + 8191, 9 * span + 8191, 2),
            sample(5 * span + 4096, 9 * span + 4096, 3),
            sample(5 * span + 32, 9 * span + 8000, 4),
        ],
    };
    let lines = get_polylines(&grid, &vec![track]).unwrap();
    assert_eq!(quad_center(&grid, 1, 1), (0, 0));
    assert_eq!(lines[0][0], ScenePoint { x: -4294967296, y: -4294967296, z: 335544320 });
    assert_eq!(lines[0][1], ScenePoint { x: 4293918720, y: 4293918720, z: 2572506453 });
    assert_eq!(lines[0][2], ScenePoint { x: 0, y: 0, z: 4809468586 });
    assert_eq!(lines[0][3], ScenePoint { x: -4261412864, y: 4093640704, z: 7046430720 });
    let half = SCENE_TILE_SIZE / 2;
    for p in lines[0].iter() {
        assert!(-half <= p.x && p.x < half);
        assert!(-half <= p.y && p.y < half);
    }
}
