use gpx_heatmap::error::FramingError;
use gpx_heatmap::frame::frame_tracks;
use gpx_heatmap::mercator::{WorldPoint, WORLD_BITS};
use gpx_heatmap::requests::{tile_file, tile_ids, tile_url};
use gpx_heatmap::tiles::{MapTiles, HEATMAP_MAX_SIZE, OSM_MAX_ZOOM, OSM_TILE_SIZE};
use gpx_heatmap::track::{GeoPoint, Track};

const HIKE: &str = r#"<?xml version="1.0" encoding="UTF-8"?>
<gpx version="1.1" creator="test" xmlns="http://www.topografix.com/GPX/1/1">
  <trk>
    <name>hike</name>
    <trkseg>
      <trkpt lat="47.0" lon="8.0"><ele>400.0</ele></trkpt>
      <trkpt lat="47.005" lon="8.01"><ele>425.0</ele></trkpt>
      <trkpt lat="47.01" lon="8.02"><ele>450.0</ele></trkpt>
    </trkseg>
  </trk>
</gpx>
"#;

const STROLL: &str = r#"<?xml version="1.0" encoding="UTF-8"?>
<gpx version="1.1" creator="test" xmlns="http://www.topografix.com/GPX/1/1">
  <trk>
    <trkseg>
      <trkpt lat="47.002" lon="8.015"><ele>410.0</ele></trkpt>
      <trkpt lat="47.004" lon="8.005"></trkpt>
    </trkseg>
  </trk>
</gpx>
"#;

fn to_world(lat_deg: f64, lon_deg: f64) -> WorldPoint {
    let n = 2.0f64.powi(WORLD_BITS);
    let x = (lon_deg + 180.0) / 360.0 * n;
    let y = (1.0 - lat_deg.to_radians().tan().asinh() / std::f64::consts::PI) / 2.0 * n;
    WorldPoint { x: x as u32, y: y as u32 }
}

fn to_track(document: &str) -> Track {
    let parsed = gpx::read(document.as_bytes()).unwrap();
    let points = parsed.tracks[0].segments[0]
        .points
        .iter()
        .map(|pt| GeoPoint {
            position: to_world(pt.point().y(), pt.point().x()),
            elevation: pt.elevation.map(|e| (e * 1000.0).round() as i32),
        })
        .collect();
    Track { points }
}

#[test]
fn parsed_track_is_framed() {
    let tracks = vec![to_track(HIKE)];
    assert_eq!(tracks[0].points.len(), 3);
    let frame = frame_tracks(&tracks, HEATMAP_MAX_SIZE, OSM_TILE_SIZE, OSM_MAX_ZOOM).unwrap();
    assert_eq!(
        frame.tiles,
        MapTiles { zoom: 17, x_tile_min: 68448, y_tile_max: 46101, x_tile_max: 68455, y_tile_min: 46096 }
    );
    assert_eq!(frame.polylines.len(), 1);
    assert_eq!(frame.polylines[0].len(), 3);
    assert_eq!(frame.polylines[0][0].z, 335544320);
    assert_eq!(frame.polylines[0][1].z, 3690987520);
    assert_eq!(frame.polylines[0][2].z, 7046430720);

    let ids = tile_ids(&frame.tiles);
    assert_eq!(ids.len(), 48);
    assert_eq!(
        tile_url("https://maps.wikimedia.org/osm-intl", ids[0]),
        "https://maps.wikimedia.org/osm-intl/17/68448/46096.png"
    );
    assert_eq!(tile_file(ids[47]), "tile_17_68455_46101.png");
}

#[test]
fn parsed_track_without_elevation_is_rejected() {
    let tracks = vec![to_track(HIKE), to_track(STROLL)];
    assert_eq!(
        frame_tracks(&tracks, HEATMAP_MAX_SIZE, OSM_TILE_SIZE, OSM_MAX_ZOOM).err(),
        Some(FramingError::MissingElevation { track: 1, point: 1 })
    );
}
