use gpx_heatmap::bounds::{get_bounding, Bounding};
use gpx_heatmap::error::FramingError;
use gpx_heatmap::mercator::WorldPoint;

#[test]
fn bounding_of_a_single_point_is_the_point() {
    let p = WorldPoint { x: 2242927365, y: 1510652626 };
    let b = get_bounding(&vec![p]).unwrap();
    assert_eq!(b, Bounding { west: p.x, east: p.x, north: p.y, south: p.y });
}

#[test]
fn bounding_of_nothing_is_empty_input() {
    assert_eq!(
        get_bounding(&Vec::new()),
        Err(FramingError::EmptyInput { empty_track: None })
    );
}

#[test]
fn bounding_takes_each_edge_from_some_point() {
    let points = vec![
        WorldPoint { x: 50, y: 7 },
        WorldPoint { x: 10, y: 30 },
        WorldPoint { x: 90, y: 20 },
        WorldPoint { x: 40, y: 3 },
        WorldPoint { x: 40, y: 30 },
    ];
    let b = get_bounding(&points).unwrap();
    assert_eq!(b, Bounding { west: 10, east: 90, north: 3, south: 30 });
}

#[test]
fn bounding_reaches_the_edges_of_the_map() {
    let points = vec![
        WorldPoint { x: u32::MAX, y: 0 },
        WorldPoint { x: 0, y: u32::MAX },
    ];
    let b = get_bounding(&points).unwrap();
    assert_eq!(b, Bounding { west: 0, east: u32::MAX, north: 0, south: u32::MAX });
}

#[test]
fn bounding_ignores_order_and_repeats() {
    let points = vec![
        WorldPoint { x: 5, y: 9 },
        WorldPoint { x: 1, y: 4 },
        WorldPoint { x: 8, y: 6 },
    ];
    let expected = Bounding { west: 1, east: 8, north: 4, south: 9 };
    let orders: [[usize; 3]; 6] =
        [[0, 1, 2], [0, 2, 1], [1, 0, 2], [1, 2, 0], [2, 0, 1], [2, 1, 0]];
    for order in orders {
        let shuffled: Vec<WorldPoint> = order.iter().map(|&k| points[k]).collect();
        assert_eq!(get_bounding(&shuffled), Ok(expected));
    }
    let mut repeated = points.clone();
    repeated.push(points[1]);
    repeated.push(points[0]);
    assert_eq!(get_bounding(&repeated), Ok(expected));
}
