use crate::error::FramingError;
use crate::mercator::WorldPoint;
use vstd::prelude::*;

verus! {

/// An axis-aligned rectangle on the Mercator square, edges included. World
/// `y` grows southward, so the northern edge carries the smaller `y`.
#[derive(Clone, Copy, Debug, PartialEq, Eq, Structural)]
pub struct Bounding {
    pub west: u32,
    pub east: u32,
    pub north: u32,
    pub south: u32,
}

impl Bounding {
    /// The edges are in order: west is not east of east, north not south of
    /// south.
    pub open spec fn wf(&self) -> bool {
        self.west <= self.east && self.north <= self.south
    }

    /// The rectangle holds `p`, edges included.
    pub open spec fn contains(&self, p: WorldPoint) -> bool {
        self.west <= p.x <= self.east && self.north <= p.y <= self.south
    }
}

/// `b` is the smallest rectangle that holds every point of `points`: it
/// holds them all, and each of its four edges passes through one of them.
pub open spec fn is_bounding_of(b: Bounding, points: Seq<WorldPoint>) -> bool {
    &&& forall|i: int| 0 <= i < points.len() ==> b.contains(#[trigger] points[i])
    &&& exists|i: int| 0 <= i < points.len() && (#[trigger] points[i]).x == b.west
    &&& exists|i: int| 0 <= i < points.len() && (#[trigger] points[i]).x == b.east
    &&& exists|i: int| 0 <= i < points.len() && (#[trigger] points[i]).y == b.north
    &&& exists|i: int| 0 <= i < points.len() && (#[trigger] points[i]).y == b.south
}

/// The smallest rectangle that holds every point of `points`, or
/// `EmptyInput` when there is no point.
pub fn get_bounding(points: &Vec<WorldPoint>) -> (r: Result<Bounding, FramingError>)
    ensures
        points.len() == 0 <==> r is Err,
        r is Err ==> r == Err::<Bounding, FramingError>(
            FramingError::EmptyInput { empty_track: None },
        ),
        r matches Ok(b) ==> b.wf() && is_bounding_of(b, points@),
{
    if points.len() == 0 {
        return Err(FramingError::EmptyInput { empty_track: None });
    }
    let first: WorldPoint = points[0];
    let mut b: Bounding = Bounding {
        west: first.x,
        east: first.x,
        north: first.y,
        south: first.y,
    };
    let mut i: usize = 1;
    assert(points@.take(1)[0] == first);
    while i < points.len()
        invariant
            1 <= i <= points.len(),
            b.wf(),
            is_bounding_of(b, points@.take(i as int)),
        decreases points.len() - i,
    {
        let p: WorldPoint = points[i];
        let ghost seen: Seq<WorldPoint> = points@.take(i as int);
        let ghost next: Seq<WorldPoint> = points@.take(i + 1);
        let ghost was: Bounding = b;
        proof {
            let w = choose|k: int| 0 <= k < seen.len() && (#[trigger] seen[k]).x == was.west;
            let e = choose|k: int| 0 <= k < seen.len() && (#[trigger] seen[k]).x == was.east;
            let n = choose|k: int| 0 <= k < seen.len() && (#[trigger] seen[k]).y == was.north;
            let s = choose|k: int| 0 <= k < seen.len() && (#[trigger] seen[k]).y == was.south;
            assert(next[w] == seen[w] && next[e] == seen[e] && next[n] == seen[n] && next[s]
                == seen[s]);
            assert(next[i as int] == p);
            assert(forall|k: int| 0 <= k < seen.len() ==> next[k] == seen[k]);
        }
        if p.x < b.west {
            b.west = p.x;
        }
        if p.x > b.east {
            b.east = p.x;
        }
        if p.y < b.north {
            b.north = p.y;
        }
        if p.y > b.south {
            b.south = p.y;
        }
        i = i + 1;
    }
    assert(points@.take(i as int) =~= points@);
    Ok(b)
}

/// A set of points has one bounding rectangle and no other.
pub proof fn lemma_bounding_unique(a: Bounding, b: Bounding, points: Seq<WorldPoint>)
    requires
        is_bounding_of(a, points),
        is_bounding_of(b, points),
    ensures
        a == b,
{
}

/// The bounding rectangle of a single point is that point: all four edges
/// pass through it.
pub proof fn lemma_bounding_of_single_point(b: Bounding, p: WorldPoint)
    requires
        is_bounding_of(b, seq![p]),
    ensures
        b.west == p.x,
        b.east == p.x,
        b.north == p.y,
        b.south == p.y,
{
}

/// The bounding rectangle does not depend on the order of the points, nor on
/// how often one occurs: two sequences that hold the same points have the
/// same bounding rectangle.
pub proof fn lemma_bounding_ignores_order(
    b: Bounding,
    points: Seq<WorldPoint>,
    others: Seq<WorldPoint>,
)
    requires
        is_bounding_of(b, points),
        forall|i: int| 0 <= i < points.len() ==> others.contains(#[trigger] points[i]),
        forall|i: int| 0 <= i < others.len() ==> points.contains(#[trigger] others[i]),
    ensures
        is_bounding_of(b, others),
{
    let w = choose|k: int| 0 <= k < points.len() && (#[trigger] points[k]).x == b.west;
    let e = choose|k: int| 0 <= k < points.len() && (#[trigger] points[k]).x == b.east;
    let n = choose|k: int| 0 <= k < points.len() && (#[trigger] points[k]).y == b.north;
    let s = choose|k: int| 0 <= k < points.len() && (#[trigger] points[k]).y == b.south;
    assert(others.contains(points[w]));
    assert(others.contains(points[e]));
    assert(others.contains(points[n]));
    assert(others.contains(points[s]));
    assert forall|i: int| 0 <= i < others.len() implies b.contains(#[trigger] others[i]) by {
        assert(points.contains(others[i]));
    }
}

} // verus!
