use crate::mercator::WorldPoint;
use vstd::prelude::*;

verus! {

/// One recorded sample: where it lies on the Mercator square and, where the
/// recording has it, how high. The elevation is an integer count of whatever
/// unit the caller measures heights in; only differences and ratios of
/// elevations are ever used.
#[derive(Clone, Copy, Debug)]
pub struct GeoPoint {
    pub position: WorldPoint,
    pub elevation: Option<i32>,
}

/// One recorded activity: its samples in the order they were taken.
#[derive(Debug)]
pub struct Track {
    pub points: Vec<GeoPoint>,
}

impl View for Track {
    type V = Seq<GeoPoint>;

    open spec fn view(&self) -> Seq<GeoPoint> {
        self.points@
    }
}

/// The positions of one track's samples, in order.
pub open spec fn positions_of(track: Track) -> Seq<WorldPoint> {
    track@.map_values(|p: GeoPoint| p.position)
}

/// The positions of all samples of all tracks: track after track, each in
/// its own order.
pub open spec fn all_positions(tracks: Seq<Track>) -> Seq<WorldPoint> {
    tracks.map_values(|t: Track| positions_of(t)).flatten()
}

/// `(t, i)` names a sample: sample `i` of track `t`.
pub open spec fn is_sample(tracks: Seq<Track>, t: int, i: int) -> bool {
    0 <= t < tracks.len() && 0 <= i < tracks[t]@.len()
}

/// Adding one track at the end adds its positions at the end.
proof fn lemma_positions_of_prefix(tracks: Seq<Track>, n: int)
    requires
        0 < n <= tracks.len(),
    ensures
        all_positions(tracks.take(n)) == all_positions(tracks.take(n - 1)) + positions_of(
            tracks[n - 1],
        ),
{
    let f = |t: Track| positions_of(t);
    let done: Seq<Track> = tracks.take(n - 1);
    assert(tracks.take(n).map_values(f) =~= done.map_values(f).push(f(tracks[n - 1])));
    done.map_values(f).lemma_flatten_push(f(tracks[n - 1]));
}

/// The position of a sample of one of the first `n` tracks is among the
/// positions of those tracks.
proof fn lemma_prefix_holds_sample(tracks: Seq<Track>, t: int, i: int, n: int)
    requires
        is_sample(tracks, t, i),
        t < n <= tracks.len(),
    ensures
        all_positions(tracks.take(n)).contains(tracks[t]@[i].position),
    decreases n,
{
    lemma_positions_of_prefix(tracks, n);
    let before: Seq<WorldPoint> = all_positions(tracks.take(n - 1));
    let all: Seq<WorldPoint> = all_positions(tracks.take(n));
    if n == t + 1 {
        assert(all[before.len() + i] == positions_of(tracks[t])[i]);
    } else {
        lemma_prefix_holds_sample(tracks, t, i, n - 1);
        let k = choose|k: int| 0 <= k < before.len() && before[k] == tracks[t]@[i].position;
        assert(all[k] == before[k]);
    }
}

/// The positions of the tracks hold the position of every sample.
pub proof fn lemma_positions_hold_every_sample(tracks: Seq<Track>, t: int, i: int)
    requires
        is_sample(tracks, t, i),
    ensures
        all_positions(tracks).contains(tracks[t]@[i].position),
{
    lemma_prefix_holds_sample(tracks, t, i, tracks.len() as int);
    assert(tracks.take(tracks.len() as int) =~= tracks);
}

/// Collects the positions of all samples of all tracks into one sequence.
pub fn positions(tracks: &Vec<Track>) -> (out: Vec<WorldPoint>)
    ensures
        out@ == all_positions(tracks@),
{
    let mut out: Vec<WorldPoint> = Vec::new();
    let mut t: usize = 0;
    while t < tracks.len()
        invariant
            t <= tracks.len(),
            out@ == all_positions(tracks@.take(t as int)),
        decreases tracks.len() - t,
    {
        let track: &Track = &tracks[t];
        let ghost before: Seq<WorldPoint> = out@;
        let mut i: usize = 0;
        while i < track.points.len()
            invariant
                i <= track.points.len(),
                out@ == before + positions_of(*track).take(i as int),
            decreases track.points.len() - i,
        {
            out.push(track.points[i].position);
            i = i + 1;
        }
        proof {
            assert(positions_of(*track).take(i as int) =~= positions_of(*track));
            lemma_positions_of_prefix(tracks@, t + 1);
        }
        t = t + 1;
    }
    assert(tracks@.take(t as int) =~= tracks@);
    out
}

} // verus!
