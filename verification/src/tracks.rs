//! Tracks and the wires on them.

use vstd::prelude::*;

use crate::coords::{DbUnits, Dir};
use crate::error::{ErrorView, LayoutError, LayoutResult};

verus! {

/// A piece of wire on a track, from `start` to `stop` along the track.
#[derive(Debug)]
pub struct TrackSegment {
    pub net: Option<String>,
    pub start: DbUnits,
    pub stop: DbUnits,
}

/// The mathematical value of a [`TrackSegment`].
#[verifier::ext_equal]
pub struct SegmentView {
    pub net: Option<Seq<char>>,
    pub start: int,
    pub stop: int,
}

impl DeepView for TrackSegment {
    type V = SegmentView;

    open spec fn deep_view(&self) -> SegmentView {
        SegmentView {
            net: self.net.deep_view(),
            start: self.start.0 as int,
            stop: self.stop.0 as int,
        }
    }
}

impl SegmentView {
    /// Whether the wire runs all the way from `from` to `to`.
    pub open spec fn covers(self, from: int, to: int) -> bool {
        self.start <= from && to <= self.stop
    }
}

/// The first of `segs`, from position `i` on, that covers `from` to `to`; the number of segments
/// if none does.
pub open spec fn first_covering(segs: Seq<SegmentView>, from: int, to: int, i: int) -> int
    decreases segs.len() - i,
{
    if i >= segs.len() {
        segs.len() as int
    } else if segs[i].covers(from, to) {
        i
    } else {
        first_covering(segs, from, to, i + 1)
    }
}

/// What is left of one wire once the region from `start` to `stop` is taken out of it.
pub open spec fn remainder(seg: SegmentView, start: int, stop: int) -> Seq<SegmentView> {
    let left = if seg.start < start {
        seq![SegmentView { stop: start, ..seg }]
    } else {
        seq![]
    };
    let right = if stop < seg.stop {
        seq![SegmentView { start: stop, ..seg }]
    } else {
        seq![]
    };
    left + right
}

/// The wires `segs` with the region from `start` to `stop` cut out of the first wire that covers
/// it. `None` if the region is empty or no single wire covers it.
pub open spec fn cut_segments(segs: Seq<SegmentView>, start: int, stop: int) -> Option<
    Seq<SegmentView>,
> {
    let i = first_covering(segs, start, stop, 0);
    if start < stop && i < segs.len() {
        Some(segs.take(i) + remainder(segs[i], start, stop) + segs.skip(i + 1))
    } else {
        None
    }
}

/// The wires `segs` with the first one at `dist` put on net `net`. `None` if there is no wire.
pub open spec fn assign_segment(segs: Seq<SegmentView>, dist: int, net: Seq<char>) -> Option<
    Seq<SegmentView>,
> {
    let i = first_covering(segs, dist, dist, 0);
    if i < segs.len() {
        Some(segs.update(i, SegmentView { net: Some(net), ..segs[i] }))
    } else {
        None
    }
}

/// The error of a cut that does not lie on one wire.
pub open spec fn cut_error() -> ErrorView {
    ErrorView::Str("Cut Error: not a contiguous wire segment"@)
}

/// A track: wires in direction `dir`, side by side from `start` to `start + width` across it.
#[derive(Debug)]
pub struct Track {
    pub dir: Dir,
    pub start: DbUnits,
    pub width: DbUnits,
    pub segments: Vec<TrackSegment>,
}

/// The mathematical value of a [`Track`].
#[verifier::ext_equal]
pub struct TrackView {
    pub dir: Dir,
    pub start: int,
    pub width: int,
    pub segments: Seq<SegmentView>,
}

impl DeepView for Track {
    type V = TrackView;

    open spec fn deep_view(&self) -> TrackView {
        TrackView {
            dir: self.dir,
            start: self.start.0 as int,
            width: self.width.0 as int,
            segments: self.segments.deep_view(),
        }
    }
}

impl TrackView {
    /// The track with the region from `start` to `stop` cut out.
    pub open spec fn cut(self, start: int, stop: int) -> Option<TrackView> {
        match cut_segments(self.segments, start, stop) {
            Some(segments) => Some(TrackView { segments, ..self }),
            None => None,
        }
    }

    /// The track with its wire at `dist` put on net `net`.
    pub open spec fn assign(self, dist: int, net: Seq<char>) -> Option<TrackView> {
        match assign_segment(self.segments, dist, net) {
            Some(segments) => Some(TrackView { segments, ..self }),
            None => None,
        }
    }
}

impl Track {
    /// The position of the first wire that runs all the way from `from` to `to`.
    fn segment_covering(&self, from: DbUnits, to: DbUnits) -> (i: Option<usize>)
        ensures
            match i {
                Some(i) => i < self.segments@.len() && i == first_covering(
                    self.deep_view().segments,
                    from.0 as int,
                    to.0 as int,
                    0,
                ),
                None => self.segments@.len() == first_covering(
                    self.deep_view().segments,
                    from.0 as int,
                    to.0 as int,
                    0,
                ),
            },
    {
        let ghost segs = self.deep_view().segments;
        let mut i: usize = 0;
        while i < self.segments.len()
            invariant
                i <= self.segments@.len(),
                segs == self.deep_view().segments,
                first_covering(segs, from.0 as int, to.0 as int, 0) == first_covering(
                    segs,
                    from.0 as int,
                    to.0 as int,
                    i as int,
                ),
            decreases self.segments@.len() - i,
        {
            assert(segs[i as int] == self.segments@[i as int].deep_view());
            if self.segments[i].start.0 <= from.0 && to.0 <= self.segments[i].stop.0 {
                return Some(i);
            }
            i += 1;
        }
        None
    }

    /// The position of the first wire at distance `dist` along the track.
    pub fn segment_at(&self, dist: DbUnits) -> (i: Option<usize>)
        ensures
            match i {
                Some(i) => i < self.segments@.len() && i == first_covering(
                    self.deep_view().segments,
                    dist.0 as int,
                    dist.0 as int,
                    0,
                ),
                None => self.segments@.len() == first_covering(
                    self.deep_view().segments,
                    dist.0 as int,
                    dist.0 as int,
                    0,
                ),
            },
    {
        self.segment_covering(dist, dist)
    }

    /// Puts the wire at distance `dist` on net `net`. Returns whether there is such a wire.
    pub fn assign(&mut self, dist: DbUnits, net: &String) -> (found: bool)
        ensures
            match old(self).deep_view().assign(dist.0 as int, net@) {
                Some(track) => found && final(self).deep_view() == track,
                None => !found && *final(self) == *old(self),
            },
    {
        match self.segment_at(dist) {
            Some(i) => {
                self.segments[i].net = Some(net.clone());
                assert(self.deep_view().segments =~= assign_segment(
                    old(self).deep_view().segments,
                    dist.0 as int,
                    net@,
                )->0);
                true
            },
            None => false,
        }
    }

    /// Cuts the region from `start` to `stop` out of the wire that covers it.
    /// Fails, and leaves the track as it is, if the region does not lie on one wire.
    pub fn cut(&mut self, start: DbUnits, stop: DbUnits) -> (r: LayoutResult<()>)
        ensures
            match old(self).deep_view().cut(start.0 as int, stop.0 as int) {
                Some(track) => r is Ok && final(self).deep_view() == track,
                None => r matches Err(e) && e@ == cut_error() && *final(self) == *old(self),
            },
    {
        let found = self.segment_covering(start, stop);
        if start.0 >= stop.0 {
            return Err(LayoutError::msg("Cut Error: not a contiguous wire segment"));
        }
        match found {
            Some(i) => {
                let seg_start = self.segments[i].start;
                let seg_stop = self.segments[i].stop;
                if seg_start.0 < start.0 {
                    if stop.0 < seg_stop.0 {
                        assert(i < self.segments.len());
                        let net = crate::raw::clone_name(&self.segments[i].net);
                        self.segments.insert(
                            i + 1,
                            TrackSegment { net, start: stop, stop: seg_stop },
                        );
                    }
                    self.segments[i].stop = start;
                } else if stop.0 < seg_stop.0 {
                    self.segments[i].start = stop;
                } else {
                    self.segments.remove(i);
                }
                assert(self.deep_view().segments =~= cut_segments(
                    old(self).deep_view().segments,
                    start.0 as int,
                    stop.0 as int,
                )->0);
                Ok(())
            },
            None => Err(LayoutError::msg("Cut Error: not a contiguous wire segment")),
        }
    }
}

/// The tracks with the region from `start` to `stop` cut out of every one of them. `None` if one
/// of them cannot be cut there.
pub open spec fn cut_tracks(tracks: Seq<TrackView>, start: int, stop: int) -> Option<
    Seq<TrackView>,
> {
    if forall|k: int|
        0 <= k < tracks.len() ==> (#[trigger] tracks[k]).cut(start, stop) is Some {
        Some(Seq::new(tracks.len(), |k: int| tracks[k].cut(start, stop)->0))
    } else {
        None
    }
}

/// Cuts the region from `start` to `stop` out of every one of `tracks`.
#[verifier::loop_isolation(false)]
fn cut_every(tracks: Vec<Track>, start: DbUnits, stop: DbUnits) -> (r: LayoutResult<Vec<Track>>)
    ensures
        match cut_tracks(tracks.deep_view(), start.0 as int, stop.0 as int) {
            Some(cut) => r matches Ok(t) && t.deep_view() == cut,
            None => r matches Err(e) && e@ == cut_error(),
        },
{
    let ghost before = tracks.deep_view();
    let mut tracks = tracks;
    let mut i: usize = 0;
    while i < tracks.len()
        invariant
            i <= tracks@.len(),
            tracks@.len() == before.len(),
            forall|k: int|
                0 <= k < i ==> (#[trigger] before[k]).cut(start.0 as int, stop.0 as int) == Some(
                    tracks@[k].deep_view(),
                ),
            forall|k: int| i <= k < before.len() ==> tracks@[k].deep_view() == #[trigger] before[k],
        decreases tracks@.len() - i,
    {
        assert(tracks@[i as int].deep_view() == before[i as int]);
        match tracks[i].cut(start, stop) {
            Ok(()) => {},
            Err(e) => {
                return Err(e);
            },
        }
        i += 1;
    }
    assert(tracks.deep_view() =~= cut_tracks(before, start.0 as int, stop.0 as int)->0);
    Ok(tracks)
}

/// The tracks of one period of a metal layer.
#[derive(Debug)]
pub struct LayerPeriod {
    pub rails: Vec<Track>,
    pub signals: Vec<Track>,
}

/// The mathematical value of a [`LayerPeriod`].
#[verifier::ext_equal]
pub struct LayerPeriodView {
    pub rails: Seq<TrackView>,
    pub signals: Seq<TrackView>,
}

impl DeepView for LayerPeriod {
    type V = LayerPeriodView;

    open spec fn deep_view(&self) -> LayerPeriodView {
        LayerPeriodView { rails: self.rails.deep_view(), signals: self.signals.deep_view() }
    }
}

impl LayerPeriodView {
    /// The period with the region from `start` to `stop` cut out of all of its tracks.
    pub open spec fn cut(self, start: int, stop: int) -> Option<LayerPeriodView> {
        match (cut_tracks(self.rails, start, stop), cut_tracks(self.signals, start, stop)) {
            (Some(rails), Some(signals)) => Some(LayerPeriodView { rails, signals }),
            _ => None,
        }
    }
}

impl LayerPeriod {
    /// Cuts the region from `start` to `stop` out of every track.
    /// Fails if on one of them the region does not lie on one wire.
    pub fn cut(self, start: DbUnits, stop: DbUnits) -> (r: LayoutResult<LayerPeriod>)
        ensures
            match self.deep_view().cut(start.0 as int, stop.0 as int) {
                Some(period) => r matches Ok(p) && p.deep_view() == period,
                None => r matches Err(e) && e@ == cut_error(),
            },
    {
        let rails = match cut_every(self.rails, start, stop) {
            Ok(rails) => rails,
            Err(e) => {
                return Err(e);
            },
        };
        let signals = match cut_every(self.signals, start, stop) {
            Ok(signals) => signals,
            Err(e) => {
                return Err(e);
            },
        };
        Ok(LayerPeriod { rails, signals })
    }
}

/// Whether some wire reaches position `x`.
pub open spec fn wired(segs: Seq<SegmentView>, x: int) -> bool {
    exists|k: int| 0 <= k < segs.len() && (#[trigger] segs[k]).covers(x, x)
}

/// Whether wires follow each other along the track without overlap.
pub open spec fn in_order(segs: Seq<SegmentView>) -> bool {
    forall|i: int, j: int| 0 <= i < j < segs.len() ==> segs[i].stop <= segs[j].start
}

/// Whether no wire passes over the region from `from` to `to`: each ends where the region starts
/// or before, or starts where it ends or after.
pub open spec fn clear_of(segs: Seq<SegmentView>, from: int, to: int) -> bool {
    forall|k: int| 0 <= k < segs.len() ==> (#[trigger] segs[k]).stop <= from || segs[k].start >= to
}

/// Whether two tracks have the same wires, whatever nets they are on.
pub open spec fn same_wires(a: Seq<SegmentView>, b: Seq<SegmentView>) -> bool {
    &&& a.len() == b.len()
    &&& forall|k: int|
        0 <= k < a.len() ==> (#[trigger] a[k]).start == b[k].start && a[k].stop == b[k].stop
}

/// A wire that covers a region is found exactly if there is one, and the first such wire is.
pub proof fn first_covering_is_first(segs: Seq<SegmentView>, from: int, to: int, i: int)
    requires
        0 <= i <= segs.len(),
    ensures
        ({
            let f = first_covering(segs, from, to, i);
            &&& i <= f <= segs.len()
            &&& f < segs.len() ==> segs[f].covers(from, to)
            &&& forall|k: int| i <= k < f ==> !(#[trigger] segs[k]).covers(from, to)
        }),
    decreases segs.len() - i,
{
    if i < segs.len() && !segs[i].covers(from, to) {
        first_covering_is_first(segs, from, to, i + 1);
    }
}

/// Which wire is found does not depend on the nets that wires are on.
pub proof fn same_wire_is_found(
    a: Seq<SegmentView>,
    b: Seq<SegmentView>,
    from: int,
    to: int,
    i: int,
)
    requires
        same_wires(a, b),
        0 <= i,
    ensures
        first_covering(a, from, to, i) == first_covering(b, from, to, i),
    decreases a.len() - i,
{
    if i < a.len() {
        assert(a[i].covers(from, to) == b[i].covers(from, to));
        same_wire_is_found(a, b, from, to, i + 1);
    }
}

/// A region can be cut exactly if it is not empty and one wire covers it.
pub proof fn cut_succeeds_on_one_wire(segs: Seq<SegmentView>, start: int, stop: int)
    ensures
        cut_segments(segs, start, stop) is Some <==> start < stop && exists|k: int|
            0 <= k < segs.len() && (#[trigger] segs[k]).covers(start, stop),
{
    first_covering_is_first(segs, start, stop, 0);
}

/// A cut clears its region, changes nothing outside of it, and keeps wires in order.
pub proof fn cut_clears_region(segs: Seq<SegmentView>, start: int, stop: int, x: int)
    requires
        in_order(segs),
        cut_segments(segs, start, stop) is Some,
    ensures
        in_order(cut_segments(segs, start, stop)->0),
        clear_of(cut_segments(segs, start, stop)->0, start, stop),
        x < start || stop < x ==> (wired(cut_segments(segs, start, stop)->0, x) <==> wired(segs, x)),
        wired(cut_segments(segs, start, stop)->0, x) ==> wired(segs, x),
{
    first_covering_is_first(segs, start, stop, 0);
    let i = first_covering(segs, start, stop, 0);
    let left = remainder(segs[i], start, stop);
    let after = cut_segments(segs, start, stop)->0;
    let shift = left.len() - 1;
    assert forall|k: int| 0 <= k < i implies after[k] == segs[k] by {}
    assert forall|k: int| i < k < segs.len() implies #[trigger] segs[k] == after[k + shift] by {}
    assert forall|k: int| i + left.len() <= k < after.len() implies after[k] == segs[k - shift] by {}
    assert forall|k: int| i <= k < i + left.len() implies after[k] == left[k - i] by {}
    if wired(after, x) {
        let k = choose|k: int| 0 <= k < after.len() && (#[trigger] after[k]).covers(x, x);
        if k < i {
            assert(segs[k].covers(x, x));
        } else if k < i + left.len() {
            assert(left[k - i].covers(x, x));
            assert(segs[i].covers(x, x));
        } else {
            assert(segs[k - shift].covers(x, x));
        }
    }
    if wired(segs, x) && (x < start || stop < x) {
        let k = choose|k: int| 0 <= k < segs.len() && (#[trigger] segs[k]).covers(x, x);
        if k < i {
            assert(after[k].covers(x, x));
        } else if k == i {
            if x < start {
                assert(left[0].covers(x, x));
                assert(after[i].covers(x, x));
            } else {
                assert(left[left.len() - 1].covers(x, x));
                assert(after[i + left.len() - 1].covers(x, x));
            }
        } else {
            assert(after[k + shift].covers(x, x));
        }
    }
}

/// A cut leaves a region clear that was clear before.
pub proof fn cut_keeps_clear(segs: Seq<SegmentView>, start: int, stop: int, from: int, to: int)
    requires
        cut_segments(segs, start, stop) is Some,
        clear_of(segs, from, to),
    ensures
        clear_of(cut_segments(segs, start, stop)->0, from, to),
{
    first_covering_is_first(segs, start, stop, 0);
    let i = first_covering(segs, start, stop, 0);
    let left = remainder(segs[i], start, stop);
    let after = cut_segments(segs, start, stop)->0;
    assert forall|k: int| 0 <= k < after.len() implies (#[trigger] after[k]).stop <= from
        || after[k].start >= to by {
        if k < i {
            assert(after[k] == segs[k]);
        } else if k < i + left.len() {
            assert(after[k] == left[k - i]);
            assert(segs[i].stop <= from || segs[i].start >= to);
        } else {
            assert(after[k] == segs[k - left.len() + 1]);
        }
    }
}

/// What is assigned is found again: the wire at `dist` is then on net `net`. Every other wire is
/// as before, and no wire moves.
pub proof fn assigned_net_is_found(segs: Seq<SegmentView>, dist: int, net: Seq<char>)
    requires
        assign_segment(segs, dist, net) is Some,
    ensures
        ({
            let after = assign_segment(segs, dist, net)->0;
            let i = first_covering(segs, dist, dist, 0);
            &&& first_covering(after, dist, dist, 0) == i
            &&& same_wires(segs, after)
            &&& 0 <= i < segs.len()
            &&& after[i].net == Some(net)
            &&& forall|k: int| 0 <= k < segs.len() && k != i ==> after[k] == segs[k]
        }),
{
    let after = assign_segment(segs, dist, net)->0;
    first_covering_is_first(segs, dist, dist, 0);
    same_wire_is_found(segs, after, dist, dist, 0);
}

} // verus!
