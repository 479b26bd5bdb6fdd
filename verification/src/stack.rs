//! The metal stack: its layers, their tracks, and the vias between them.

use vstd::prelude::*;

use crate::coords::{fits, has_headroom, scale, DbUnits, Dir, Xy};
use crate::raw::{clone_name, Layer, Units};
use crate::tracks::{
    LayerPeriod, LayerPeriodView, SegmentView, Track, TrackSegment, TrackView,
};

verus! {

/// The primitive layer, which sets the grid that outlines and instances are placed on.
#[derive(Debug)]
pub struct PrimLayer {
    pub pitches: Xy<DbUnits>,
}

/// What a metal layer is made of.
#[derive(Debug)]
pub struct MetalLayer {
    /// Direction of the tracks.
    pub dir: Dir,
    /// Size of a cut, along the track.
    pub cutsize: DbUnits,
    /// The mask layer that it is drawn on.
    pub raw: Option<Layer>,
}

/// The via layer on top of a metal layer.
#[derive(Debug)]
pub struct ViaLayer {
    pub size: Xy<DbUnits>,
    pub raw: Option<Layer>,
}

/// One track in the period of a metal layer.
#[derive(Debug)]
pub struct TrackSpec {
    /// Where the track starts, across it, within the period.
    pub start: DbUnits,
    pub width: DbUnits,
    /// The net that its wire is on, if any.
    pub net: Option<String>,
}

/// The tracks of one period.
#[derive(Debug)]
pub struct PeriodSpec {
    pub rails: Vec<TrackSpec>,
    pub signals: Vec<TrackSpec>,
}

/// A metal layer: a period of tracks, repeated every `pitch`.
#[derive(Debug)]
pub struct ValidMetalLayer {
    pub spec: MetalLayer,
    /// Position in the stack.
    pub index: usize,
    pub pitch: DbUnits,
    pub period: PeriodSpec,
}

/// A metal stack.
#[derive(Debug)]
pub struct ValidStack {
    pub units: Units,
    pub boundary_layer: Option<Layer>,
    pub prim: PrimLayer,
    pub metals: Vec<ValidMetalLayer>,
    pub vias: Vec<ViaLayer>,
}

/// The track `spec` of a period that starts at `offset`, with an unbroken wire from 0 to `span`.
pub open spec fn track_at(spec: TrackSpec, dir: Dir, offset: int, span: int) -> TrackView {
    TrackView {
        dir,
        start: offset + spec.start.0,
        width: spec.width.0 as int,
        segments: seq![SegmentView { net: spec.net.deep_view(), start: 0, stop: span }],
    }
}

/// The tracks `specs` of a period that starts at `offset`.
pub open spec fn tracks_at(specs: Seq<TrackSpec>, dir: Dir, offset: int, span: int) -> Seq<
    TrackView,
> {
    Seq::new(specs.len(), |k: int| track_at(specs[k], dir, offset, span))
}

/// Whether the tracks `specs` of a period that starts at `offset` start within range.
pub open spec fn starts_fit(specs: Seq<TrackSpec>, offset: int) -> bool {
    forall|k: int| 0 <= k < specs.len() ==> fits(offset + (#[trigger] specs[k]).start.0)
}

/// Lays out the tracks `specs` of a period that starts at `offset`.
fn lay_tracks(specs: &Vec<TrackSpec>, dir: Dir, offset: i128, span: DbUnits) -> (tracks: Vec<Track>)
    requires
        has_headroom(offset as int),
        starts_fit(specs@, offset as int),
    ensures
        tracks.deep_view() == tracks_at(specs@, dir, offset as int, span.0 as int),
{
    let mut tracks: Vec<Track> = Vec::new();
    let mut i: usize = 0;
    while i < specs.len()
        invariant
            i <= specs@.len(),
            tracks@.len() == i,
            has_headroom(offset as int),
            starts_fit(specs@, offset as int),
            forall|k: int|
                0 <= k < i ==> (#[trigger] tracks@[k]).deep_view() == track_at(
                    specs@[k],
                    dir,
                    offset as int,
                    span.0 as int,
                ),
        decreases specs@.len() - i,
    {
        assert(fits(offset + specs@[i as int].start.0));
        let start = DbUnits((offset + specs[i].start.0 as i128) as isize);
        let mut segments: Vec<TrackSegment> = Vec::new();
        segments.push(
            TrackSegment { net: clone_name(&specs[i].net), start: DbUnits(0), stop: span },
        );
        let ghost expected = track_at(specs@[i as int], dir, offset as int, span.0 as int);
        assert(segments.deep_view() =~= expected.segments);
        tracks.push(Track { dir, start, width: specs[i].width, segments });
        i += 1;
    }
    assert(tracks.deep_view() =~= tracks_at(specs@, dir, offset as int, span.0 as int));
    tracks
}

impl ValidMetalLayer {
    /// Where period number `index` starts.
    pub open spec fn period_start(self, index: int) -> int {
        self.pitch.0 * index
    }

    /// Whether the tracks of period number `index` start within range.
    pub open spec fn period_fits(self, index: int) -> bool {
        &&& starts_fit(self.period.rails@, self.period_start(index))
        &&& starts_fit(self.period.signals@, self.period_start(index))
    }

    /// Period number `index`, with unbroken wires from 0 to `span`.
    pub open spec fn layer_period(self, index: int, span: int) -> LayerPeriodView {
        let offset = self.period_start(index);
        LayerPeriodView {
            rails: tracks_at(self.period.rails@, self.spec.dir, offset, span),
            signals: tracks_at(self.period.signals@, self.spec.dir, offset, span),
        }
    }

    /// Lays out period number `index`, with unbroken wires from 0 to `span`.
    pub fn to_layer_period(&self, index: usize, span: DbUnits) -> (period: LayerPeriod)
        requires
            self.period_fits(index as int),
        ensures
            period.deep_view() == self.layer_period(index as int, span.0 as int),
    {
        let offset: i128 = scale(self.pitch, index);
        LayerPeriod {
            rails: lay_tracks(&self.period.rails, self.spec.dir, offset, span),
            signals: lay_tracks(&self.period.signals, self.spec.dir, offset, span),
        }
    }

    /// Where signal track number `idx` starts, counted over all periods.
    pub open spec fn signal_start(self, idx: int) -> int {
        let n = self.period.signals@.len() as int;
        self.period_start(idx / n) + self.period.signals@[idx % n].start.0
    }

    /// Where signal track number `idx` ends, counted over all periods.
    pub open spec fn signal_stop(self, idx: int) -> int {
        let n = self.period.signals@.len() as int;
        self.signal_start(idx) + self.period.signals@[idx % n].width.0
    }

    /// Where signal track number `idx` starts and ends, counted over all periods.
    pub fn span(&self, idx: usize) -> (span: (DbUnits, DbUnits))
        requires
            self.period.signals@.len() > 0,
            fits(self.signal_start(idx as int)),
            fits(self.signal_stop(idx as int)),
        ensures
            span.0.0 == self.signal_start(idx as int),
            span.1.0 == self.signal_stop(idx as int),
    {
        let n = self.period.signals.len();
        let offset: i128 = scale(self.pitch, idx / n);
        let track = &self.period.signals[idx % n];
        let start = (offset + track.start.0 as i128) as isize;
        (DbUnits(start), DbUnits(start + track.width.0))
    }
}

} // verus!
