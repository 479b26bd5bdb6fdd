//! What comes out of a conversion, said in terms of what goes in.

use vstd::arithmetic::mul::lemma_mul_is_commutative;
use vstd::prelude::*;

use crate::abstrakt::{Abstract, Port, PortKind};
use crate::cell::{Cell, Instance, Library};
use crate::coords::{Dir, PrimPitches};
use crate::edits::{apply_all, apply_all_keeps_clear, apply_all_keeps_tracks};
use crate::error::LayoutResult;
use crate::laws::{
    cells_are_converted_in_order, edit_does_not_fail, edits_are_in_range, filter_contains,
    periods_fill_the_cell, track_is_in_one_period,
};
use crate::model::{
    accepted, blocked_region, bot_in_period, bot_on_layer, converter, cut_in_period, in_period,
    on_layer, present, top_in_period, top_on_layer, unimplemented, up_to_layer, ConverterView,
    PeriodInput, Placed,
};
use crate::outline::Outline;
use crate::raw::{
    CellView, ElementView, InstanceView, LayerKey, LayerPurpose, LibraryView, ShapeView,
};
use crate::stack::{TrackSpec, ValidMetalLayer, ValidStack, ViaLayer};
use crate::tracks::{SegmentView, TrackView};
use crate::units::{
    apart, carving_keeps_nets, cuts_into, edits_take_out_their_units, landings_set_nets, lengthy,
    net_after, region, taken_out, wire_on, wires,
};
use crate::validate::{ValidAssign, ValidTrackLoc};

verus! {

/// The primitive pitch of `stack` in direction `dir`, in database units.
pub open spec fn pitch(stack: ValidStack, dir: Dir) -> int {
    match dir {
        Dir::Horiz => stack.prim.pitches.x.0 as int,
        Dir::Vert => stack.prim.pitches.y.0 as int,
    }
}

/// A number of primitive pitches of `stack`, in database units.
pub open spec fn distance(stack: ValidStack, p: PrimPitches) -> int {
    p.num * pitch(stack, p.dir)
}

/// The rectangle from `from` to `to` along `dir`, and from `start` to `stop` across it.
pub open spec fn rectangle(dir: Dir, from: int, to: int, start: int, stop: int) -> ShapeView {
    if dir is Horiz {
        ShapeView::Rect { p0: (from, start), p1: (to, stop) }
    } else {
        ShapeView::Rect { p0: (start, from), p1: (stop, to) }
    }
}

/// A wire or via of metal, on the layer with key `key`.
pub open spec fn metal(key: LayerKey, net: Option<Seq<char>>, shape: ShapeView) -> ElementView {
    ElementView { net, layer: key, purpose: LayerPurpose::Drawing, inner: shape }
}

/// The rectangles of `tracks`, track by track, where `segs` are the wires of each and `offset` is
/// where the period starts.
pub open spec fn drawn(
    key: LayerKey,
    dir: Dir,
    offset: int,
    tracks: Seq<TrackSpec>,
    segs: Seq<Seq<SegmentView>>,
) -> Seq<ElementView>
    decreases segs.len(),
{
    if segs.len() == 0 {
        seq![]
    } else {
        let start = offset + tracks.last().start.0;
        let stop = start + tracks.last().width.0;
        drawn(key, dir, offset, tracks.drop_last(), segs.drop_last()) + segs.last().map_values(
            |seg: SegmentView| metal(key, seg.net, rectangle(dir, seg.start, seg.stop, start, stop)),
        )
    }
}

/// What a period of a metal layer is made from.
pub struct PeriodParts {
    pub layer: ValidMetalLayer,
    /// The layer that its shapes are drawn on.
    pub key: LayerKey,
    /// The vias up from the layer.
    pub via: ViaLayer,
    pub periodnum: int,
    /// The length of its tracks.
    pub span: int,
    /// The regions, along the tracks, that instances take up.
    pub blocked: Seq<(int, int)>,
    pub cuts: Seq<ValidTrackLoc>,
    /// The assignments for which the layer is the lower one.
    pub bots: Seq<ValidAssign>,
    /// The assignments for which the layer is the upper one.
    pub tops: Seq<ValidAssign>,
}

impl PeriodParts {
    /// The number of signal tracks.
    pub open spec fn nsig(self) -> int {
        self.layer.period.signals@.len() as int
    }

    /// Whether the unit at `x` is within a blocked region.
    pub open spec fn blocked_at(self, x: int) -> bool {
        exists|i: int|
            0 <= i < self.blocked.len() && (#[trigger] self.blocked[i]).0 <= x < self.blocked[i].1
    }

    /// Whether the unit at `x` of signal track `signal` is within a cut: one of the layer's cut
    /// size, around its location.
    pub open spec fn cut_at(self, signal: int, x: int) -> bool {
        exists|i: int|
            {
                &&& 0 <= i < self.cuts.len()
                &&& (#[trigger] self.cuts[i]).track as int % self.nsig() == signal
                &&& self.cuts[i].dist.0 - self.layer.spec.cutsize.0 as int / 2 <= x
                &&& x < self.cuts[i].dist.0 + self.layer.spec.cutsize.0 as int / 2
            }
    }

    /// Whether there is to be no wire on the unit at `x` of a track: of signal track `signal`, or
    /// of a rail where that is `None`.
    pub open spec fn gone(self, signal: Option<int>, x: int) -> bool {
        self.blocked_at(x) || signal is Some && self.cut_at(signal->0, x)
    }

    /// The assignments, in the order in which they are made: each one's signal, its distance along
    /// it, and its net.
    pub open spec fn landings(self) -> Seq<(int, int, Seq<char>)> {
        let n = self.nsig();
        self.bots.map_values(
            |a: ValidAssign| (a.bot.track as int % n, a.bot.dist.0 as int, a.net@),
        ) + self.tops.map_values(
            |a: ValidAssign| (a.top.track as int % n, a.top.dist.0 as int, a.net@),
        )
    }

    /// Whether `segs` are the wires of track `spec`: of signal track `signal`, or of a rail where
    /// that is `None`.
    ///
    /// There is wire on every unit of the track that is not within a blocked region or a cut, and
    /// on no other; and what is not broken is one wire. A wire is on the net of the last assignment
    /// on it, or on that of the track if there is none.
    pub open spec fn wires_are(
        self,
        spec: TrackSpec,
        signal: Option<int>,
        segs: Seq<SegmentView>,
    ) -> bool {
        &&& apart(segs)
        &&& self.span > 0 ==> lengthy(segs)
        &&& forall|x: int| #[trigger]
            wire_on(segs, x) <==> 0 <= x < self.span && !self.gone(signal, x)
        &&& (forall|x: int| !self.gone(signal, x)) ==> segs.len() == 1 && segs[0].start == 0
            && segs[0].stop == self.span
        &&& forall|k: int|
            0 <= k < segs.len() ==> (#[trigger] segs[k]).net == net_after(
                spec.net.deep_view(),
                self.landings(),
                signal,
                segs[k].start,
                segs[k].stop,
            )
    }

    /// The via of an assignment: as large as the via layer says, less one unit where that is odd,
    /// around the distances along the two tracks.
    pub open spec fn via_of(self, a: ValidAssign) -> ElementView {
        let (x, y) = (a.bot.dist.0 as int, a.top.dist.0 as int);
        let (w, h) = (to_zero(self.via.size.x.0 as int), to_zero(self.via.size.y.0 as int));
        metal(self.key, None, ShapeView::Rect { p0: (x - w, y - h), p1: (x + w, y + h) })
    }

    /// Whether `shapes` are those of the period: a via for each assignment for which the layer is
    /// the lower one, then the wires of the rails, then those of the signals.
    pub open spec fn shapes_are(self, shapes: Seq<ElementView>) -> bool {
        exists|rails: Seq<Seq<SegmentView>>, signals: Seq<Seq<SegmentView>>| #[trigger]
            self.made_of(rails, signals, shapes)
    }

    /// Whether `shapes` are those of the period, with `rails` and `signals` as the wires of its
    /// tracks.
    pub open spec fn made_of(
        self,
        rails: Seq<Seq<SegmentView>>,
        signals: Seq<Seq<SegmentView>>,
        shapes: Seq<ElementView>,
    ) -> bool {
        let (key, dir) = (self.key, self.layer.spec.dir);
        let offset = self.layer.pitch.0 * self.periodnum;
        let period = self.layer.period;
        &&& rails.len() == period.rails@.len()
        &&& signals.len() == period.signals@.len()
        &&& forall|k: int|
            0 <= k < rails.len() ==> self.wires_are(period.rails@[k], None, #[trigger] rails[k])
        &&& forall|k: int|
            0 <= k < signals.len() ==> self.wires_are(
                period.signals@[k],
                Some(k),
                #[trigger] signals[k],
            )
        &&& shapes == self.bots.map_values(|a: ValidAssign| self.via_of(a)) + drawn(
            key,
            dir,
            offset,
            period.rails@,
            rails,
        ) + drawn(key, dir, offset, period.signals@, signals)
    }
}

/// Half of `v`, without the remainder: `v` is twice that, or one further from zero.
pub open spec fn to_zero(v: int) -> int {
    if v < 0 {
        -(-v / 2)
    } else {
        v / 2
    }
}

/// The parts of a period, where `input` is what a cell puts on it.
pub open spec fn parts(
    c: ConverterView,
    layer: ValidMetalLayer,
    periodnum: int,
    span: int,
    input: PeriodInput,
) -> PeriodParts {
    PeriodParts {
        layer,
        key: c.keys[layer.index as int],
        via: c.stack.vias@[layer.index as int],
        periodnum,
        span,
        blocked: input.blockages.map_values(
            |b: (PrimPitches, PrimPitches)| (distance(c.stack, b.0), distance(c.stack, b.1)),
        ),
        cuts: input.cuts,
        bots: input.bots.map_values(|a: Option<ValidAssign>| a->0),
        tops: input.tops.map_values(|a: Option<ValidAssign>| a->0),
    }
}

pub(crate) proof fn taken_out_is_gone(
    c: ConverterView,
    layer: ValidMetalLayer,
    periodnum: int,
    span: int,
    input: PeriodInput,
    n: int,
    signal: Option<int>,
    x: int,
)
    requires
        input.blockages.len() + input.cuts.len() <= n <= c.edits(layer, input).len(),
    ensures
        taken_out(c.edits(layer, input), n, signal, x) <==> parts(
            c,
            layer,
            periodnum,
            span,
            input,
        ).gone(signal, x),
{
    let edits = c.edits(layer, input);
    let t = parts(c, layer, periodnum, span, input);
    let nb = input.blockages.len() as int;
    let nc = input.cuts.len() as int;
    if taken_out(edits, n, signal, x) {
        let k = choose|k: int|
            0 <= k < n && cuts_into(#[trigger] edits[k], signal) && region(edits[k]).0 <= x
                < region(edits[k]).1;
        if k < nb {
            assert(edits[k] == c.block_edit(input.blockages[k]));
            assert(t.blocked[k].0 <= x < t.blocked[k].1);
        } else if k < nb + nc {
            assert(edits[k] == c.cut_edit(layer, input.cuts[k - nb]));
            assert(t.cuts[k - nb].track as int % t.nsig() == signal->0);
            assert(t.cut_at(signal->0, x));
        } else {
            let nl = c.landing(layer, input).len() as int;
            if k < nl {
                assert(edits[k] == c.bot_edit(layer, input.bots[k - nb - nc]));
            } else {
                assert(edits[k] == c.top_edit(layer, input.tops[k - nl]));
            }
        }
    }
    if t.blocked_at(x) {
        let i = choose|i: int|
            0 <= i < t.blocked.len() && (#[trigger] t.blocked[i]).0 <= x < t.blocked[i].1;
        assert(edits[i] == c.block_edit(input.blockages[i]));
        assert(cuts_into(edits[i], signal));
        assert(taken_out(edits, n, signal, x));
    }
    if signal is Some && t.cut_at(signal->0, x) {
        let i = choose|i: int|
            {
                &&& 0 <= i < t.cuts.len()
                &&& (#[trigger] t.cuts[i]).track as int % t.nsig() == signal->0
                &&& t.cuts[i].dist.0 - t.layer.spec.cutsize.0 as int / 2 <= x
                &&& x < t.cuts[i].dist.0 + t.layer.spec.cutsize.0 as int / 2
            };
        assert(edits[nb + i] == c.cut_edit(layer, input.cuts[i]));
        assert(cuts_into(edits[nb + i], signal));
        assert(taken_out(edits, n, signal, x));
    }
}

/// The edits of a period are cuts into its tracks, and then the landings of its parts.
proof fn edits_cut_and_land(
    c: ConverterView,
    layer: ValidMetalLayer,
    periodnum: int,
    span: int,
    input: PeriodInput,
    k: int,
)
    requires
        c.period_outcome(layer, periodnum, span, input) is Ok,
        0 <= k < c.edits(layer, input).len(),
    ensures
        ({
            let edits = c.edits(layer, input);
            let m = input.blockages.len() + input.cuts.len();
            let landings = parts(c, layer, periodnum, span, input).landings();
            &&& landings.len() == edits.len() - m
            &&& k < m ==> edits[k] is Block || edits[k] is Cut
            &&& k >= m ==> edits[k] is Land && landings[k - m] == (
                edits[k]->Land_signal,
                edits[k]->dist,
                edits[k]->net,
            )
        }),
{
    let edits = c.edits(layer, input);
    let blank = layer.layer_period(periodnum, span);
    edit_does_not_fail(blank, edits, k);
    let nb = input.blockages.len() as int;
    let m = nb + input.cuts.len() as int;
    let nl = c.landing(layer, input).len() as int;
    if k < nb {
        assert(edits[k] == c.block_edit(input.blockages[k]));
    } else if k < m {
        assert(edits[k] == c.cut_edit(layer, input.cuts[k - nb]));
    } else if k < nl {
        assert(edits[k] == c.bot_edit(layer, input.bots[k - m]));
    } else {
        assert(edits[k] == c.top_edit(layer, input.tops[k - nl]));
    }
}

#[verifier::spinoff_prover]
proof fn wires_come_out(
    c: ConverterView,
    layer: ValidMetalLayer,
    periodnum: int,
    span: int,
    input: PeriodInput,
    spec: TrackSpec,
    signal: Option<int>,
    rail: int,
)
    requires
        c.period_ready(layer, periodnum, span, input),
        c.period_outcome(layer, periodnum, span, input) is Ok,
        match signal {
            Some(s) => 0 <= s < layer.period.signals@.len() && spec == layer.period.signals@[s],
            None => 0 <= rail < layer.period.rails@.len() && spec == layer.period.rails@[rail],
        },
    ensures
        ({
            let p = apply_all(layer.layer_period(periodnum, span), c.edits(layer, input))->Ok_0;
            parts(c, layer, periodnum, span, input).wires_are(spec, signal, wires(p, signal, rail))
        }),
{
    let blank = layer.layer_period(periodnum, span);
    let edits = c.edits(layer, input);
    let p = apply_all(blank, edits)->Ok_0;
    let t = parts(c, layer, periodnum, span, input);
    let n = edits.len() as int;
    let m = (input.blockages.len() + input.cuts.len()) as int;
    let net = spec.net.deep_view();
    let segs = wires(p, signal, rail);
    let old = wires(blank, signal, rail);
    edits_are_in_range(c, layer, periodnum, span, input);
    assert(edits.take(n) =~= edits);
    assert(old == seq![SegmentView { net, start: 0, stop: span }]);
    assert forall|k: int| 0 <= k < n implies {
        let landings = t.landings();
        &&& landings.len() == n - m
        &&& k < m ==> !((#[trigger] edits[k]) is Land) && !(edits[k] is Fail)
        &&& k >= m ==> edits[k] is Land && landings[k - m] == (
            edits[k]->Land_signal,
            edits[k]->dist,
            edits[k]->net,
        )
    } by {
        edits_cut_and_land(c, layer, periodnum, span, input, k);
    }
    edits_take_out_their_units(blank, edits, n, signal, rail);
    if n > m {
        assert(edits[m] is Land);
    }
    apply_all_keeps_clear(blank, edits, m, n, 0, 0);
    carving_keeps_nets(blank, edits, m, signal, rail, net);
    landings_set_nets(blank, edits, t.landings(), m, n, signal, rail, net);
    assert forall|x: int| #[trigger] wire_on(segs, x) <==> 0 <= x < t.span && !t.gone(signal, x) by {
        taken_out_is_gone(c, layer, periodnum, span, input, n, signal, x);
        if 0 <= x < span {
            assert(old[0].start <= x < old[0].stop);
        }
    }
    if forall|x: int| !t.gone(signal, x) {
        assert forall|k: int| 0 <= k < m implies !cuts_into(#[trigger] edits[k], signal) by {
            if cuts_into(edits[k], signal) {
                let x = region(edits[k]).0;
                assert(taken_out(edits, n, signal, x));
                taken_out_is_gone(c, layer, periodnum, span, input, n, signal, x);
            }
        }
    }
}

proof fn tracks_are_drawn(
    c: ConverterView,
    layer: ValidMetalLayer,
    offset: int,
    specs: Seq<TrackSpec>,
    tracks: Seq<TrackView>,
)
    requires
        specs.len() == tracks.len(),
        forall|k: int|
            0 <= k < tracks.len() ==> {
                let track = #[trigger] tracks[k];
                &&& track.dir == layer.spec.dir
                &&& track.start == offset + specs[k].start.0
                &&& track.width == specs[k].width.0
            },
    ensures
        c.tracks_elements(layer.index as int, tracks) == drawn(
            c.keys[layer.index as int],
            layer.spec.dir,
            offset,
            specs,
            tracks.map_values(|t: TrackView| t.segments),
        ),
    decreases tracks.len(),
{
    let index = layer.index as int;
    let segs = tracks.map_values(|t: TrackView| t.segments);
    if tracks.len() > 0 {
        let front = tracks.drop_last();
        assert forall|k: int| 0 <= k < front.len() implies {
            let track = #[trigger] front[k];
            &&& track.dir == layer.spec.dir
            &&& track.start == offset + specs.drop_last()[k].start.0
            &&& track.width == specs.drop_last()[k].width.0
        } by {
            assert(front[k] == tracks[k]);
        }
        tracks_are_drawn(c, layer, offset, specs.drop_last(), front);
        assert(segs.drop_last() =~= front.map_values(|t: TrackView| t.segments));
        let track = tracks.last();
        assert(track == tracks[tracks.len() - 1]);
        let start = offset + specs.last().start.0;
        let stop = start + specs.last().width.0;
        assert(c.track_elements(index, track) =~= segs.last().map_values(
            |seg: SegmentView|
                metal(
                    c.keys[index],
                    seg.net,
                    rectangle(layer.spec.dir, seg.start, seg.stop, start, stop),
                ),
        ));
    }
}

/// What comes out of a period that can be converted.
pub proof fn period_comes_out(
    c: ConverterView,
    layer: ValidMetalLayer,
    periodnum: int,
    span: int,
    input: PeriodInput,
)
    requires
        c.period_ready(layer, periodnum, span, input),
        c.period_outcome(layer, periodnum, span, input) is Ok,
    ensures
        parts(c, layer, periodnum, span, input).shapes_are(
            c.period_outcome(layer, periodnum, span, input)->Ok_0,
        ),
{
    let blank = layer.layer_period(periodnum, span);
    let edits = c.edits(layer, input);
    let p = apply_all(blank, edits)->Ok_0;
    let t = parts(c, layer, periodnum, span, input);
    let shapes = c.period_outcome(layer, periodnum, span, input)->Ok_0;
    let offset = layer.pitch.0 * periodnum;
    edits_are_in_range(c, layer, periodnum, span, input);
    assert(edits.take(edits.len() as int) =~= edits);
    apply_all_keeps_tracks(blank, edits, edits.len() as int);
    let rails = p.rails.map_values(|t: TrackView| t.segments);
    let signals = p.signals.map_values(|t: TrackView| t.segments);
    assert forall|k: int| 0 <= k < rails.len() implies t.wires_are(
        layer.period.rails@[k],
        None,
        #[trigger] rails[k],
    ) by {
        wires_come_out(c, layer, periodnum, span, input, layer.period.rails@[k], None, k);
    }
    assert forall|k: int| 0 <= k < signals.len() implies t.wires_are(
        layer.period.signals@[k],
        Some(k),
        #[trigger] signals[k],
    ) by {
        wires_come_out(c, layer, periodnum, span, input, layer.period.signals@[k], Some(k), 0);
    }
    assert forall|k: int| 0 <= k < p.rails.len() implies {
        let track = #[trigger] p.rails[k];
        &&& track.dir == layer.spec.dir
        &&& track.start == offset + layer.period.rails@[k].start.0
        &&& track.width == layer.period.rails@[k].width.0
    } by {
        assert(p.rails[k].start == blank.rails[k].start);
    }
    assert forall|k: int| 0 <= k < p.signals.len() implies {
        let track = #[trigger] p.signals[k];
        &&& track.dir == layer.spec.dir
        &&& track.start == offset + layer.period.signals@[k].start.0
        &&& track.width == layer.period.signals@[k].width.0
    } by {
        assert(p.signals[k].start == blank.signals[k].start);
    }
    tracks_are_drawn(c, layer, offset, layer.period.rails@, p.rails);
    tracks_are_drawn(c, layer, offset, layer.period.signals@, p.signals);
    assert(c.via_elements(layer.index as int, input.bots) =~= t.bots.map_values(
        |a: ValidAssign| t.via_of(a),
    ));
    assert(t.made_of(rails, signals, shapes));
}

/// The values of results none of which is an error.
pub open spec fn values<T>(results: Seq<LayoutResult<T>>) -> Seq<T> {
    results.map_values(|r: LayoutResult<T>| r->Ok_0)
}

/// The shapes of `groups`, one group after the other.
pub open spec fn joined(groups: Seq<Seq<ElementView>>) -> Seq<ElementView>
    decreases groups.len(),
{
    if groups.len() == 0 {
        seq![]
    } else {
        joined(groups.drop_last()) + groups.last()
    }
}

/// The outline of what an instance is of.
pub open spec fn outline_of(lib: Library, inst: Instance) -> Outline {
    if inst.cell is Cell {
        lib.cells@[inst.cell->Cell_0.index as int].outline
    } else {
        lib.abstracts@[inst.cell->Abstract_0.index as int].outline
    }
}

/// The number of metal layers of what an instance is of.
pub open spec fn height_of(lib: Library, inst: Instance) -> int {
    if inst.cell is Cell {
        lib.cells@[inst.cell->Cell_0.index as int].top_layer as int
    } else {
        lib.abstracts@[inst.cell->Abstract_0.index as int].top_layer as int
    }
}

/// The region that an instance takes up in direction `dir`, in database units.
pub open spec fn taken_up(stack: ValidStack, lib: Library, inst: Instance, dir: Dir) -> (int, int) {
    let outline = outline_of(lib, inst);
    let (loc, size) = if dir is Horiz {
        (inst.loc.x, outline.x@.first())
    } else {
        (inst.loc.y, outline.y@.last())
    };
    (loc.num * pitch(stack, loc.dir), (loc.num + size.num) * pitch(stack, loc.dir))
}

/// Whether an instance comes up to `layer` and overlaps its period number `periodnum`. Touching
/// edge-to-edge is not overlapping.
pub open spec fn in_the_way(
    stack: ValidStack,
    lib: Library,
    inst: Instance,
    layer: ValidMetalLayer,
    periodnum: int,
) -> bool {
    let outline = outline_of(lib, inst);
    let (loc, size) = if layer.spec.dir is Horiz {
        (inst.loc.y, outline.y@.last())
    } else {
        (inst.loc.x, outline.x@.first())
    };
    let from = loc.num * pitch(stack, loc.dir);
    let to = from + size.num * pitch(stack, size.dir);
    &&& height_of(lib, inst) >= layer.index
    &&& from < layer.pitch.0 * periodnum + layer.pitch.0
    &&& layer.pitch.0 * periodnum < to
}

/// Whether a location is on a signal track of period number `periodnum` of `layer`.
pub open spec fn located_in(layer: ValidMetalLayer, periodnum: int, loc: ValidTrackLoc) -> bool {
    let n = layer.period.signals@.len() as int;
    loc.layer == layer.index && n > 0 && loc.track as int / n == periodnum
}

/// What period number `periodnum` of metal layer `layernum` of a cell is made from.
pub open spec fn cell_parts(
    c: ConverterView,
    cell: Cell,
    layernum: int,
    periodnum: int,
) -> PeriodParts {
    let layer = c.stack.metals@[layernum];
    PeriodParts {
        layer,
        key: c.keys[layer.index as int],
        via: c.stack.vias@[layer.index as int],
        periodnum,
        span: if layer.spec.dir is Horiz {
            distance(c.stack, cell.outline.x@[0])
        } else {
            distance(c.stack, cell.outline.y@[0])
        },
        blocked: cell.instances@.filter(
            |inst: Instance| in_the_way(c.stack, c.lib, inst, layer, periodnum),
        ).map_values(|inst: Instance| taken_up(c.stack, c.lib, inst, layer.spec.dir)),
        cuts: values(cell.cuts@).filter(|cut: ValidTrackLoc| located_in(layer, periodnum, cut)),
        bots: values(cell.assignments@).filter(
            |a: ValidAssign| located_in(layer, periodnum, a.bot),
        ),
        tops: values(cell.assignments@).filter(
            |a: ValidAssign| located_in(layer, periodnum, a.top),
        ),
    }
}

pub(crate) proof fn filter_twice<T>(
    s: Seq<T>,
    f: spec_fn(T) -> bool,
    g: spec_fn(T) -> bool,
    both: spec_fn(T) -> bool,
)
    requires
        forall|x: T| #[trigger] both(x) <==> f(x) && g(x),
    ensures
        s.filter(f).filter(g) == s.filter(both),
    decreases s.len(),
{
    reveal(Seq::filter);
    if s.len() > 0 {
        let front = s.drop_last();
        filter_twice(front, f, g, both);
        let kept = front.filter(f);
        assert(both(s.last()) <==> f(s.last()) && g(s.last()));
        assert(kept.push(s.last()).drop_last() =~= kept);
    }
}

pub(crate) proof fn map_filter_map<A, B, C>(
    s: Seq<A>,
    f: spec_fn(A) -> B,
    g: spec_fn(B) -> bool,
    h: spec_fn(B) -> C,
    keep: spec_fn(A) -> bool,
    value: spec_fn(A) -> C,
)
    requires
        forall|i: int| 0 <= i < s.len() ==> g(f(#[trigger] s[i])) == keep(s[i]),
        forall|i: int| 0 <= i < s.len() && keep(#[trigger] s[i]) ==> h(f(s[i])) == value(s[i]),
    ensures
        s.map_values(f).filter(g).map_values(h) == s.filter(keep).map_values(value),
    decreases s.len(),
{
    reveal(Seq::filter);
    if s.len() > 0 {
        let front = s.drop_last();
        assert forall|i: int| 0 <= i < front.len() implies g(f(#[trigger] front[i])) == keep(
            front[i],
        ) && (keep(front[i]) ==> h(f(front[i])) == value(front[i])) by {
            assert(front[i] == s[i]);
        }
        map_filter_map(front, f, g, h, keep, value);
        let last = s[s.len() - 1];
        assert(s.map_values(f).drop_last() =~= front.map_values(f));
        let kept = front.map_values(f).filter(g);
        if keep(last) {
            assert(kept.push(f(last)).map_values(h) =~= kept.map_values(h).push(h(f(last))));
            assert(front.filter(keep).push(last).map_values(value) =~= front.filter(
                keep,
            ).map_values(value).push(value(last)));
        }
    } else {
        assert(s.map_values(f).filter(g).map_values(h) =~= s.filter(keep).map_values(value));
    }
}

pub(crate) proof fn period_of_track(layer: ValidMetalLayer, periodnum: int, track: int)
    ensures
        in_period(layer, periodnum, track) <==> layer.period.signals@.len() > 0 && track / (
        layer.period.signals@.len() as int) == periodnum,
{
    let n = layer.period.signals@.len() as int;
    if n > 0 {
        track_is_in_one_period(layer, periodnum, track);
    } else {
        assert(periodnum * n == 0 && (periodnum + 1) * n == 0) by (nonlinear_arith)
            requires
                n == 0,
        ;
    }
}

proof fn assigns_of_period(
    assigns: Seq<ValidAssign>,
    layer: ValidMetalLayer,
    periodnum: int,
)
    ensures
        present(assigns.filter(bot_on_layer(layer.index as int))).filter(
            bot_in_period(layer, periodnum),
        ).map_values(|a: Option<ValidAssign>| a->0) == assigns.filter(
            |a: ValidAssign| located_in(layer, periodnum, a.bot),
        ),
        present(assigns.filter(top_on_layer(layer.index as int))).filter(
            top_in_period(layer, periodnum),
        ).map_values(|a: Option<ValidAssign>| a->0) == assigns.filter(
            |a: ValidAssign| located_in(layer, periodnum, a.top),
        ),
{
    let value = |a: Option<ValidAssign>| a->0;
    let id = |a: ValidAssign| a;
    let some = |a: ValidAssign| Some(a);
    let bots = assigns.filter(bot_on_layer(layer.index as int));
    let in_bot = |a: ValidAssign| in_period(layer, periodnum, a.bot.track as int);
    map_filter_map(bots, some, bot_in_period(layer, periodnum), value, in_bot, id);
    assert(bots.filter(in_bot).map_values(id) =~= bots.filter(in_bot));
    let at_bot = |a: ValidAssign| located_in(layer, periodnum, a.bot);
    assert forall|a: ValidAssign| #[trigger] at_bot(a) <==> bot_on_layer(layer.index as int)(a)
        && in_bot(a) by {
        period_of_track(layer, periodnum, a.bot.track as int);
    }
    filter_twice(assigns, bot_on_layer(layer.index as int), in_bot, at_bot);
    let tops = assigns.filter(top_on_layer(layer.index as int));
    let in_top = |a: ValidAssign| in_period(layer, periodnum, a.top.track as int);
    map_filter_map(tops, some, top_in_period(layer, periodnum), value, in_top, id);
    assert(tops.filter(in_top).map_values(id) =~= tops.filter(in_top));
    let at_top = |a: ValidAssign| located_in(layer, periodnum, a.top);
    assert forall|a: ValidAssign| #[trigger] at_top(a) <==> top_on_layer(layer.index as int)(a)
        && in_top(a) by {
        period_of_track(layer, periodnum, a.top.track as int);
    }
    filter_twice(assigns, top_on_layer(layer.index as int), in_top, at_top);
}

proof fn blocked_of_period(c: ConverterView, cell: Cell, layernum: int, periodnum: int)
    requires
        c.arrange_error(cell) is None,
        c.cell_period_ready(cell, layernum, periodnum),
    ensures
        ({
            let layer = c.stack.metals@[layernum];
            let input = c.cell_period_input(cell, layernum, periodnum);
            parts(c, layer, periodnum, 0, input).blocked == cell_parts(
                c,
                cell,
                layernum,
                periodnum,
            ).blocked
        }),
{
    let layer = c.stack.metals@[layernum];
    let dir = layer.spec.dir;
    let insts = cell.instances@;
    let input = c.cell_period_input(cell, layernum, periodnum);
    let place = |inst: Instance| c.place(inst);
    let up = up_to_layer(layer.index as int);
    let over = c.overlapping(layer, periodnum);
    let both = |p: Placed| up(p) && over(p);
    let region = |p: Placed|
        (
            distance(c.stack, blocked_region(p, dir).0),
            distance(c.stack, blocked_region(p, dir).1),
        );
    let keep = |inst: Instance| in_the_way(c.stack, c.lib, inst, layer, periodnum);
    let value = |inst: Instance| taken_up(c.stack, c.lib, inst, dir);
    let placed = c.place_all(insts);
    filter_twice(placed, up, over, both);
    assert(layer.pitch.0 * (periodnum + 1) == layer.pitch.0 * periodnum + layer.pitch.0)
        by (nonlinear_arith);
    assert forall|i: int| 0 <= i < insts.len() implies {
        &&& both(place(#[trigger] insts[i])) == keep(insts[i])
        &&& keep(insts[i]) ==> region(place(insts[i])) == value(insts[i])
    } by {
        assert(!(insts[i].cell is Name));
        let p = c.place(insts[i]);
        assert(placed[i] == p);
        if both(p) {
            filter_contains(placed, up, p);
            let tall = placed.filter(up);
            assert(placed.contains(p));
            let k = choose|k: int| 0 <= k < tall.len() && tall[k] == p;
            assert(c.blockage_ready(tall[k], layer, periodnum));
        }
    }
    map_filter_map(insts, place, both, region, keep, value);
    let t = parts(c, layer, periodnum, 0, input);
    assert(t.blocked =~= placed.filter(both).map_values(region));
    assert(t.blocked =~= cell_parts(c, cell, layernum, periodnum).blocked);
}

pub(crate) proof fn parts_of_cell(c: ConverterView, cell: Cell, layernum: int, periodnum: int)
    requires
        c.arrange_error(cell) is None,
        c.cell_period_ready(cell, layernum, periodnum),
    ensures
        ({
            let layer = c.stack.metals@[layernum];
            parts(
                c,
                layer,
                periodnum,
                c.layer_span(layer, cell.outline),
                c.cell_period_input(cell, layernum, periodnum),
            ) == cell_parts(c, cell, layernum, periodnum)
        }),
{
    let layer = c.stack.metals@[layernum];
    blocked_of_period(c, cell, layernum, periodnum);
    assert(accepted(cell.cuts@) =~= values(cell.cuts@));
    assert(accepted(cell.assignments@) =~= values(cell.assignments@));
    assigns_of_period(values(cell.assignments@), layer, periodnum);
    let at = |cut: ValidTrackLoc| located_in(layer, periodnum, cut);
    assert forall|cut: ValidTrackLoc| #[trigger] at(cut) <==> on_layer(layer.index as int)(cut)
        && cut_in_period(layer, periodnum)(cut) by {
        period_of_track(layer, periodnum, cut.track as int);
    }
    filter_twice(
        values(cell.cuts@),
        on_layer(layer.index as int),
        cut_in_period(layer, periodnum),
        at,
    );
}

/// Whether `elem` is the boundary `outline`: the closed polygon that runs from the origin, for each
/// pair of coordinates, along the horizontal axis to the one and up to the other, and in the end
/// back to the vertical axis.
pub open spec fn outline_is(
    stack: ValidStack,
    boundary: LayerKey,
    outline: Outline,
    elem: ElementView,
) -> bool {
    let n = outline.x@.len() as int;
    &&& elem.net is None
    &&& elem.layer == boundary
    &&& elem.purpose is Outline
    &&& elem.inner matches ShapeView::Poly { pts } && {
        &&& pts.len() == 2 * n + 2
        &&& pts[0] == (0int, 0int)
        &&& n > 0 ==> pts[1].1 == 0
        &&& forall|i: int|
            0 <= i < n ==> {
                &&& pts[2 * i + 1].0 == distance(stack, #[trigger] outline.x@[i])
                &&& pts[2 * i + 2].0 == distance(stack, outline.x@[i])
                &&& pts[2 * i + 2].1 == distance(stack, outline.y@[i])
                &&& pts[2 * i + 3].1 == distance(stack, outline.y@[i])
            }
        &&& pts.last().0 == 0
        &&& n == 0 ==> pts.last().1 == 0
    }
}

/// What comes out of an outline.
pub proof fn outline_comes_out(c: ConverterView, outline: Outline)
    ensures
        outline_is(c.stack, c.boundary, outline, c.outline_element(outline)),
{
    let n = outline.x@.len() as int;
    let pts = c.corners(outline);
    assert forall|i: int| 0 <= i < n implies {
        &&& pts[2 * i + 1].0 == distance(c.stack, #[trigger] outline.x@[i])
        &&& pts[2 * i + 2].0 == distance(c.stack, outline.x@[i])
        &&& pts[2 * i + 2].1 == distance(c.stack, outline.y@[i])
        &&& pts[2 * i + 3].1 == distance(c.stack, outline.y@[i])
    } by {
        assert((2 * i + 1 - 1) / 2 == i);
        assert((2 * i + 2 - 1) / 2 == i);
        assert((2 * i + 2 - 2) / 2 == i);
        assert((2 * i + 3 - 2) / 2 == i);
    }
}

/// Whether `out` is instance `inst`, with its location in database units.
pub open spec fn instance_is(stack: ValidStack, inst: Instance, out: InstanceView) -> bool {
    &&& out.inst_name == inst.inst_name@
    &&& out.cell_name == inst.cell_name@
    &&& out.cell == inst.cell
    &&& out.p0.0 == distance(stack, inst.loc.x)
    &&& out.p0.1 == distance(stack, inst.loc.y)
    &&& out.reflect == inst.reflect
    &&& out.angle == inst.angle
}

/// Whether `groups` are the shapes of the periods of the metal layers of a cell: as many layers as
/// it uses, and as many periods of each as fill it.
pub open spec fn groups_are(
    c: ConverterView,
    cell: Cell,
    groups: Seq<Seq<Seq<ElementView>>>,
) -> bool {
    &&& groups.len() == cell.top_layer
    &&& forall|l: int|
        0 <= l < groups.len() ==> {
            let breadth = if c.stack.metals@[l].spec.dir is Horiz {
                distance(c.stack, cell.outline.y@[0])
            } else {
                distance(c.stack, cell.outline.x@[0])
            };
            (#[trigger] groups[l]).len() * c.stack.metals@[l].pitch.0 == breadth
        }
    &&& forall|l: int, p: int|
        0 <= l < groups.len() && 0 <= p < groups[l].len() ==> cell_parts(c, cell, l, p).shapes_are(
            #[trigger] groups[l][p],
        )
}

/// Whether `out` is `cell`: its shapes layer by layer, from the lowest, and period by period; then
/// its outline; and its instances.
pub open spec fn cell_is(c: ConverterView, cell: Cell, out: CellView) -> bool {
    &&& out.name == cell.name@
    &&& out.insts.len() == cell.instances@.len()
    &&& forall|i: int|
        0 <= i < out.insts.len() ==> instance_is(
            c.stack,
            cell.instances@[i],
            #[trigger] out.insts[i],
        )
    &&& out.elems.len() > 0
    &&& outline_is(c.stack, c.boundary, cell.outline, out.elems.last())
    &&& exists|groups: Seq<Seq<Seq<ElementView>>>| #[trigger]
        groups_are(c, cell, groups) && out.elems.drop_last() == joined(
            groups.map_values(|g: Seq<Seq<ElementView>>| joined(g)),
        )
}

proof fn periods_come_out(c: ConverterView, cell: Cell, l: int, n: int) -> (groups: Seq<
    Seq<ElementView>,
>)
    requires
        c.arrange_error(cell) is None,
        c.cell_layer_ready(cell, l),
        0 <= n <= c.nperiods(c.stack.metals@[l], cell.outline),
        c.cell_periods(cell, l, n) is Ok,
    ensures
        groups.len() == n,
        joined(groups) == c.cell_periods(cell, l, n)->Ok_0,
        forall|p: int|
            0 <= p < n ==> cell_parts(c, cell, l, p).shapes_are(#[trigger] groups[p]),
    decreases n,
{
    if n == 0 {
        Seq::empty()
    } else {
        let front = periods_come_out(c, cell, l, n - 1);
        let layer = c.stack.metals@[l];
        let shapes = c.cell_period(cell, l, n - 1)->Ok_0;
        assert(c.cell_period_ready(cell, l, n - 1));
        parts_of_cell(c, cell, l, n - 1);
        period_comes_out(
            c,
            layer,
            n - 1,
            c.layer_span(layer, cell.outline),
            c.cell_period_input(cell, l, n - 1),
        );
        let groups = front.push(shapes);
        assert(groups.drop_last() =~= front);
        groups
    }
}

proof fn layers_come_out(c: ConverterView, cell: Cell, n: int) -> (groups: Seq<
    Seq<Seq<ElementView>>,
>)
    requires
        cell.outline.x@.len() <= 1,
        c.arrange_error(cell) is None,
        c.cell_ready(cell),
        0 <= n <= cell.top_layer,
        c.cell_layers(cell, n) is Ok,
    ensures
        groups.len() == n,
        joined(groups.map_values(|g: Seq<Seq<ElementView>>| joined(g))) == c.cell_layers(
            cell,
            n,
        )->Ok_0,
        forall|l: int|
            0 <= l < n ==> c.layer_ready(#[trigger] c.stack.metals@[l], cell.outline),
        forall|l: int|
            0 <= l < n ==> (#[trigger] groups[l]).len() == c.nperiods(
                c.stack.metals@[l],
                cell.outline,
            ),
        forall|l: int, p: int|
            0 <= l < n && 0 <= p < groups[l].len() ==> cell_parts(c, cell, l, p).shapes_are(
                #[trigger] groups[l][p],
            ),
    decreases n,
{
    if n == 0 {
        let groups = Seq::<Seq<Seq<ElementView>>>::empty();
        assert(groups.map_values(|g: Seq<Seq<ElementView>>| joined(g)).len() == 0);
        groups
    } else {
        let front = layers_come_out(c, cell, n - 1);
        assert(c.cell_layer_ready(cell, n - 1));
        let layer = c.stack.metals@[n - 1];
        let last = periods_come_out(c, cell, n - 1, c.nperiods(layer, cell.outline));
        let groups = front.push(last);
        assert(groups.map_values(|g: Seq<Seq<ElementView>>| joined(g)).drop_last()
            =~= front.map_values(|g: Seq<Seq<ElementView>>| joined(g)));
        assert forall|l: int, p: int| 0 <= l < n && 0 <= p < groups[l].len() implies cell_parts(
            c,
            cell,
            l,
            p,
        ).shapes_are(#[trigger] groups[l][p]) by {
            if l < n - 1 {
                assert(groups[l] == front[l]);
                assert(cell_parts(c, cell, l, p).shapes_are(front[l][p]));
            } else {
                assert(cell_parts(c, cell, l, p).shapes_are(last[p]));
            }
        }
        assert forall|l: int| 0 <= l < n implies (#[trigger] groups[l]).len() == c.nperiods(
            c.stack.metals@[l],
            cell.outline,
        ) by {
            if l < n - 1 {
                assert(groups[l] == front[l]);
            }
        }
        groups
    }
}

/// What comes out of a cell that can be converted.
pub proof fn cell_comes_out(c: ConverterView, cell: Cell)
    requires
        c.cell_ready(cell),
        c.cell_outcome(cell) is Ok,
    ensures
        cell_is(c, cell, c.cell_outcome(cell)->Ok_0),
{
    let out = c.cell_outcome(cell)->Ok_0;
    let groups = layers_come_out(c, cell, cell.top_layer as int);
    outline_comes_out(c, cell.outline);
    assert forall|l: int| 0 <= l < groups.len() implies {
        let breadth = if c.stack.metals@[l].spec.dir is Horiz {
            distance(c.stack, cell.outline.y@[0])
        } else {
            distance(c.stack, cell.outline.x@[0])
        };
        (#[trigger] groups[l]).len() * c.stack.metals@[l].pitch.0 == breadth
    } by {
        let layer = c.stack.metals@[l];
        assert(groups[l].len() == c.nperiods(layer, cell.outline));
        periods_fill_the_cell(c, layer, cell.outline);
        lemma_mul_is_commutative(layer.pitch.0 as int, c.nperiods(layer, cell.outline));
    }
    assert(groups_are(c, cell, groups));
    assert(out.elems.drop_last() =~= c.cell_layers(cell, cell.top_layer as int)->Ok_0);
}

/// Whether `elem` is port `port` of `abs`: a shape on its net, as wide as the signal track that it
/// is on, on the layer of that track. It reaches 100 units in from the edge that it lies on.
pub open spec fn port_is(c: ConverterView, abs: Abstract, port: Port, elem: ElementView) -> bool {
    port.kind matches PortKind::Edge { layer, track, side } && {
        let metals = c.stack.metals@[layer as int];
        let signals = metals.period.signals@;
        let n = signals.len() as int;
        let start = metals.pitch.0 * (track as int / n) + signals[track as int % n].start.0;
        let stop = start + signals[track as int % n].width.0;
        let dir = metals.spec.dir;
        let size = if dir is Horiz {
            distance(c.stack, abs.outline.x@.first())
        } else {
            distance(c.stack, abs.outline.y@.last())
        };
        let shape = if side is BottomOrLeft {
            rectangle(dir, 0, 100, start, stop)
        } else {
            rectangle(dir, size - 100, size, start, stop)
        };
        elem == metal(c.keys[layer as int], Some(port.name@), shape)
    }
}

/// Whether `out` is `abs`: its outline, and then its ports.
pub open spec fn abstract_is(c: ConverterView, abs: Abstract, out: CellView) -> bool {
    &&& out.name == abs.name@
    &&& out.insts.len() == 0
    &&& out.elems.len() == abs.ports@.len() + 1
    &&& outline_is(c.stack, c.boundary, abs.outline, out.elems[0])
    &&& forall|i: int|
        0 <= i < abs.ports@.len() ==> port_is(
            c,
            abs,
            #[trigger] abs.ports@[i],
            out.elems[i + 1],
        )
}

proof fn port_comes_out(c: ConverterView, abs: Abstract, port: Port)
    requires
        c.port_ready(abs, port),
    ensures
        port_is(c, abs, port, c.port_element(abs, port)),
{
    let layer = c.stack.metals@[port.kind->Edge_layer as int];
    let track = port.kind->Edge_track as int;
    let n = layer.period.signals@.len() as int;
    let spec = layer.period.signals@[track % n];
    assert(layer.signal_start(track) == layer.pitch.0 * (track / n) + spec.start.0);
    assert(layer.signal_stop(track) == layer.signal_start(track) + spec.width.0);
}

/// What comes out of an abstract that can be converted.
#[verifier::spinoff_prover]
pub proof fn abstract_comes_out(c: ConverterView, abs: Abstract)
    requires
        c.abstract_ready(abs),
    ensures
        abstract_is(c, abs, c.abstract_cell(abs)),
{
    let out = c.abstract_cell(abs);
    outline_comes_out(c, abs.outline);
    assert forall|i: int| 0 <= i < abs.ports@.len() implies port_is(
        c,
        abs,
        #[trigger] abs.ports@[i],
        out.elems[i + 1],
    ) by {
        port_comes_out(c, abs, abs.ports@[i]);
        assert(out.elems[i + 1] == c.port_element(abs, abs.ports@[i]));
    }
}

/// The abstracts of `lib` that have the name of none of its cells.
pub open spec fn without_cell(lib: Library) -> Seq<Abstract> {
    lib.abstracts@.filter(
        |abs: Abstract|
            forall|i: int|
                0 <= i < lib.cells@.len() ==> (#[trigger] lib.cells@[i]).name@ != abs.name@,
    )
}

/// Whether `out` is the library: its cells, and then its abstracts, but for those that have the
/// name of a cell. It has the library's name, and the units of the stack.
pub open spec fn library_is(c: ConverterView, out: LibraryView) -> bool {
    let n = c.lib.cells@.len();
    let abstracts = without_cell(c.lib);
    &&& out.name == c.lib.name@
    &&& out.units == c.stack.units
    &&& out.layers == c.layers
    &&& out.cells.len() == n + abstracts.len()
    &&& forall|i: int|
        0 <= i < n ==> cell_is(c, #[trigger] c.lib.cells@[i], out.cells[i])
    &&& forall|i: int|
        0 <= i < abstracts.len() ==> abstract_is(c, #[trigger] abstracts[i], out.cells[n + i])
}

/// What comes out of a library that can be converted.
#[verifier::spinoff_prover]
pub proof fn library_comes_out(c: ConverterView)
    requires
        c.lib_ready(),
        c.lib_outcome() is Ok,
    ensures
        library_is(c, c.lib_outcome()->Ok_0),
{
    let out = c.lib_outcome()->Ok_0;
    let n = c.lib.cells@.len() as int;
    let all = c.lib.abstracts@;
    let abstracts = without_cell(c.lib);
    filter_twice(
        all,
        |abs: Abstract| true,
        unimplemented(c.lib),
        |abs: Abstract|
            forall|i: int|
                0 <= i < c.lib.cells@.len() ==> (#[trigger] c.lib.cells@[i]).name@ != abs.name@,
    );
    filter_everything(all);
    if n > 0 {
        cells_are_converted_in_order(c, n, 0);
    }
    assert forall|i: int| 0 <= i < n implies cell_is(
        c,
        #[trigger] c.lib.cells@[i],
        out.cells[i],
    ) by {
        cells_are_converted_in_order(c, n, i);
        if c.cells_outcome(i) is Err {
            c.cells_fail_early(i, n);
        }
        assert(c.cell_ready(c.lib.cells@[i]));
        cell_comes_out(c, c.lib.cells@[i]);
    }
    assert forall|i: int| 0 <= i < abstracts.len() implies abstract_is(
        c,
        #[trigger] abstracts[i],
        out.cells[n + i],
    ) by {
        assert(abstracts.contains(abstracts[i]));
        filter_contains(all, unimplemented(c.lib), abstracts[i]);
        let k = choose|k: int| 0 <= k < all.len() && all[k] == abstracts[i];
        assert(c.abstract_ready(all[k]));
        abstract_comes_out(c, abstracts[i]);
    }
}

proof fn filter_everything<T>(s: Seq<T>)
    ensures
        s.filter(|x: T| true) == s,
    decreases s.len(),
{
    reveal(Seq::filter);
    if s.len() > 0 {
        filter_everything(s.drop_last());
    }
}

/// Whether `c` is a converter for `lib` on `stack`: it has a raw layer for each metal layer, in
/// order, and then the boundary layer; and its keys find them.
pub open spec fn converter_is(
    lib: Library,
    stack: ValidStack,
    c: ConverterView,
) -> bool {
    let n = stack.metals@.len();
    &&& c.lib == lib
    &&& c.stack == stack
    &&& c.layers.len() == n + 1
    &&& c.keys.len() == n
    &&& forall|i: int|
        0 <= i < n ==> {
            &&& Some(c.layers[i]) == stack.metals@[i].spec.raw
            &&& (#[trigger] c.keys[i]).index < c.layers.len()
            &&& Some(c.layers[c.keys[i].index as int]) == stack.metals@[i].spec.raw
        }
    &&& forall|i: int, j: int| 0 <= i < j < n ==> c.keys[i] != c.keys[j]
    &&& Some(c.layers[n as int]) == stack.boundary_layer
    &&& c.boundary.index < c.layers.len()
    &&& Some(c.layers[c.boundary.index as int]) == stack.boundary_layer
    &&& forall|i: int| 0 <= i < n ==> #[trigger] c.keys[i] != c.boundary
}

/// What the converter for a library is, if every metal layer and the boundary have a raw layer.
pub proof fn converter_comes_out(lib: Library, stack: ValidStack)
    requires
        forall|i: int|
            0 <= i < stack.metals@.len() ==> (#[trigger] stack.metals@[i]).spec.raw is Some,
        stack.boundary_layer is Some,
        stack.metals@.len() <= usize::MAX,
    ensures
        converter_is(lib, stack, converter(lib, stack)),
{
    let c = converter(lib, stack);
    assert forall|i: int| 0 <= i < stack.metals@.len() implies {
        &&& Some(c.layers[i]) == stack.metals@[i].spec.raw
        &&& (#[trigger] c.keys[i]).index < c.layers.len()
        &&& Some(c.layers[c.keys[i].index as int]) == stack.metals@[i].spec.raw
    } by {
        assert(stack.metals@[i].spec.raw is Some);
    }
}

/// The via of an assignment is as large in each direction as the via layer says, less one unit
/// where that is odd.
pub proof fn via_is_as_large_as_its_layer_says(
    c: ConverterView,
    layer: ValidMetalLayer,
    periodnum: int,
    span: int,
    input: PeriodInput,
    i: int,
)
    requires
        c.period_ready(layer, periodnum, span, input),
        c.period_outcome(layer, periodnum, span, input) is Ok,
        0 <= i < input.bots.len(),
    ensures
        ({
            let via = c.period_outcome(layer, periodnum, span, input)->Ok_0[i];
            let size = c.stack.vias@[layer.index as int].size;
            via.inner matches ShapeView::Rect { p0, p1 } && {
                &&& size.x.0 >= 0 ==> p1.0 - p0.0 == size.x.0 - size.x.0 as int % 2
                &&& size.y.0 >= 0 ==> p1.1 - p0.1 == size.y.0 - size.y.0 as int % 2
            }
        }),
{
    let t = parts(c, layer, periodnum, span, input);
    let shapes = c.period_outcome(layer, periodnum, span, input)->Ok_0;
    period_comes_out(c, layer, periodnum, span, input);
    let (rails, signals) = choose|
        rails: Seq<Seq<SegmentView>>,
        signals: Seq<Seq<SegmentView>>,
    | #[trigger] t.made_of(rails, signals, shapes);
    assert(t.made_of(rails, signals, shapes));
    assert(t.bots.map_values(|a: ValidAssign| t.via_of(a))[i] == t.via_of(t.bots[i]));
    assert(shapes[i] == t.via_of(t.bots[i]));
}

proof fn wire_is_drawn(
    key: LayerKey,
    dir: Dir,
    offset: int,
    tracks: Seq<TrackSpec>,
    segs: Seq<Seq<SegmentView>>,
    k: int,
    i: int,
)
    requires
        tracks.len() == segs.len(),
        0 <= k < segs.len(),
        0 <= i < segs[k].len(),
    ensures
        ({
            let start = offset + tracks[k].start.0;
            let seg = segs[k][i];
            drawn(key, dir, offset, tracks, segs).contains(
                metal(
                    key,
                    seg.net,
                    rectangle(dir, seg.start, seg.stop, start, start + tracks[k].width.0),
                ),
            )
        }),
    decreases segs.len(),
{
    let start = offset + tracks[k].start.0;
    let seg = segs[k][i];
    let elem = metal(
        key,
        seg.net,
        rectangle(dir, seg.start, seg.stop, start, start + tracks[k].width.0),
    );
    let all = drawn(key, dir, offset, tracks, segs);
    let front = drawn(key, dir, offset, tracks.drop_last(), segs.drop_last());
    if k < segs.len() - 1 {
        wire_is_drawn(key, dir, offset, tracks.drop_last(), segs.drop_last(), k, i);
        let j = choose|j: int| 0 <= j < front.len() && front[j] == elem;
        assert(all[j] == elem);
    } else {
        assert(all[front.len() + i] == elem);
    }
}

/// A signal track of a cell that no instance blocks and no cut breaks comes out as one rectangle.
/// It runs, in the direction of its layer, from 0 to the extent of the cell's outline in that
/// direction.
pub proof fn unbroken_track_runs_over_the_whole_cell(
    c: ConverterView,
    cell: Cell,
    layernum: int,
    periodnum: int,
    signal: int,
)
    requires
        c.arrange_error(cell) is None,
        c.cell_period_ready(cell, layernum, periodnum),
        c.cell_period(cell, layernum, periodnum) is Ok,
        0 <= signal < c.stack.metals@[layernum].period.signals@.len(),
        forall|x: int| !cell_parts(c, cell, layernum, periodnum).gone(Some(signal), x),
    ensures
        ({
            let layer = c.stack.metals@[layernum];
            let spec = layer.period.signals@[signal];
            let start = layer.pitch.0 * periodnum + spec.start.0;
            let stop = start + spec.width.0;
            let shape = if layer.spec.dir is Horiz {
                let x = cell.outline.x@[0].num * pitch(c.stack, cell.outline.x@[0].dir);
                ShapeView::Rect { p0: (0, start), p1: (x, stop) }
            } else {
                let y = cell.outline.y@[0].num * pitch(c.stack, cell.outline.y@[0].dir);
                ShapeView::Rect { p0: (start, 0), p1: (stop, y) }
            };
            exists|i: int|
                0 <= i < c.cell_period(cell, layernum, periodnum)->Ok_0.len() && (
                #[trigger] c.cell_period(cell, layernum, periodnum)->Ok_0[i]).inner == shape
        }),
{
    let layer = c.stack.metals@[layernum];
    let t = cell_parts(c, cell, layernum, periodnum);
    let shapes = c.cell_period(cell, layernum, periodnum)->Ok_0;
    let span = c.layer_span(layer, cell.outline);
    parts_of_cell(c, cell, layernum, periodnum);
    period_comes_out(
        c,
        layer,
        periodnum,
        span,
        c.cell_period_input(cell, layernum, periodnum),
    );
    let (rails, signals) = choose|
        rails: Seq<Seq<SegmentView>>,
        signals: Seq<Seq<SegmentView>>,
    | #[trigger] t.made_of(rails, signals, shapes);
    assert(t.made_of(rails, signals, shapes));
    let offset = layer.pitch.0 * periodnum;
    assert(t.wires_are(layer.period.signals@[signal], Some(signal), signals[signal]));
    wire_is_drawn(
        t.key,
        layer.spec.dir,
        offset,
        layer.period.signals@,
        signals,
        signal,
        0,
    );
    let last = drawn(t.key, layer.spec.dir, offset, layer.period.signals@, signals);
    let seg = signals[signal][0];
    let start = offset + layer.period.signals@[signal].start.0;
    let elem = metal(
        t.key,
        seg.net,
        rectangle(
            layer.spec.dir,
            seg.start,
            seg.stop,
            start,
            start + layer.period.signals@[signal].width.0,
        ),
    );
    let j = choose|j: int| 0 <= j < last.len() && last[j] == elem;
    assert(shapes[shapes.len() - last.len() + j] == elem);
}

/// The shape of a port on a metal layer has a key that finds the raw layer of that metal layer.
pub proof fn port_is_drawn_on_the_layer_of_its_metal(
    lib: Library,
    stack: ValidStack,
    abs: Abstract,
    i: int,
)
    requires
        forall|k: int|
            0 <= k < stack.metals@.len() ==> (#[trigger] stack.metals@[k]).spec.raw is Some,
        stack.boundary_layer is Some,
        stack.metals@.len() <= usize::MAX,
        converter(lib, stack).abstract_ready(abs),
        0 <= i < abs.ports@.len(),
    ensures
        ({
            let c = converter(lib, stack);
            let key = c.abstract_cell(abs).elems[i + 1].layer;
            let layer = abs.ports@[i].kind->Edge_layer as int;
            Some(c.layers[key.index as int]) == stack.metals@[layer].spec.raw
        }),
{
    let c = converter(lib, stack);
    converter_comes_out(lib, stack);
    abstract_comes_out(c, abs);
    assert(c.port_ready(abs, abs.ports@[i]));
    assert(port_is(c, abs, abs.ports@[i], c.abstract_cell(abs).elems[i + 1]));
    let layer = abs.ports@[i].kind->Edge_layer as int;
    assert(c.keys[layer].index < c.layers.len());
}

} // verus!
