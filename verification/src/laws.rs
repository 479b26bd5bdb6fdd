//! Laws of the conversion as a whole.

use vstd::arithmetic::div_mod::{lemma_fundamental_div_mod, lemma_fundamental_div_mod_converse};
use vstd::arithmetic::mul::{lemma_mul_is_commutative, lemma_mul_is_distributive_add};
use vstd::prelude::*;

use crate::abstrakt::Side;
use crate::cell::{Cell, Library};
use crate::coords::{fits, half, Dir, PrimPitches};
use crate::edits::{
    apply_all, apply_all_fails_early, apply_all_keeps_tracks, apply_all_step, assigned_net_stays,
    blocked_region_stays_clear, clear_between, cut_region_stays_clear, edit_in_range, on_same_wire,
    period_in_order, reached, TrackEdit,
};
use crate::error::ErrorView;
use crate::model::{
    accepted, blocked_region, bot_in_period, bot_on_layer, converter, cut_in_period, implemented,
    in_period, on_layer, present, signal_of, top_in_period, top_on_layer, unimplemented,
    up_to_layer, ConverterView, PeriodInput, Placed,
};
use crate::outline::Outline;
use crate::raw::{CellView, ElementView, ShapeView};
use crate::slots::{
    arranged, assign_contents, bot_key_on_layer, stored_by_layer, stores, top_key_on_layer,
    AssignKey,
};
use crate::stack::{ValidMetalLayer, ValidStack};
use crate::temp::TempCell;
use crate::tracks::{
    clear_of, first_covering, first_covering_is_first, LayerPeriodView, SegmentView, TrackView,
};
use crate::validate::{ValidAssign, ValidTrackLoc};

verus! {

/// The boundary of an outline is rectilinear: each of its edges, the closing one included, runs
/// along one of the two axes. It starts at the origin.
pub proof fn outline_is_rectilinear(c: ConverterView, outline: Outline, i: int)
    requires
        0 <= i < c.corners(outline).len(),
    ensures
        c.corners(outline)[0] == (0int, 0int),
        ({
            let pts = c.corners(outline);
            let next = if i + 1 == pts.len() {
                0
            } else {
                i + 1
            };
            pts[i].0 == pts[next].0 || pts[i].1 == pts[next].1
        }),
{
    if i % 2 == 0 {
        assert((i - 2) / 2 == (i + 1 - 2) / 2);
    } else {
        assert((i - 1) / 2 == (i + 1 - 1) / 2);
    }
}

/// The boundary of an outline with one pair of coordinates is the rectangle between the origin and
/// those.
pub proof fn single_step_outline_is_rectangle(c: ConverterView, outline: Outline)
    requires
        outline.x@.len() == 1,
        outline.y@.len() == 1,
    ensures
        ({
            let (x, y) = (c.prim(outline.x@[0]), c.prim(outline.y@[0]));
            c.corners(outline) == seq![(0int, 0int), (x, 0int), (x, y), (0int, y)]
        }),
{
    let (x, y) = (c.prim(outline.x@[0]), c.prim(outline.y@[0]));
    assert(c.corners(outline) =~= seq![(0int, 0int), (x, 0int), (x, y), (0int, y)]);
}

/// Scaling to database units is additive.
pub proof fn prim_is_additive(c: ConverterView, a: PrimPitches, b: PrimPitches, sum: PrimPitches)
    requires
        a.dir == b.dir,
        sum.dir == a.dir,
        sum.num == a.num + b.num,
    ensures
        c.prim(sum) == c.prim(a) + c.prim(b),
{
    let pitch = c.stack.prim.pitches.along(a.dir).0 as int;
    lemma_mul_is_commutative(a.num as int, pitch);
    lemma_mul_is_commutative(b.num as int, pitch);
    lemma_mul_is_commutative(sum.num as int, pitch);
    lemma_mul_is_distributive_add(pitch, a.num as int, b.num as int);
}

/// The region that an instance blocks is as long as its outline.
pub proof fn blocked_region_is_as_long_as_the_instance(c: ConverterView, p: Placed, dir: Dir)
    requires
        p.loc.along(dir).dir == p.outline.extent(dir).dir,
        fits(p.loc.along(dir).num + p.outline.extent(dir).num),
    ensures
        c.prim(blocked_region(p, dir).0) == c.prim(p.loc.along(dir)),
        c.prim(blocked_region(p, dir).1) == c.prim(p.loc.along(dir)) + c.prim(
            p.outline.extent(dir),
        ),
{
    prim_is_additive(c, p.loc.along(dir), p.outline.extent(dir), blocked_region(p, dir).1);
}

/// A cut is centred on its location. It is as long as the cut size of its layer, less one unit if
/// that is odd; with a negative cut size it is no region at all.
pub proof fn cut_is_centred(c: ConverterView, layer: ValidMetalLayer, cut: ValidTrackLoc)
    ensures
        c.cut_edit(layer, cut) matches TrackEdit::Cut { signal, start, stop } && {
            let size = layer.spec.cutsize.0 as int;
            &&& start + stop == 2 * cut.dist.0
            &&& size >= 0 ==> stop - start == size - size % 2
            &&& size < 0 ==> stop <= start
        },
{
}

/// A port reaches 100 units into the cell from the edge that it lies on.
pub proof fn port_reaches_in_from_its_edge(c: ConverterView, outline: Outline, dir: Dir, side: Side)
    ensures
        ({
            let (from, to) = c.port_reach(outline, dir, side);
            &&& to - from == 100
            &&& side is BottomOrLeft ==> from == 0
            &&& side is TopOrRight ==> to == c.prim(outline.extent(dir))
        }),
{
}

/// An instance that only touches a period, edge to edge, does not intersect it.
pub proof fn touching_is_not_intersecting(
    c: ConverterView,
    p: Placed,
    layer: ValidMetalLayer,
    periodnum: int,
)
    requires
        ({
            let across = layer.spec.dir.opposite();
            let from = c.prim(p.loc.along(across));
            let to = from + c.prim(p.outline.extent(across));
            to == layer.period_start(periodnum) || from == layer.period_start(periodnum + 1)
        }),
    ensures
        !c.intersects(p, layer, periodnum),
{
}

/// An instance intersects the periods from the one that its start lies in up to the last one that
/// starts before its end, and no others.
pub proof fn instance_intersects_its_periods(
    c: ConverterView,
    p: Placed,
    layer: ValidMetalLayer,
    periodnum: int,
)
    requires
        layer.pitch.0 > 0,
    ensures
        ({
            let across = layer.spec.dir.opposite();
            let from = c.prim(p.loc.along(across));
            let to = from + c.prim(p.outline.extent(across));
            let pitch = layer.pitch.0 as int;
            c.intersects(p, layer, periodnum) <==> from / pitch <= periodnum < (to + pitch - 1)
                / pitch
        }),
{
    let across = layer.spec.dir.opposite();
    let from = c.prim(p.loc.along(across));
    let to = from + c.prim(p.outline.extent(across));
    let pitch = layer.pitch.0 as int;
    let (first, end) = (from / pitch, (to + pitch - 1) / pitch);
    lemma_fundamental_div_mod(from, pitch);
    lemma_fundamental_div_mod(to + pitch - 1, pitch);
    let (r, s) = (from % pitch, (to + pitch - 1) % pitch);
    assert(from < pitch * (periodnum + 1) <==> first <= periodnum) by (nonlinear_arith)
        requires
            pitch > 0,
            from == pitch * first + r,
            0 <= r < pitch,
    ;
    assert(to > pitch * periodnum <==> periodnum < end) by (nonlinear_arith)
        requires
            pitch > 0,
            to + pitch - 1 == pitch * end + s,
            0 <= s < pitch,
    ;
}

/// An instance that starts with period `first` and ends where period `last` starts intersects the
/// periods from `first` up to, but not including, `last`.
pub proof fn aligned_instance_intersects_its_periods(
    c: ConverterView,
    p: Placed,
    layer: ValidMetalLayer,
    first: int,
    last: int,
    periodnum: int,
)
    requires
        layer.pitch.0 > 0,
        c.prim(p.loc.along(layer.spec.dir.opposite())) == layer.period_start(first),
        c.prim(p.loc.along(layer.spec.dir.opposite())) + c.prim(
            p.outline.extent(layer.spec.dir.opposite()),
        ) == layer.period_start(last),
    ensures
        c.intersects(p, layer, periodnum) <==> first <= periodnum < last,
{
    let pitch = layer.pitch.0 as int;
    assert(pitch * last > pitch * periodnum <==> last > periodnum) by (nonlinear_arith)
        requires
            pitch > 0,
    ;
    assert(pitch * first < pitch * (periodnum + 1) <==> first < periodnum + 1) by (nonlinear_arith)
        requires
            pitch > 0,
    ;
}

/// Every signal track belongs to one period of its layer, and to no other.
pub proof fn track_is_in_one_period(layer: ValidMetalLayer, periodnum: int, track: int)
    requires
        layer.period.signals@.len() > 0,
    ensures
        in_period(layer, periodnum, track) <==> periodnum == track / (
        layer.period.signals@.len() as int),
{
    let n = layer.period.signals@.len() as int;
    lemma_fundamental_div_mod(track, n);
    lemma_mul_is_commutative(periodnum, n);
    lemma_mul_is_commutative(periodnum + 1, n);
    lemma_mul_is_distributive_add(n, periodnum, 1);
    if in_period(layer, periodnum, track) {
        lemma_fundamental_div_mod_converse(track, n, periodnum, track - periodnum * n);
    } else if periodnum == track / n {
        assert(n * periodnum == periodnum * n);
    }
}

/// Signal `k` of period `periodnum` is the signal track with number
/// `periodnum * nsig + k`: it starts and ends where that track does.
pub proof fn signal_has_its_track_number(
    layer: ValidMetalLayer,
    periodnum: int,
    k: int,
    span: int,
)
    requires
        0 <= periodnum,
        0 <= k < layer.period.signals@.len(),
    ensures
        ({
            let signal = layer.layer_period(periodnum, span).signals[k];
            let track = periodnum * layer.period.signals@.len() + k;
            &&& signal.start == layer.signal_start(track)
            &&& signal.start + signal.width == layer.signal_stop(track)
        }),
{
    let n = layer.period.signals@.len() as int;
    lemma_fundamental_div_mod_converse(periodnum * n + k, n, periodnum, k);
}

/// A location is on the signal that its track number is the number of: in the period that the
/// number belongs to, that signal starts and ends where the track does.
pub proof fn location_is_on_its_track(
    layer: ValidMetalLayer,
    periodnum: int,
    loc: ValidTrackLoc,
    span: int,
)
    requires
        0 <= periodnum,
        in_period(layer, periodnum, loc.track as int),
    ensures
        0 <= loc.track as int % (layer.period.signals@.len() as int) < layer.period.signals@.len(),
        ({
            let track = loc.track as int;
            let signal = layer.layer_period(
                periodnum,
                span,
            ).signals[track % (layer.period.signals@.len() as int)];
            &&& signal.start == layer.signal_start(track)
            &&& signal.start + signal.width == layer.signal_stop(track)
        }),
{
    let track = loc.track as int;
    let n = layer.period.signals@.len() as int;
    assert(n > 0) by (nonlinear_arith)
        requires
            n >= 0,
            periodnum * n < (periodnum + 1) * n,
    ;
    track_is_in_one_period(layer, periodnum, track);
    lemma_fundamental_div_mod(track, n);
    lemma_mul_is_commutative(n, periodnum);
    signal_has_its_track_number(layer, periodnum, track % n, span);
}

/// A cut and an assignment, on its lower and on its upper layer, are made on the signal that
/// starts and ends where the track of the location does.
pub proof fn edits_are_made_on_their_tracks(
    c: ConverterView,
    layer: ValidMetalLayer,
    periodnum: int,
    cut: ValidTrackLoc,
    assign: ValidAssign,
    span: int,
)
    requires
        0 <= periodnum,
    ensures
        in_period(layer, periodnum, cut.track as int) ==> {
            let signal = layer.layer_period(
                periodnum,
                span,
            ).signals[c.cut_edit(layer, cut)->Cut_signal];
            &&& signal.start == layer.signal_start(cut.track as int)
            &&& signal.start + signal.width == layer.signal_stop(cut.track as int)
        },
        in_period(layer, periodnum, assign.bot.track as int) ==> {
            let signal = layer.layer_period(
                periodnum,
                span,
            ).signals[c.bot_edit(layer, Some(assign))->Land_signal];
            &&& signal.start == layer.signal_start(assign.bot.track as int)
            &&& signal.start + signal.width == layer.signal_stop(assign.bot.track as int)
        },
        in_period(layer, periodnum, assign.top.track as int) ==> {
            let signal = layer.layer_period(
                periodnum,
                span,
            ).signals[c.top_edit(layer, Some(assign))->Land_signal];
            &&& signal.start == layer.signal_start(assign.top.track as int)
            &&& signal.start + signal.width == layer.signal_stop(assign.top.track as int)
        },
{
    if in_period(layer, periodnum, cut.track as int) {
        location_is_on_its_track(layer, periodnum, cut, span);
    }
    if in_period(layer, periodnum, assign.bot.track as int) {
        location_is_on_its_track(layer, periodnum, assign.bot, span);
    }
    if in_period(layer, periodnum, assign.top.track as int) {
        location_is_on_its_track(layer, periodnum, assign.top, span);
    }
}

/// The periods of a layer fill a cell: together they are as wide as it is.
pub proof fn periods_fill_the_cell(c: ConverterView, layer: ValidMetalLayer, outline: Outline)
    requires
        c.layer_ready(layer, outline),
    ensures
        layer.period_start(c.nperiods(layer, outline)) == c.layer_breadth(layer, outline),
{
    let (a, b) = (c.layer_breadth(layer, outline), layer.pitch.0 as int);
    assert(a == b * (a / b)) by (nonlinear_arith)
        requires
            b != 0,
            a % b == 0,
    ;
}

/// The rectangle with its axes exchanged.
pub open spec fn transposed(shape: ShapeView) -> ShapeView {
    match shape {
        ShapeView::Rect { p0, p1 } => ShapeView::Rect { p0: (p0.1, p0.0), p1: (p1.1, p1.0) },
        ShapeView::Poly { pts } => ShapeView::Poly {
            pts: pts.map_values(|p: (int, int)| (p.1, p.0)),
        },
    }
}

/// A vertical track is drawn as the same horizontal one would be, with the axes exchanged.
pub proof fn vertical_track_is_transposed(
    c: ConverterView,
    index: int,
    track: TrackView,
    seg: SegmentView,
)
    ensures
        c.wire_element(index, TrackView { dir: Dir::Vert, ..track }, seg) == (ElementView {
            inner: transposed(
                c.wire_element(index, TrackView { dir: Dir::Horiz, ..track }, seg).inner,
            ),
            ..c.wire_element(index, TrackView { dir: Dir::Horiz, ..track }, seg)
        }),
{
}

/// The key of each metal layer finds its raw layer, and the boundary key finds the boundary layer.
pub proof fn keys_find_their_layers(lib: Library, stack: ValidStack, i: int)
    requires
        0 <= i < stack.metals@.len() <= usize::MAX,
    ensures
        ({
            let c = converter(lib, stack);
            &&& c.layers[c.keys[i].index as int] == stack.metals@[i].spec.raw->0
            &&& c.layers[c.boundary.index as int] == stack.boundary_layer->0
            &&& c.keys[i] != c.boundary
        }),
{
}

/// Two metal layers have different keys.
pub proof fn keys_are_distinct(lib: Library, stack: ValidStack, i: int, j: int)
    requires
        0 <= i < j < stack.metals@.len() <= usize::MAX,
    ensures
        converter(lib, stack).keys[i] != converter(lib, stack).keys[j],
{
}

/// Converted cells stand in the order of the cells that they come from, one for each.
pub proof fn cells_are_converted_in_order(c: ConverterView, n: int, i: int)
    requires
        0 <= i < n,
        c.cells_outcome(n) is Ok,
    ensures
        c.cells_outcome(n)->Ok_0.len() == n,
        c.cell_outcome(c.lib.cells@[i]) == Ok::<CellView, ErrorView>(c.cells_outcome(n)->Ok_0[i]),
    decreases n,
{
    if i < n - 1 {
        cells_are_converted_in_order(c, n - 1, i);
    } else if n > 1 {
        cells_are_converted_in_order(c, n - 1, 0);
    }
}

/// A converted library holds a cell for each cell of the library that it comes from, and then one
/// for each abstract that no cell implements, under the same name and in the same order.
pub proof fn library_keeps_names(c: ConverterView, i: int)
    requires
        c.lib_outcome() is Ok,
    ensures
        ({
            let cells = c.lib_outcome()->Ok_0.cells;
            let abstracts = c.lib.abstracts@.filter(unimplemented(c.lib));
            let n = c.lib.cells@.len();
            &&& cells.len() == n + abstracts.len()
            &&& 0 <= i < n ==> cells[i].name == c.lib.cells@[i].name@
            &&& 0 <= i < abstracts.len() ==> cells[n + i].name == abstracts[i].name@
        }),
{
    let n = c.lib.cells@.len() as int;
    if n > 0 {
        cells_are_converted_in_order(c, n, 0);
        if 0 <= i < n {
            cells_are_converted_in_order(c, n, i);
        }
    }
}

/// An abstract that a cell implements is not converted again: what a converted library holds for
/// an abstract has the name of none of the library's cells.
pub proof fn implemented_abstract_is_not_converted_again(c: ConverterView, i: int, j: int)
    requires
        c.lib_outcome() is Ok,
        0 <= i < c.lib.cells@.len(),
        c.lib.cells@.len() <= j < c.lib_outcome()->Ok_0.cells.len(),
    ensures
        c.lib_outcome()->Ok_0.cells[i].name != c.lib_outcome()->Ok_0.cells[j].name,
{
    let abstracts = c.lib.abstracts@.filter(unimplemented(c.lib));
    let k = j - c.lib.cells@.len();
    library_keeps_names(c, i);
    library_keeps_names(c, k);
    assert(abstracts.contains(abstracts[k]));
    filter_contains(c.lib.abstracts@, unimplemented(c.lib), abstracts[k]);
    if c.lib.cells@[i].name@ == abstracts[k].name@ {
        assert(implemented(c.lib, abstracts[k]));
    }
}

/// Every abstract of a library has a cell of its name in the converted library.
pub proof fn every_abstract_has_a_cell(c: ConverterView, k: int)
    requires
        c.lib_outcome() is Ok,
        0 <= k < c.lib.abstracts@.len(),
    ensures
        exists|i: int|
            0 <= i < c.lib_outcome()->Ok_0.cells.len() && (
            #[trigger] c.lib_outcome()->Ok_0.cells[i]).name == c.lib.abstracts@[k].name@,
{
    let abs = c.lib.abstracts@[k];
    let cells = c.lib_outcome()->Ok_0.cells;
    library_keeps_names(c, 0);
    if implemented(c.lib, abs) {
        let i = choose|i: int|
            0 <= i < c.lib.cells@.len() && (#[trigger] c.lib.cells@[i]).name@ == abs.name@;
        library_keeps_names(c, i);
        assert(cells[i].name == abs.name@);
    } else {
        let abstracts = c.lib.abstracts@.filter(unimplemented(c.lib));
        assert(c.lib.abstracts@.contains(abs));
        filter_contains(c.lib.abstracts@, unimplemented(c.lib), abs);
        let i = choose|i: int| 0 <= i < abstracts.len() && abstracts[i] == abs;
        library_keeps_names(c, i);
        assert(cells[c.lib.cells@.len() + i].name == abs.name@);
    }
}

/// If a library cannot be converted, the error is that of its first cell that cannot be.
pub proof fn library_error_is_of_first_failing_cell(c: ConverterView, i: int)
    requires
        0 <= i < c.lib.cells@.len(),
        c.cell_outcome(c.lib.cells@[i]) is Err,
        forall|k: int| 0 <= k < i ==> c.cell_outcome(#[trigger] c.lib.cells@[k]) is Ok,
    ensures
        c.lib_outcome() is Err,
        c.lib_outcome()->Err_0 == c.cell_outcome(c.lib.cells@[i])->Err_0,
{
    cells_before_are_converted(c, i, i);
    c.cells_fail_early(i + 1, c.lib.cells@.len() as int);
}

proof fn cells_before_are_converted(c: ConverterView, i: int, n: int)
    requires
        0 <= n <= i <= c.lib.cells@.len(),
        forall|k: int| 0 <= k < i ==> c.cell_outcome(#[trigger] c.lib.cells@[k]) is Ok,
    ensures
        c.cells_outcome(n) is Ok,
    decreases n,
{
    if n > 0 {
        cells_before_are_converted(c, i, n - 1);
        assert(c.cell_outcome(c.lib.cells@[n - 1]) is Ok);
    }
}

/// A converted cell ends with its outline, and places each instance at its scaled location, under
/// its name and in order.
pub proof fn cell_ends_with_outline(c: ConverterView, cell: Cell, i: int)
    requires
        c.cell_outcome(cell) is Ok,
    ensures
        c.cell_outcome(cell)->Ok_0.elems.last() == c.outline_element(cell.outline),
        c.cell_outcome(cell)->Ok_0.insts.len() == cell.instances@.len(),
        0 <= i < cell.instances@.len() ==> c.cell_outcome(cell)->Ok_0.insts[i] == c.raw_instance(
            cell.instances@[i],
        ),
{
}

/// A converted cell holds the shapes of each period of each of its layers, all of them together:
/// those of lower layers come before, and so do those of lower periods of the same layer.
pub proof fn cell_holds_its_periods(c: ConverterView, cell: Cell, layernum: int, periodnum: int)
    requires
        c.cell_outcome(cell) is Ok,
        0 <= layernum < cell.top_layer,
        0 <= periodnum < c.nperiods(c.stack.metals@[layernum], cell.outline),
    ensures
        c.cell_layers(cell, layernum) is Ok,
        c.cell_periods(cell, layernum, periodnum) is Ok,
        c.cell_period(cell, layernum, periodnum) is Ok,
        c.cell_ready(cell) ==> c.cell_period_ready(cell, layernum, periodnum),
        ({
            let elems = c.cell_outcome(cell)->Ok_0.elems;
            let shapes = c.cell_period(cell, layernum, periodnum)->Ok_0;
            let o = c.cell_layers(cell, layernum)->Ok_0.len() + c.cell_periods(
                cell,
                layernum,
                periodnum,
            )->Ok_0.len();
            &&& o + shapes.len() < elems.len()
            &&& elems.subrange(o as int, (o + shapes.len()) as int) == shapes
        }),
{
    let top = cell.top_layer as int;
    let n = c.nperiods(c.stack.metals@[layernum], cell.outline);
    layers_start_with(c, cell, layernum, top);
    layers_start_with(c, cell, layernum + 1, top);
    periods_start_with(c, cell, layernum, periodnum, n);
    periods_start_with(c, cell, layernum, periodnum + 1, n);
    let elems = c.cell_outcome(cell)->Ok_0.elems;
    let shapes = c.cell_period(cell, layernum, periodnum)->Ok_0;
    let layers = c.cell_layers(cell, layernum)->Ok_0;
    let periods = c.cell_periods(cell, layernum, periodnum)->Ok_0;
    let o = layers.len() + periods.len();
    let layer = c.cell_layer(cell, layernum)->Ok_0;
    assert forall|k: int| 0 <= k < shapes.len() implies #[trigger] shapes[k] == elems[o + k] by {
        assert((periods + shapes)[periods.len() + k] == shapes[k]);
        assert(layer[periods.len() + k] == shapes[k]);
        assert((layers + layer)[o + k] == shapes[k]);
    }
    assert(elems.subrange(o as int, (o + shapes.len()) as int) =~= shapes);
}

proof fn layers_start_with(c: ConverterView, cell: Cell, i: int, n: int)
    requires
        0 <= i <= n,
        c.cell_layers(cell, n) is Ok,
    ensures
        c.cell_layers(cell, i) is Ok,
        ({
            let (few, all) = (c.cell_layers(cell, i)->Ok_0, c.cell_layers(cell, n)->Ok_0);
            &&& few.len() <= all.len()
            &&& forall|k: int| 0 <= k < few.len() ==> few[k] == #[trigger] all[k]
        }),
    decreases n - i,
{
    if i < n {
        layers_start_with(c, cell, i, n - 1);
    }
}

proof fn periods_start_with(c: ConverterView, cell: Cell, layernum: int, i: int, n: int)
    requires
        0 <= i <= n,
        c.cell_periods(cell, layernum, n) is Ok,
    ensures
        c.cell_periods(cell, layernum, i) is Ok,
        ({
            let few = c.cell_periods(cell, layernum, i)->Ok_0;
            let all = c.cell_periods(cell, layernum, n)->Ok_0;
            &&& few.len() <= all.len()
            &&& forall|k: int| 0 <= k < few.len() ==> few[k] == #[trigger] all[k]
        }),
    decreases n - i,
{
    if i < n {
        periods_start_with(c, cell, layernum, i, n - 1);
    }
}

pub(crate) proof fn filter_contains<T>(s: Seq<T>, keep: spec_fn(T) -> bool, x: T)
    ensures
        s.filter(keep).contains(x) <==> s.contains(x) && keep(x),
    decreases s.len(),
{
    reveal(Seq::filter);
    if s.len() > 0 {
        let rest = s.drop_last();
        filter_contains(rest, keep, x);
        if s.contains(x) && x != s.last() {
            let k = choose|k: int| 0 <= k < s.len() && s[k] == x;
            assert(rest[k] == x);
        }
        if rest.contains(x) {
            let k = choose|k: int| 0 <= k < rest.len() && rest[k] == x;
            assert(s[k] == x);
        }
        assert(s[s.len() - 1] == s.last());
        if keep(s.last()) {
            let kept = rest.filter(keep);
            let all = kept.push(s.last());
            assert(all[kept.len() as int] == s.last());
            if kept.contains(x) {
                let k = choose|k: int| 0 <= k < kept.len() && kept[k] == x;
                assert(all[k] == x);
            }
            if all.contains(x) && x != s.last() {
                let k = choose|k: int| 0 <= k < all.len() && all[k] == x;
                assert(kept[k] == x);
            }
        }
    }
}

/// A cut of a cell comes up in the period of the layer that it lies on, and nowhere else.
pub proof fn cut_comes_up_in_its_period(
    c: ConverterView,
    cell: Cell,
    cut: ValidTrackLoc,
    layernum: int,
    periodnum: int,
)
    requires
        c.stack.metals@[layernum].period.signals@.len() > 0,
    ensures
        c.cell_period_input(cell, layernum, periodnum).cuts.contains(cut) <==> {
            let layer = c.stack.metals@[layernum];
            &&& accepted(cell.cuts@).contains(cut)
            &&& cut.layer == layer.index
            &&& periodnum == cut.track as int / (layer.period.signals@.len() as int)
        },
{
    let layer = c.stack.metals@[layernum];
    let all = accepted(cell.cuts@);
    filter_contains(all, on_layer(layer.index as int), cut);
    filter_contains(all.filter(on_layer(layer.index as int)), cut_in_period(layer, periodnum), cut);
    track_is_in_one_period(layer, periodnum, cut.track as int);
}

/// The number of cuts of a cell in the first `n` periods of metal layer `layernum`.
pub open spec fn cuts_in_periods(c: ConverterView, cell: Cell, layernum: int, n: int) -> int
    decreases n,
{
    if n <= 0 {
        0
    } else {
        cuts_in_periods(c, cell, layernum, n - 1) + c.cell_period_input(
            cell,
            layernum,
            n - 1,
        ).cuts.len()
    }
}

/// The cuts on tracks below number `bound`.
pub open spec fn cut_below(bound: int) -> spec_fn(ValidTrackLoc) -> bool {
    |cut: ValidTrackLoc| cut.track < bound
}

/// The cuts on a layer are shared out among its periods: the first `n` periods have, between them,
/// as many cuts as there are on their tracks.
pub proof fn cuts_are_shared_out(c: ConverterView, cell: Cell, layernum: int, n: int)
    requires
        0 <= n,
    ensures
        ({
            let layer = c.stack.metals@[layernum];
            cuts_in_periods(c, cell, layernum, n) == c.cell_input(cell, layer).cuts.filter(
                cut_below(n * layer.period.signals@.len()),
            ).len()
        }),
    decreases n,
{
    let layer = c.stack.metals@[layernum];
    let nsig = layer.period.signals@.len();
    let cuts = c.cell_input(cell, layer).cuts;
    if n == 0 {
        assert(n * nsig == 0) by (nonlinear_arith)
            requires
                n == 0,
        ;
        no_cut_below(cuts, n * nsig);
    } else {
        cuts_are_shared_out(c, cell, layernum, n - 1);
        assert((n - 1) * nsig <= n * nsig) by (nonlinear_arith)
            requires
                n >= 1,
                nsig >= 0,
        ;
        cuts_split(cuts, layer, n - 1);
    }
}

proof fn no_cut_below(cuts: Seq<ValidTrackLoc>, bound: int)
    requires
        bound <= 0,
    ensures
        cuts.filter(cut_below(bound)).len() == 0,
    decreases cuts.len(),
{
    reveal(Seq::filter);
    if cuts.len() > 0 {
        no_cut_below(cuts.drop_last(), bound);
    }
}

proof fn cuts_split(cuts: Seq<ValidTrackLoc>, layer: ValidMetalLayer, periodnum: int)
    requires
        periodnum * layer.period.signals@.len() <= (periodnum + 1) * layer.period.signals@.len(),
    ensures
        cuts.filter(cut_below((periodnum + 1) * layer.period.signals@.len())).len() == cuts.filter(
            cut_below(periodnum * layer.period.signals@.len()),
        ).len() + cuts.filter(cut_in_period(layer, periodnum)).len(),
    decreases cuts.len(),
{
    reveal(Seq::filter);
    if cuts.len() > 0 {
        cuts_split(cuts.drop_last(), layer, periodnum);
    }
}

proof fn present_contains(assigns: Seq<ValidAssign>, a: ValidAssign)
    ensures
        present(assigns).contains(Some(a)) <==> assigns.contains(a),
{
    if present(assigns).contains(Some(a)) {
        let k = choose|k: int| 0 <= k < present(assigns).len() && present(assigns)[k] == Some(a);
        assert(assigns[k] == a);
    }
    if assigns.contains(a) {
        let k = choose|k: int| 0 <= k < assigns.len() && assigns[k] == a;
        assert(present(assigns)[k] == Some(a));
    }
}

/// An assignment of a cell comes up on its lower layer in the period of its lower track, on its
/// upper layer in the period of its upper track, and nowhere else.
pub proof fn assignment_comes_up_in_its_periods(
    c: ConverterView,
    cell: Cell,
    assign: ValidAssign,
    layernum: int,
    periodnum: int,
)
    requires
        c.stack.metals@[layernum].period.signals@.len() > 0,
    ensures
        c.cell_period_input(cell, layernum, periodnum).bots.contains(Some(assign)) <==> {
            let layer = c.stack.metals@[layernum];
            &&& accepted(cell.assignments@).contains(assign)
            &&& assign.bot.layer == layer.index
            &&& periodnum == assign.bot.track as int / (layer.period.signals@.len() as int)
        },
        c.cell_period_input(cell, layernum, periodnum).tops.contains(Some(assign)) <==> {
            let layer = c.stack.metals@[layernum];
            &&& accepted(cell.assignments@).contains(assign)
            &&& assign.top.layer == layer.index
            &&& periodnum == assign.top.track as int / (layer.period.signals@.len() as int)
        },
{
    let layer = c.stack.metals@[layernum];
    let index = layer.index as int;
    let all = accepted(cell.assignments@);
    let bots = all.filter(bot_on_layer(index));
    filter_contains(all, bot_on_layer(index), assign);
    present_contains(bots, assign);
    filter_contains(present(bots), bot_in_period(layer, periodnum), Some(assign));
    track_is_in_one_period(layer, periodnum, assign.bot.track as int);
    let tops = all.filter(top_on_layer(index));
    filter_contains(all, top_on_layer(index), assign);
    present_contains(tops, assign);
    filter_contains(present(tops), top_in_period(layer, periodnum), Some(assign));
    track_is_in_one_period(layer, periodnum, assign.top.track as int);
}

proof fn filter_repeats_nothing<T>(s: Seq<T>, keep: spec_fn(T) -> bool)
    requires
        s.no_duplicates(),
    ensures
        s.filter(keep).no_duplicates(),
    decreases s.len(),
{
    reveal(Seq::filter);
    if s.len() > 0 {
        let front = s.drop_last();
        assert(front.no_duplicates());
        filter_repeats_nothing(front, keep);
        filter_contains(front, keep, s.last());
        let kept = front.filter(keep);
        assert(!front.contains(s.last()));
        assert forall|k: int| 0 <= k < kept.len() implies #[trigger] kept[k] != s.last() by {
            assert(kept.contains(kept[k]));
        }
    }
}

/// Where assignments are stored by layer, every key is in the list of its upper layer and in that
/// of its lower layer, once in each, and in no other list.
pub proof fn key_is_in_the_lists_of_its_layers(
    contents: Map<AssignKey, ValidAssign>,
    assigns: Seq<ValidAssign>,
    tops: Seq<Vec<AssignKey>>,
    bots: Seq<Vec<AssignKey>>,
    key: AssignKey,
    index: int,
)
    requires
        stored_by_layer(contents, assigns, tops, bots),
    ensures
        0 <= index < tops.len() ==> {
            &&& tops[index]@.no_duplicates()
            &&& tops[index]@.contains(key) <==> contents.contains_key(key)
                && contents[key].top.layer == index
        },
        0 <= index < bots.len() ==> {
            &&& bots[index]@.no_duplicates()
            &&& bots[index]@.contains(key) <==> contents.contains_key(key)
                && contents[key].bot.layer == index
        },
{
    let keys = choose|keys: Seq<AssignKey>|
        {
            &&& #[trigger] stores(contents, keys, assigns)
            &&& arranged(contents, keys, tops, bots)
        };
    assert(keys.contains(key) <==> contents.contains_key(key));
    filter_repeats_nothing(keys, top_key_on_layer(contents, index));
    filter_contains(keys, top_key_on_layer(contents, index), key);
    filter_repeats_nothing(keys, bot_key_on_layer(contents, index));
    filter_contains(keys, bot_key_on_layer(contents, index), key);
}

/// Split into periods, every key of a layer's list is in the period of its track and in no other. A
/// key that is in the list once is in that period once.
pub proof fn key_is_in_one_period(
    cell: TempCell,
    layer: ValidMetalLayer,
    keys: Seq<AssignKey>,
    key: AssignKey,
    periodnum: int,
)
    requires
        layer.period.signals@.len() > 0,
    ensures
        keys.no_duplicates() ==> {
            &&& keys.filter(cell.top_key_in_period(layer, periodnum)).no_duplicates()
            &&& keys.filter(cell.bot_key_in_period(layer, periodnum)).no_duplicates()
        },
        keys.filter(cell.top_key_in_period(layer, periodnum)).contains(key) <==> {
            let track = assign_contents(cell.assignments)[key].top.track as int;
            keys.contains(key) && periodnum == track / (layer.period.signals@.len() as int)
        },
        keys.filter(cell.bot_key_in_period(layer, periodnum)).contains(key) <==> {
            let track = assign_contents(cell.assignments)[key].bot.track as int;
            keys.contains(key) && periodnum == track / (layer.period.signals@.len() as int)
        },
{
    let a = assign_contents(cell.assignments)[key];
    if keys.no_duplicates() {
        filter_repeats_nothing(keys, cell.top_key_in_period(layer, periodnum));
        filter_repeats_nothing(keys, cell.bot_key_in_period(layer, periodnum));
    }
    filter_contains(keys, cell.top_key_in_period(layer, periodnum), key);
    filter_contains(keys, cell.bot_key_in_period(layer, periodnum), key);
    track_is_in_one_period(layer, periodnum, a.top.track as int);
    track_is_in_one_period(layer, periodnum, a.bot.track as int);
}

/// No edit of a cell fails by itself: every assignment that comes up in a period is there.
pub proof fn no_assignment_is_missing(c: ConverterView, cell: Cell, layernum: int, periodnum: int, i: int)
    requires
        0 <= i < c.edits(
            c.stack.metals@[layernum],
            c.cell_period_input(cell, layernum, periodnum),
        ).len(),
    ensures
        !(c.edits(
            c.stack.metals@[layernum],
            c.cell_period_input(cell, layernum, periodnum),
        )[i] is Fail),
{
    let layer = c.stack.metals@[layernum];
    let index = layer.index as int;
    let all = accepted(cell.assignments@);
    let input = c.cell_period_input(cell, layernum, periodnum);
    assert forall|k: int| 0 <= k < input.bots.len() implies (#[trigger] input.bots[k]) is Some by {
        let a = input.bots[k];
        assert(input.bots.contains(a));
        let bots = present(all.filter(bot_on_layer(index)));
        filter_contains(bots, bot_in_period(layer, periodnum), a);
        let j = choose|j: int| 0 <= j < bots.len() && bots[j] == a;
        assert(bots[j] is Some);
    }
    assert forall|k: int| 0 <= k < input.tops.len() implies (#[trigger] input.tops[k]) is Some by {
        let a = input.tops[k];
        assert(input.tops.contains(a));
        let tops = present(all.filter(top_on_layer(index)));
        filter_contains(tops, top_in_period(layer, periodnum), a);
        let j = choose|j: int| 0 <= j < tops.len() && tops[j] == a;
        assert(tops[j] is Some);
    }
    let ncarve = c.carving(layer, input).len();
    let nland = c.landing(layer, input).len();
    if ncarve <= i < nland {
        assert(input.bots[i - ncarve] is Some);
    } else if nland <= i {
        assert(input.tops[i - nland] is Some);
    }
}

pub(crate) proof fn edits_are_in_range(
    c: ConverterView,
    layer: ValidMetalLayer,
    periodnum: int,
    span: int,
    input: PeriodInput,
)
    requires
        c.period_ready(layer, periodnum, span, input),
        apply_all(layer.layer_period(periodnum, span), c.edits(layer, input)) is Ok,
    ensures
        period_in_order(layer.layer_period(periodnum, span)),
        forall|k: int|
            0 <= k < c.edits(layer, input).len() ==> edit_in_range(
                #[trigger] c.edits(layer, input)[k],
                layer.layer_period(periodnum, span).signals.len() as int,
            ),
{
    let blank = layer.layer_period(periodnum, span);
    let edits = c.edits(layer, input);
    assert forall|k: int| 0 <= k < edits.len() implies edit_in_range(
        #[trigger] edits[k],
        blank.signals.len() as int,
    ) by {
        if !reached(blank, edits, k) {
            apply_all_fails_early(blank, edits, k);
        }
    }
}

/// In a converted period, the signal of a track starts and ends where the track does.
pub proof fn converted_signal_is_on_its_track(
    c: ConverterView,
    layer: ValidMetalLayer,
    periodnum: int,
    span: int,
    input: PeriodInput,
    loc: ValidTrackLoc,
)
    requires
        0 <= periodnum,
        in_period(layer, periodnum, loc.track as int),
        c.period_ready(layer, periodnum, span, input),
        c.period_outcome(layer, periodnum, span, input) is Ok,
    ensures
        ({
            let p = apply_all(layer.layer_period(periodnum, span), c.edits(layer, input))->Ok_0;
            let track = loc.track as int;
            let signal = p.signals[track % (layer.period.signals@.len() as int)];
            &&& signal.dir == layer.spec.dir
            &&& signal.start == layer.signal_start(track)
            &&& signal.start + signal.width == layer.signal_stop(track)
        }),
{
    let blank = layer.layer_period(periodnum, span);
    let edits = c.edits(layer, input);
    edits_are_in_range(c, layer, periodnum, span, input);
    location_is_on_its_track(layer, periodnum, loc, span);
    assert(edits.take(edits.len() as int) =~= edits);
    apply_all_keeps_tracks(blank, edits, edits.len() as int);
}

/// The tracks of a converted period.
pub open spec fn converted_tracks(
    c: ConverterView,
    layer: ValidMetalLayer,
    periodnum: int,
    span: int,
    input: PeriodInput,
) -> LayerPeriodView {
    apply_all(layer.layer_period(periodnum, span), c.edits(layer, input))->Ok_0
}

/// The position, among the shapes of a period with tracks `p`, of the first rectangle of signal
/// number `signal`.
pub open spec fn first_rect(
    c: ConverterView,
    layer: ValidMetalLayer,
    input: PeriodInput,
    p: LayerPeriodView,
    signal: int,
) -> int {
    let index = layer.index as int;
    (input.bots.len() + c.tracks_elements(index, p.rails).len() + c.tracks_elements(
        index,
        p.signals.take(signal),
    ).len()) as int
}

/// Whether a rectangle does not pass over the region from `from` to `to` along `dir`: it ends where
/// the region starts or before, or starts where it ends or after.
pub open spec fn rect_clear_of(shape: ShapeView, dir: Dir, from: int, to: int) -> bool {
    let (start, stop) = shape.along(dir);
    shape is Rect && (stop <= from || start >= to)
}

proof fn tracks_elements_of_track(c: ConverterView, index: int, tracks: Seq<TrackView>, k: int)
    requires
        0 <= k < tracks.len(),
    ensures
        ({
            let o = c.tracks_elements(index, tracks.take(k)).len();
            let all = c.tracks_elements(index, tracks);
            &&& o + tracks[k].segments.len() <= all.len()
            &&& forall|j: int|
                0 <= j < tracks[k].segments.len() ==> #[trigger] all[o + j] == c.wire_element(
                    index,
                    tracks[k],
                    tracks[k].segments[j],
                )
        }),
    decreases tracks.len(),
{
    let front = tracks.drop_last();
    let all = c.tracks_elements(index, tracks);
    let o = c.tracks_elements(index, tracks.take(k)).len();
    if k < front.len() {
        tracks_elements_of_track(c, index, front, k);
        assert(front.take(k) =~= tracks.take(k));
        assert forall|j: int| 0 <= j < tracks[k].segments.len() implies #[trigger] all[o + j]
            == c.wire_element(index, tracks[k], tracks[k].segments[j]) by {
            assert(c.tracks_elements(index, front)[o + j] == all[o + j]);
        }
    } else {
        assert(front =~= tracks.take(k));
    }
}

proof fn element_is_of_a_track(
    c: ConverterView,
    index: int,
    tracks: Seq<TrackView>,
    j: int,
) -> (from: (int, int))
    requires
        0 <= j < c.tracks_elements(index, tracks).len(),
    ensures
        0 <= from.0 < tracks.len(),
        0 <= from.1 < tracks[from.0].segments.len(),
        c.tracks_elements(index, tracks)[j] == c.wire_element(
            index,
            tracks[from.0],
            tracks[from.0].segments[from.1],
        ),
    decreases tracks.len(),
{
    let front = tracks.drop_last();
    let n = c.tracks_elements(index, front).len();
    if j < n {
        element_is_of_a_track(c, index, front, j)
    } else {
        (tracks.len() - 1, j - n)
    }
}

/// The rectangles of a signal stand together among the shapes of a converted period, one for each
/// wire and in the order of the wires.
pub proof fn signal_has_its_rectangles(
    c: ConverterView,
    layer: ValidMetalLayer,
    periodnum: int,
    span: int,
    input: PeriodInput,
    signal: int,
)
    requires
        c.period_outcome(layer, periodnum, span, input) is Ok,
        0 <= signal < converted_tracks(c, layer, periodnum, span, input).signals.len(),
    ensures
        ({
            let shapes = c.period_outcome(layer, periodnum, span, input)->Ok_0;
            let p = converted_tracks(c, layer, periodnum, span, input);
            let o = first_rect(c, layer, input, p, signal);
            let track = p.signals[signal];
            &&& o + track.segments.len() <= shapes.len()
            &&& forall|j: int|
                0 <= j < track.segments.len() ==> #[trigger] shapes[o + j] == c.wire_element(
                    layer.index as int,
                    track,
                    track.segments[j],
                )
        }),
{
    let index = layer.index as int;
    let shapes = c.period_outcome(layer, periodnum, span, input)->Ok_0;
    let p = converted_tracks(c, layer, periodnum, span, input);
    let o = first_rect(c, layer, input, p, signal);
    let track = p.signals[signal];
    tracks_elements_of_track(c, index, p.signals, signal);
    let before = input.bots.len() + c.tracks_elements(index, p.rails).len();
    assert forall|j: int| 0 <= j < track.segments.len() implies #[trigger] shapes[o + j]
        == c.wire_element(index, track, track.segments[j]) by {
        let at = o - before;
        assert(c.tracks_elements(index, p.signals)[at + j] == shapes[o + j]);
    }
}

/// In a converted period, no wire of any track passes over a region that an instance blocks, and
/// neither does any rectangle that comes out for a wire. These are the ones that follow the vias.
pub proof fn wires_keep_clear_of_instances(
    c: ConverterView,
    layer: ValidMetalLayer,
    periodnum: int,
    span: int,
    input: PeriodInput,
    i: int,
)
    requires
        c.period_ready(layer, periodnum, span, input),
        c.period_outcome(layer, periodnum, span, input) is Ok,
        0 <= i < input.blockages.len(),
    ensures
        ({
            let (from, to) = (c.prim(input.blockages[i].0), c.prim(input.blockages[i].1));
            let shapes = c.period_outcome(layer, periodnum, span, input)->Ok_0;
            &&& clear_between(converted_tracks(c, layer, periodnum, span, input), from, to)
            &&& forall|j: int|
                input.bots.len() <= j < shapes.len() ==> rect_clear_of(
                    (#[trigger] shapes[j]).inner,
                    layer.spec.dir,
                    from,
                    to,
                )
        }),
{
    edits_are_in_range(c, layer, periodnum, span, input);
    let blank = layer.layer_period(periodnum, span);
    let edits = c.edits(layer, input);
    assert(edits[i] == c.block_edit(input.blockages[i]));
    blocked_region_stays_clear(blank, edits, i);
    assert(edits.take(edits.len() as int) =~= edits);
    apply_all_keeps_tracks(blank, edits, edits.len() as int);
    let (from, to) = (c.prim(input.blockages[i].0), c.prim(input.blockages[i].1));
    let index = layer.index as int;
    let shapes = c.period_outcome(layer, periodnum, span, input)->Ok_0;
    let p = converted_tracks(c, layer, periodnum, span, input);
    let (nvias, nrails) = (input.bots.len(), c.tracks_elements(index, p.rails).len());
    assert forall|j: int| nvias <= j < shapes.len() implies rect_clear_of(
        (#[trigger] shapes[j]).inner,
        layer.spec.dir,
        from,
        to,
    ) by {
        if j < nvias + nrails {
            assert(shapes[j] == c.tracks_elements(index, p.rails)[j - nvias]);
            let (k, m) = element_is_of_a_track(c, index, p.rails, j - nvias);
            assert(p.rails[k].dir == blank.rails[k].dir);
            assert(clear_of(p.rails[k].segments, from, to));
            assert(p.rails[k].segments[m].stop <= from || p.rails[k].segments[m].start >= to);
        } else {
            assert(shapes[j] == c.tracks_elements(index, p.signals)[j - nvias - nrails]);
            let (k, m) = element_is_of_a_track(c, index, p.signals, j - nvias - nrails);
            assert(p.signals[k].dir == blank.signals[k].dir);
            assert(clear_of(p.signals[k].segments, from, to));
            assert(p.signals[k].segments[m].stop <= from || p.signals[k].segments[m].start >= to);
        }
    }
}

/// In a converted period, no wire of the track that a cut is made on passes over the cut, and
/// neither does any rectangle that comes out for one.
pub proof fn wires_keep_clear_of_cuts(
    c: ConverterView,
    layer: ValidMetalLayer,
    periodnum: int,
    span: int,
    input: PeriodInput,
    i: int,
)
    requires
        c.period_ready(layer, periodnum, span, input),
        c.period_outcome(layer, periodnum, span, input) is Ok,
        0 <= i < input.cuts.len(),
    ensures
        ({
            let halfcut = half(layer.spec.cutsize.0 as int);
            let (from, to) = (input.cuts[i].dist.0 - halfcut, input.cuts[i].dist.0 + halfcut);
            let shapes = c.period_outcome(layer, periodnum, span, input)->Ok_0;
            let p = converted_tracks(c, layer, periodnum, span, input);
            let signal = input.cuts[i].track as int % (layer.period.signals@.len() as int);
            let segs = p.signals[signal].segments;
            let o = first_rect(c, layer, input, p, signal);
            &&& clear_of(segs, from, to)
            &&& forall|j: int|
                o <= j < o + segs.len() ==> rect_clear_of(
                    (#[trigger] shapes[j]).inner,
                    layer.spec.dir,
                    from,
                    to,
                )
        }),
{
    edits_are_in_range(c, layer, periodnum, span, input);
    let blank = layer.layer_period(periodnum, span);
    let edits = c.edits(layer, input);
    let k = input.blockages.len() + i;
    assert(edits[k] == c.cut_edit(layer, input.cuts[i]));
    cut_region_stays_clear(blank, edits, k);
    assert(edits.take(edits.len() as int) =~= edits);
    apply_all_keeps_tracks(blank, edits, edits.len() as int);
    let halfcut = half(layer.spec.cutsize.0 as int);
    let (from, to) = (input.cuts[i].dist.0 - halfcut, input.cuts[i].dist.0 + halfcut);
    let shapes = c.period_outcome(layer, periodnum, span, input)->Ok_0;
    let p = converted_tracks(c, layer, periodnum, span, input);
    let signal = signal_of(layer, input.cuts[i]);
    let segs = p.signals[signal].segments;
    let o = first_rect(c, layer, input, p, signal);
    signal_has_its_rectangles(c, layer, periodnum, span, input, signal);
    assert(p.signals[signal].dir == blank.signals[signal].dir);
    assert forall|j: int| o <= j < o + segs.len() implies rect_clear_of(
        (#[trigger] shapes[j]).inner,
        layer.spec.dir,
        from,
        to,
    ) by {
        let m = j - o;
        assert(shapes[o + m] == c.wire_element(layer.index as int, p.signals[signal], segs[m]));
        assert(segs[m].stop <= from || segs[m].start >= to);
    }
}

/// In a period of a cell, no wire of any track passes over an instance that comes up to the layer
/// and intersects the period, and neither does any rectangle that comes out for a wire.
pub proof fn cell_wires_keep_clear_of_instances(
    c: ConverterView,
    cell: Cell,
    layernum: int,
    periodnum: int,
    k: int,
)
    requires
        c.cell_period_ready(cell, layernum, periodnum),
        c.cell_period(cell, layernum, periodnum) is Ok,
        0 <= k < cell.instances@.len(),
        ({
            let layer = c.stack.metals@[layernum];
            let p = c.place(cell.instances@[k]);
            p.top_layer >= layer.index && c.intersects(p, layer, periodnum)
        }),
    ensures
        ({
            let layer = c.stack.metals@[layernum];
            let region = blocked_region(c.place(cell.instances@[k]), layer.spec.dir);
            let (from, to) = (c.prim(region.0), c.prim(region.1));
            let span = c.layer_span(layer, cell.outline);
            let input = c.cell_period_input(cell, layernum, periodnum);
            let shapes = c.cell_period(cell, layernum, periodnum)->Ok_0;
            &&& clear_between(converted_tracks(c, layer, periodnum, span, input), from, to)
            &&& forall|j: int|
                input.bots.len() <= j < shapes.len() ==> rect_clear_of(
                    (#[trigger] shapes[j]).inner,
                    layer.spec.dir,
                    from,
                    to,
                )
        }),
{
    let layer = c.stack.metals@[layernum];
    let p = c.place(cell.instances@[k]);
    let placed = c.place_all(cell.instances@);
    assert(placed[k] == p);
    let tall = placed.filter(up_to_layer(layer.index as int));
    filter_contains(placed, up_to_layer(layer.index as int), p);
    let near = tall.filter(c.overlapping(layer, periodnum));
    filter_contains(tall, c.overlapping(layer, periodnum), p);
    let i = choose|i: int| 0 <= i < near.len() && near[i] == p;
    let input = c.cell_period_input(cell, layernum, periodnum);
    assert(input.blockages[i] == blocked_region(p, layer.spec.dir));
    let span = c.layer_span(layer, cell.outline);
    wires_keep_clear_of_instances(c, layer, periodnum, span, input, i);
}

/// In the period that a cut of a cell comes up in, no wire passes over the cut on the signal that
/// starts and ends where the track of the cut does, and neither does any rectangle that comes out
/// for one.
pub proof fn cell_wires_keep_clear_of_cuts(
    c: ConverterView,
    cell: Cell,
    layernum: int,
    periodnum: int,
    cut: ValidTrackLoc,
)
    requires
        0 <= periodnum,
        c.cell_period_ready(cell, layernum, periodnum),
        c.cell_period(cell, layernum, periodnum) is Ok,
        accepted(cell.cuts@).contains(cut),
        cut.layer == c.stack.metals@[layernum].index,
        in_period(c.stack.metals@[layernum], periodnum, cut.track as int),
    ensures
        ({
            let layer = c.stack.metals@[layernum];
            let halfcut = half(layer.spec.cutsize.0 as int);
            let (from, to) = (cut.dist.0 - halfcut, cut.dist.0 + halfcut);
            let span = c.layer_span(layer, cell.outline);
            let input = c.cell_period_input(cell, layernum, periodnum);
            let shapes = c.cell_period(cell, layernum, periodnum)->Ok_0;
            let p = converted_tracks(c, layer, periodnum, span, input);
            let track = cut.track as int;
            let signal = track % (layer.period.signals@.len() as int);
            let segs = p.signals[signal].segments;
            let o = first_rect(c, layer, input, p, signal);
            &&& p.signals[signal].start == layer.signal_start(track)
            &&& p.signals[signal].start + p.signals[signal].width == layer.signal_stop(track)
            &&& clear_of(segs, from, to)
            &&& forall|j: int|
                o <= j < o + segs.len() ==> rect_clear_of(
                    (#[trigger] shapes[j]).inner,
                    layer.spec.dir,
                    from,
                    to,
                )
        }),
{
    let layer = c.stack.metals@[layernum];
    let span = c.layer_span(layer, cell.outline);
    let input = c.cell_period_input(cell, layernum, periodnum);
    let all = accepted(cell.cuts@);
    filter_contains(all, on_layer(layer.index as int), cut);
    filter_contains(all.filter(on_layer(layer.index as int)), cut_in_period(layer, periodnum), cut);
    let i = choose|i: int| 0 <= i < input.cuts.len() && input.cuts[i] == cut;
    wires_keep_clear_of_cuts(c, layer, periodnum, span, input, i);
    converted_signal_is_on_its_track(c, layer, periodnum, span, input, cut);
}

/// The shapes of a period start with its vias, one for each assignment for which the layer is the
/// lower one. A via is on no net. Its centre has the distance along the lower track as its `x` and
/// the distance along the upper track as its `y`, whichever way the layers run; so it is on the
/// crossing of the two tracks where the lower layer is horizontal, and transposed from it where the
/// lower layer is vertical.
pub proof fn vias_are_centred(
    c: ConverterView,
    layer: ValidMetalLayer,
    periodnum: int,
    span: int,
    input: PeriodInput,
    i: int,
)
    requires
        c.period_outcome(layer, periodnum, span, input) is Ok,
        0 <= i < input.bots.len(),
    ensures
        ({
            let via = c.period_outcome(layer, periodnum, span, input)->Ok_0[i];
            let a = input.bots[i]->0;
            &&& via.net is None
            &&& via.layer == c.keys[layer.index as int]
            &&& via.inner matches ShapeView::Rect { p0, p1 } && {
                &&& p0.0 + p1.0 == 2 * a.bot.dist.0
                &&& p0.1 + p1.1 == 2 * a.top.dist.0
            }
        }),
{
    assert(c.period_outcome(layer, periodnum, span, input)->Ok_0[i] == c.via_element(
        layer.index as int,
        input.bots[i],
    ));
}

/// The wire of a period with tracks `p` that location `loc` is on.
pub open spec fn wire_at(layer: ValidMetalLayer, p: LayerPeriodView, loc: ValidTrackLoc) -> int {
    let dist = loc.dist.0 as int;
    first_covering(p.signals[signal_of(layer, loc)].segments, dist, dist, 0)
}

/// Whether two locations are on the same wire of a period with tracks `p`.
pub open spec fn same_wire(
    layer: ValidMetalLayer,
    p: LayerPeriodView,
    a: ValidTrackLoc,
    b: ValidTrackLoc,
) -> bool {
    &&& signal_of(layer, a) == signal_of(layer, b)
    &&& wire_at(layer, p, a) == wire_at(layer, p, b)
}

/// Whether the wire that location `loc` is on is on net `net` in a converted period, and so is the
/// rectangle that comes out for it.
pub open spec fn wire_is_on_net(
    c: ConverterView,
    layer: ValidMetalLayer,
    periodnum: int,
    span: int,
    input: PeriodInput,
    loc: ValidTrackLoc,
    net: Seq<char>,
) -> bool {
    let p = converted_tracks(c, layer, periodnum, span, input);
    let shapes = c.period_outcome(layer, periodnum, span, input)->Ok_0;
    let signal = loc.track as int % (layer.period.signals@.len() as int);
    let track = p.signals[signal];
    let f = wire_at(layer, p, loc);
    let rect = shapes[first_rect(c, layer, input, p, signal) + f];
    &&& 0 <= f < track.segments.len()
    &&& track.segments[f].covers(loc.dist.0 as int, loc.dist.0 as int)
    &&& track.segments[f].net == Some(net)
    &&& rect == c.wire_element(layer.index as int, track, track.segments[f])
    &&& rect.net == Some(net)
}

/// The wire of an assignment from above is on its net in the converted period, if every later
/// assignment is on another wire or has the same net.
#[verifier::spinoff_prover]
pub proof fn top_assignment_reaches_its_wire(
    c: ConverterView,
    layer: ValidMetalLayer,
    periodnum: int,
    span: int,
    input: PeriodInput,
    i: int,
)
    requires
        c.period_ready(layer, periodnum, span, input),
        c.period_outcome(layer, periodnum, span, input) is Ok,
        0 <= i < input.tops.len(),
        forall|k: int|
            i < k < input.tops.len() && same_wire(
                layer,
                converted_tracks(c, layer, periodnum, span, input),
                input.tops[i]->0.top,
                (#[trigger] input.tops[k])->0.top,
            ) ==> input.tops[k]->0.net@ == input.tops[i]->0.net@,
    ensures
        input.tops[i] is Some,
        wire_is_on_net(
            c,
            layer,
            periodnum,
            span,
            input,
            input.tops[i]->0.top,
            input.tops[i]->0.net@,
        ),
{
    edits_are_in_range(c, layer, periodnum, span, input);
    let blank = layer.layer_period(periodnum, span);
    let edits = c.edits(layer, input);
    let nland = c.landing(layer, input).len() as int;
    let p = converted_tracks(c, layer, periodnum, span, input);
    assert(edits.take(edits.len() as int) =~= edits);
    assert forall|k: int| i <= k < input.tops.len() implies {
        &&& edits[nland + k] == c.top_edit(layer, #[trigger] input.tops[k])
        &&& edits[nland + k] is Land
    } by {
        edit_does_not_fail(blank, edits, nland + k);
    }
    assert(edits[nland + i] is Land);
    assert forall|k: int| nland + i < k < edits.len() implies {
        &&& (#[trigger] edits[k]) is Land
        &&& on_same_wire(p, edits[nland + i], edits[k]) ==> edits[k]->net == edits[nland + i]->net
    } by {
        assert(edits[k] == c.top_edit(layer, input.tops[k - nland]));
    }
    assigned_net_stays(blank, edits, nland + i, edits.len() as int);
    apply_all_keeps_tracks(blank, edits, edits.len() as int);
    wire_comes_out(c, layer, periodnum, span, input, input.tops[i]->0.top);
}

/// The wire of an assignment from below is on its net in the converted period, if every later
/// assignment is on another wire or has the same net.
#[verifier::spinoff_prover]
pub proof fn bot_assignment_reaches_its_wire(
    c: ConverterView,
    layer: ValidMetalLayer,
    periodnum: int,
    span: int,
    input: PeriodInput,
    i: int,
)
    requires
        c.period_ready(layer, periodnum, span, input),
        c.period_outcome(layer, periodnum, span, input) is Ok,
        0 <= i < input.bots.len(),
        forall|k: int|
            i < k < input.bots.len() && same_wire(
                layer,
                converted_tracks(c, layer, periodnum, span, input),
                input.bots[i]->0.bot,
                (#[trigger] input.bots[k])->0.bot,
            ) ==> input.bots[k]->0.net@ == input.bots[i]->0.net@,
        forall|k: int|
            0 <= k < input.tops.len() && same_wire(
                layer,
                converted_tracks(c, layer, periodnum, span, input),
                input.bots[i]->0.bot,
                (#[trigger] input.tops[k])->0.top,
            ) ==> input.tops[k]->0.net@ == input.bots[i]->0.net@,
    ensures
        input.bots[i] is Some,
        wire_is_on_net(
            c,
            layer,
            periodnum,
            span,
            input,
            input.bots[i]->0.bot,
            input.bots[i]->0.net@,
        ),
{
    edits_are_in_range(c, layer, periodnum, span, input);
    let blank = layer.layer_period(periodnum, span);
    let edits = c.edits(layer, input);
    let ncarve = c.carving(layer, input).len() as int;
    let nland = c.landing(layer, input).len() as int;
    let p = converted_tracks(c, layer, periodnum, span, input);
    assert(edits.take(edits.len() as int) =~= edits);
    assert(edits[ncarve + i] == c.bot_edit(layer, input.bots[i]));
    edit_does_not_fail(blank, edits, ncarve + i);
    assert forall|k: int| ncarve + i < k < edits.len() implies {
        &&& (#[trigger] edits[k]) is Land
        &&& on_same_wire(p, edits[ncarve + i], edits[k]) ==> edits[k]->net == edits[ncarve + i]->net
    } by {
        edit_does_not_fail(blank, edits, k);
        if k < nland {
            assert(edits[k] == c.bot_edit(layer, input.bots[k - ncarve]));
        } else {
            assert(edits[k] == c.top_edit(layer, input.tops[k - nland]));
        }
    }
    assigned_net_stays(blank, edits, ncarve + i, edits.len() as int);
    apply_all_keeps_tracks(blank, edits, edits.len() as int);
    wire_comes_out(c, layer, periodnum, span, input, input.bots[i]->0.bot);
}

proof fn wire_comes_out(
    c: ConverterView,
    layer: ValidMetalLayer,
    periodnum: int,
    span: int,
    input: PeriodInput,
    loc: ValidTrackLoc,
)
    requires
        c.period_outcome(layer, periodnum, span, input) is Ok,
        ({
            let p = converted_tracks(c, layer, periodnum, span, input);
            &&& 0 <= signal_of(layer, loc) < p.signals.len()
            &&& wire_at(layer, p, loc) < p.signals[signal_of(layer, loc)].segments.len()
        }),
    ensures
        ({
            let p = converted_tracks(c, layer, periodnum, span, input);
            let shapes = c.period_outcome(layer, periodnum, span, input)->Ok_0;
            let track = p.signals[signal_of(layer, loc)];
            let f = wire_at(layer, p, loc);
            &&& 0 <= f
            &&& track.segments[f].covers(loc.dist.0 as int, loc.dist.0 as int)
            &&& shapes[first_rect(c, layer, input, p, signal_of(layer, loc)) + f] == c.wire_element(
                layer.index as int,
                track,
                track.segments[f],
            )
        }),
{
    let p = converted_tracks(c, layer, periodnum, span, input);
    let (signal, dist) = (signal_of(layer, loc), loc.dist.0 as int);
    signal_has_its_rectangles(c, layer, periodnum, span, input, signal);
    first_covering_is_first(p.signals[signal].segments, dist, dist, 0);
}

/// Whether all of `assigns` that are on the wire of location `loc`, in a period with tracks `p`,
/// have net `net`.
pub open spec fn wire_has_one_net(
    layer: ValidMetalLayer,
    periodnum: int,
    p: LayerPeriodView,
    assigns: Seq<ValidAssign>,
    loc: ValidTrackLoc,
    net: Seq<char>,
) -> bool {
    forall|b: ValidAssign| #[trigger]
        assigns.contains(b) ==> {
            &&& b.bot.layer == layer.index && in_period(layer, periodnum, b.bot.track as int)
                && same_wire(layer, p, loc, b.bot) ==> b.net@ == net
            &&& b.top.layer == layer.index && in_period(layer, periodnum, b.top.track as int)
                && same_wire(layer, p, loc, b.top) ==> b.net@ == net
        }
}

/// The wires of an assignment of a cell are on its net, each in the period of its layer that it
/// comes up in, if the cell assigns no other net to the same wire.
pub proof fn cell_assignment_reaches_its_wires(
    c: ConverterView,
    cell: Cell,
    layernum: int,
    periodnum: int,
    assign: ValidAssign,
)
    requires
        c.cell_period_ready(cell, layernum, periodnum),
        c.cell_period(cell, layernum, periodnum) is Ok,
        accepted(cell.assignments@).contains(assign),
    ensures
        ({
            let layer = c.stack.metals@[layernum];
            let span = c.layer_span(layer, cell.outline);
            let input = c.cell_period_input(cell, layernum, periodnum);
            let p = converted_tracks(c, layer, periodnum, span, input);
            let all = accepted(cell.assignments@);
            let net = assign.net@;
            &&& assign.bot.layer == layer.index && in_period(
                layer,
                periodnum,
                assign.bot.track as int,
            ) && wire_has_one_net(layer, periodnum, p, all, assign.bot, net) ==> wire_is_on_net(
                c,
                layer,
                periodnum,
                span,
                input,
                assign.bot,
                net,
            )
            &&& assign.top.layer == layer.index && in_period(
                layer,
                periodnum,
                assign.top.track as int,
            ) && wire_has_one_net(layer, periodnum, p, all, assign.top, net) ==> wire_is_on_net(
                c,
                layer,
                periodnum,
                span,
                input,
                assign.top,
                net,
            )
        }),
{
    let layer = c.stack.metals@[layernum];
    let span = c.layer_span(layer, cell.outline);
    let input = c.cell_period_input(cell, layernum, periodnum);
    let p = converted_tracks(c, layer, periodnum, span, input);
    let all = accepted(cell.assignments@);
    let net = assign.net@;
    if assign.bot.layer == layer.index && in_period(layer, periodnum, assign.bot.track as int)
        && wire_has_one_net(layer, periodnum, p, all, assign.bot, net) {
        assignments_come_from_cell(c, cell, layernum, periodnum, assign.bot, assign);
        let i = choose|i: int| 0 <= i < input.bots.len() && input.bots[i] == Some(assign);
        bot_assignment_reaches_its_wire(c, layer, periodnum, span, input, i);
    }
    if assign.top.layer == layer.index && in_period(layer, periodnum, assign.top.track as int)
        && wire_has_one_net(layer, periodnum, p, all, assign.top, net) {
        assignments_come_from_cell(c, cell, layernum, periodnum, assign.top, assign);
        let i = choose|i: int| 0 <= i < input.tops.len() && input.tops[i] == Some(assign);
        top_assignment_reaches_its_wire(c, layer, periodnum, span, input, i);
    }
}

proof fn assignments_come_from_cell(
    c: ConverterView,
    cell: Cell,
    layernum: int,
    periodnum: int,
    loc: ValidTrackLoc,
    assign: ValidAssign,
)
    requires
        in_period(c.stack.metals@[layernum], periodnum, loc.track as int),
    ensures
        ({
            let layer = c.stack.metals@[layernum];
            let input = c.cell_period_input(cell, layernum, periodnum);
            let all = accepted(cell.assignments@);
            &&& forall|k: int|
                0 <= k < input.bots.len() ==> {
                    let b = (#[trigger] input.bots[k])->0;
                    &&& all.contains(b)
                    &&& b.bot.layer == layer.index
                    &&& in_period(layer, periodnum, b.bot.track as int)
                }
            &&& forall|k: int|
                0 <= k < input.tops.len() ==> {
                    let b = (#[trigger] input.tops[k])->0;
                    &&& all.contains(b)
                    &&& b.top.layer == layer.index
                    &&& in_period(layer, periodnum, b.top.track as int)
                }
            &&& input.bots.contains(Some(assign)) <==> all.contains(assign) && assign.bot.layer
                == layer.index && in_period(layer, periodnum, assign.bot.track as int)
            &&& input.tops.contains(Some(assign)) <==> all.contains(assign) && assign.top.layer
                == layer.index && in_period(layer, periodnum, assign.top.track as int)
        }),
{
    let layer = c.stack.metals@[layernum];
    let input = c.cell_period_input(cell, layernum, periodnum);
    let all = accepted(cell.assignments@);
    let n = layer.period.signals@.len() as int;
    assert(n > 0) by (nonlinear_arith)
        requires
            n >= 0,
            periodnum * n < (periodnum + 1) * n,
    ;
    assignment_comes_up_in_its_periods(c, cell, assign, layernum, periodnum);
    track_is_in_one_period(layer, periodnum, assign.bot.track as int);
    track_is_in_one_period(layer, periodnum, assign.top.track as int);
    let ncarve = c.carving(layer, input).len() as int;
    let nland = c.landing(layer, input).len() as int;
    assert forall|k: int| 0 <= k < input.bots.len() implies {
        let b = (#[trigger] input.bots[k])->0;
        &&& all.contains(b)
        &&& b.bot.layer == layer.index
        &&& in_period(layer, periodnum, b.bot.track as int)
    } by {
        let b = input.bots[k]->0;
        no_assignment_is_missing(c, cell, layernum, periodnum, ncarve + k);
        assert(c.edits(layer, input)[ncarve + k] == c.bot_edit(layer, input.bots[k]));
        assert(input.bots[k] == Some(b));
        assert(input.bots.contains(Some(b)));
        assignment_comes_up_in_its_periods(c, cell, b, layernum, periodnum);
        track_is_in_one_period(layer, periodnum, b.bot.track as int);
    }
    assert forall|k: int| 0 <= k < input.tops.len() implies {
        let b = (#[trigger] input.tops[k])->0;
        &&& all.contains(b)
        &&& b.top.layer == layer.index
        &&& in_period(layer, periodnum, b.top.track as int)
    } by {
        let b = input.tops[k]->0;
        no_assignment_is_missing(c, cell, layernum, periodnum, nland + k);
        assert(c.edits(layer, input)[nland + k] == c.top_edit(layer, input.tops[k]));
        assert(input.tops[k] == Some(b));
        assert(input.tops.contains(Some(b)));
        assignment_comes_up_in_its_periods(c, cell, b, layernum, periodnum);
        track_is_in_one_period(layer, periodnum, b.top.track as int);
    }
}

pub(crate) proof fn edit_does_not_fail(p: LayerPeriodView, edits: Seq<TrackEdit>, i: int)
    requires
        0 <= i < edits.len(),
        apply_all(p, edits) is Ok,
    ensures
        !(edits[i] is Fail),
{
    apply_all_step(p, edits, i);
    if edits[i] is Fail {
        apply_all_fails_early(p, edits, i + 1);
    }
}

} // verus!
