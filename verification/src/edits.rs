//! The edits that turn the unbroken tracks of a period into its wires.

use vstd::prelude::*;

use crate::coords::fits;
use crate::error::ErrorView;
use crate::tracks::{
    assigned_net_is_found, clear_of, cut_clears_region, cut_error, cut_keeps_clear, first_covering,
    in_order, same_wire_is_found, same_wires, LayerPeriodView, TrackView,
};

verus! {

/// What happens once the wire for an assignment has been found.
pub enum Landing {
    /// Nothing more: the layer is the upper one of the two.
    Plain,
    /// A via is drawn from `p0` to `p1`.
    Via { p0: (int, int), p1: (int, int) },
    /// A via is called for, but it has no layer to be drawn on.
    NoViaLayer,
}

/// One step in the making of a period.
pub enum TrackEdit {
    /// Cuts the region from `start` to `stop` out of every track.
    Block { start: int, stop: int },
    /// Cuts the region from `start` to `stop` out of one signal track.
    Cut { signal: int, start: int, stop: int },
    /// Puts the wire at `dist` of one signal track on a net. It is error `missing` if there is no
    /// such wire.
    Land { signal: int, dist: int, net: Seq<char>, missing: ErrorView, landing: Landing },
    /// Fails.
    Fail { error: ErrorView },
}

/// The error of a via that has no layer.
pub open spec fn via_layer_error() -> ErrorView {
    ErrorView::Str("Raw-Layout Layer Not Defined"@)
}

/// The period with signal track `signal` replaced.
pub open spec fn with_signal(p: LayerPeriodView, signal: int, track: TrackView) -> LayerPeriodView {
    LayerPeriodView { signals: p.signals.update(signal, track), ..p }
}

/// The outcome of one edit.
pub open spec fn apply(p: LayerPeriodView, edit: TrackEdit) -> Result<LayerPeriodView, ErrorView> {
    match edit {
        TrackEdit::Block { start, stop } => match p.cut(start, stop) {
            Some(q) => Ok(q),
            None => Err(cut_error()),
        },
        TrackEdit::Cut { signal, start, stop } => match p.signals[signal].cut(start, stop) {
            Some(track) => Ok(with_signal(p, signal, track)),
            None => Err(cut_error()),
        },
        TrackEdit::Land { signal, dist, net, missing, landing } => match p.signals[signal].assign(
            dist,
            net,
        ) {
            Some(track) => if landing is NoViaLayer {
                Err(via_layer_error())
            } else {
                Ok(with_signal(p, signal, track))
            },
            None => Err(missing),
        },
        TrackEdit::Fail { error } => Err(error),
    }
}

/// The outcome of `edits`, one after the other, up to the first that fails.
pub open spec fn apply_all(p: LayerPeriodView, edits: Seq<TrackEdit>) -> Result<
    LayerPeriodView,
    ErrorView,
>
    decreases edits.len(),
{
    if edits.len() == 0 {
        Ok(p)
    } else {
        match apply_all(p, edits.drop_last()) {
            Ok(q) => apply(q, edits.last()),
            Err(e) => Err(e),
        }
    }
}

/// Whether the first `i` of `edits` succeed, so that the next one is tried.
pub open spec fn reached(p: LayerPeriodView, edits: Seq<TrackEdit>, i: int) -> bool {
    apply_all(p, edits.take(i)) is Ok
}

/// Whether an edit names one of `nsig` signal tracks, and a cut has its coordinates within range.
pub open spec fn edit_in_range(edit: TrackEdit, nsig: int) -> bool {
    match edit {
        TrackEdit::Block { start, stop } => fits(start) && fits(stop),
        TrackEdit::Cut { signal, start, stop } => {
            &&& 0 <= signal < nsig
            &&& fits(start)
            &&& fits(stop)
        },
        TrackEdit::Land { signal, dist, net, missing, landing } => 0 <= signal < nsig,
        TrackEdit::Fail { error } => true,
    }
}

/// Whether an edit draws a via.
pub open spec fn draws_via(edit: TrackEdit) -> bool {
    edit is Land && edit->landing is Via
}

/// Whether the via that an edit draws has its corners within range.
pub open spec fn via_in_range(edit: TrackEdit) -> bool {
    let (p0, p1) = (edit->landing->p0, edit->landing->p1);
    fits(p0.0) && fits(p0.1) && fits(p1.0) && fits(p1.1)
}

/// One more edit.
pub proof fn apply_all_step(p: LayerPeriodView, edits: Seq<TrackEdit>, i: int)
    requires
        0 <= i < edits.len(),
    ensures
        apply_all(p, edits.take(i + 1)) == match apply_all(p, edits.take(i)) {
            Ok(q) => apply(q, edits[i]),
            Err(e) => Err(e),
        },
{
    assert(edits.take(i + 1).drop_last() =~= edits.take(i));
    assert(edits.take(i + 1).last() == edits[i]);
}

/// The first edit that fails decides: no later one is tried.
pub proof fn apply_all_fails_early(p: LayerPeriodView, edits: Seq<TrackEdit>, i: int)
    requires
        0 <= i <= edits.len(),
        apply_all(p, edits.take(i)) is Err,
    ensures
        apply_all(p, edits) == apply_all(p, edits.take(i)),
    decreases edits.len() - i,
{
    if i == edits.len() {
        assert(edits.take(i) =~= edits);
    } else {
        apply_all_step(p, edits, i);
        apply_all_fails_early(p, edits, i + 1);
    }
}

/// An edit keeps the number of tracks, and the position of each.
pub proof fn apply_keeps_tracks(p: LayerPeriodView, edit: TrackEdit)
    requires
        apply(p, edit) is Ok,
        edit_in_range(edit, p.signals.len() as int),
    ensures
        apply(p, edit)->Ok_0.signals.len() == p.signals.len(),
        apply(p, edit)->Ok_0.rails.len() == p.rails.len(),
        forall|k: int|
            0 <= k < p.signals.len() ==> {
                let before = p.signals[k];
                let after = #[trigger] apply(p, edit)->Ok_0.signals[k];
                after.dir == before.dir && after.start == before.start && after.width
                    == before.width
            },
        forall|k: int|
            0 <= k < p.rails.len() ==> {
                let before = p.rails[k];
                let after = #[trigger] apply(p, edit)->Ok_0.rails[k];
                after.dir == before.dir && after.start == before.start && after.width
                    == before.width
            },
{
}

/// Whether the wires of every track follow each other without overlap.
pub open spec fn period_in_order(p: LayerPeriodView) -> bool {
    &&& forall|k: int| 0 <= k < p.rails.len() ==> in_order((#[trigger] p.rails[k]).segments)
    &&& forall|k: int| 0 <= k < p.signals.len() ==> in_order((#[trigger] p.signals[k]).segments)
}

/// Whether no wire of any track passes over the region from `from` to `to`.
pub open spec fn clear_between(p: LayerPeriodView, from: int, to: int) -> bool {
    &&& forall|k: int|
        0 <= k < p.rails.len() ==> clear_of((#[trigger] p.rails[k]).segments, from, to)
    &&& forall|k: int|
        0 <= k < p.signals.len() ==> clear_of((#[trigger] p.signals[k]).segments, from, to)
}

/// Edits leave the tracks where they are.
pub proof fn apply_all_keeps_tracks(p: LayerPeriodView, edits: Seq<TrackEdit>, n: int)
    requires
        0 <= n <= edits.len(),
        apply_all(p, edits.take(n)) is Ok,
        forall|k: int|
            0 <= k < n ==> edit_in_range(#[trigger] edits[k], p.signals.len() as int),
    ensures
        apply_all(p, edits.take(n))->Ok_0.rails.len() == p.rails.len(),
        apply_all(p, edits.take(n))->Ok_0.signals.len() == p.signals.len(),
        forall|k: int|
            0 <= k < p.signals.len() ==> {
                let before = p.signals[k];
                let after = #[trigger] apply_all(p, edits.take(n))->Ok_0.signals[k];
                after.dir == before.dir && after.start == before.start && after.width
                    == before.width
            },
        forall|k: int|
            0 <= k < p.rails.len() ==> {
                let before = p.rails[k];
                let after = #[trigger] apply_all(p, edits.take(n))->Ok_0.rails[k];
                after.dir == before.dir && after.start == before.start && after.width
                    == before.width
            },
    decreases n,
{
    if n > 0 {
        apply_all_step(p, edits, n - 1);
        apply_all_keeps_tracks(p, edits, n - 1);
        let q = apply_all(p, edits.take(n - 1))->Ok_0;
        apply_keeps_tracks(q, edits[n - 1]);
        assert forall|k: int| 0 <= k < p.signals.len() implies {
            let before = p.signals[k];
            let after = #[trigger] apply_all(p, edits.take(n))->Ok_0.signals[k];
            after.dir == before.dir && after.start == before.start && after.width == before.width
        } by {
            assert(apply(q, edits[n - 1])->Ok_0.signals[k].start == q.signals[k].start);
        }
        assert forall|k: int| 0 <= k < p.rails.len() implies {
            let before = p.rails[k];
            let after = #[trigger] apply_all(p, edits.take(n))->Ok_0.rails[k];
            after.dir == before.dir && after.start == before.start && after.width == before.width
        } by {
            assert(apply(q, edits[n - 1])->Ok_0.rails[k].start == q.rails[k].start);
        }
    }
}

/// An edit keeps wires in order, clears the region that it cuts out, and leaves a region clear that
/// was clear before.
pub proof fn apply_keeps_clear(p: LayerPeriodView, edit: TrackEdit, from: int, to: int)
    requires
        period_in_order(p),
        apply(p, edit) is Ok,
        edit_in_range(edit, p.signals.len() as int),
    ensures
        period_in_order(apply(p, edit)->Ok_0),
        forall|k: int|
            0 <= k < p.signals.len() && clear_of(p.signals[k].segments, from, to) ==> clear_of(
                (#[trigger] apply(p, edit)->Ok_0.signals[k]).segments,
                from,
                to,
            ),
        clear_between(p, from, to) ==> clear_between(apply(p, edit)->Ok_0, from, to),
        edit matches TrackEdit::Block { start, stop } ==> clear_between(
            apply(p, edit)->Ok_0,
            start,
            stop,
        ),
        edit matches TrackEdit::Cut { signal, start, stop } ==> clear_of(
            apply(p, edit)->Ok_0.signals[signal].segments,
            start,
            stop,
        ),
{
    let q = apply(p, edit)->Ok_0;
    apply_keeps_tracks(p, edit);
    match edit {
        TrackEdit::Block { start, stop } => {
            assert forall|k: int| 0 <= k < p.rails.len() implies {
                let segs = (#[trigger] q.rails[k]).segments;
                &&& in_order(segs)
                &&& clear_of(segs, start, stop)
                &&& clear_of(p.rails[k].segments, from, to) ==> clear_of(segs, from, to)
            } by {
                assert(p.rails[k].cut(start, stop) is Some);
                cut_clears_region(p.rails[k].segments, start, stop, 0);
                if clear_of(p.rails[k].segments, from, to) {
                    cut_keeps_clear(p.rails[k].segments, start, stop, from, to);
                }
            }
            assert forall|k: int| 0 <= k < p.signals.len() implies {
                let segs = (#[trigger] q.signals[k]).segments;
                &&& in_order(segs)
                &&& clear_of(segs, start, stop)
                &&& clear_of(p.signals[k].segments, from, to) ==> clear_of(segs, from, to)
            } by {
                assert(p.signals[k].cut(start, stop) is Some);
                cut_clears_region(p.signals[k].segments, start, stop, 0);
                if clear_of(p.signals[k].segments, from, to) {
                    cut_keeps_clear(p.signals[k].segments, start, stop, from, to);
                }
            }
        },
        TrackEdit::Cut { signal, start, stop } => {
            cut_clears_region(p.signals[signal].segments, start, stop, 0);
            if clear_of(p.signals[signal].segments, from, to) {
                cut_keeps_clear(p.signals[signal].segments, start, stop, from, to);
            }
        },
        TrackEdit::Land { signal, dist, net, missing, landing } => {
            let segs = p.signals[signal].segments;
            assigned_net_is_found(segs, dist, net);
            assert forall|k: int| 0 <= k < segs.len() implies {
                let after = #[trigger] q.signals[signal].segments[k];
                after.start == segs[k].start && after.stop == segs[k].stop
            } by {
                assert(segs[k].start == q.signals[signal].segments[k].start);
            }
        },
        TrackEdit::Fail { error } => {},
    }
}

/// Edits keep wires in order, and leave a region clear that was clear before.
pub proof fn apply_all_keeps_clear(
    p: LayerPeriodView,
    edits: Seq<TrackEdit>,
    i: int,
    j: int,
    from: int,
    to: int,
)
    requires
        0 <= i <= j <= edits.len(),
        period_in_order(p),
        apply_all(p, edits.take(j)) is Ok,
        forall|k: int|
            0 <= k < j ==> edit_in_range(#[trigger] edits[k], p.signals.len() as int),
    ensures
        apply_all(p, edits.take(i)) is Ok,
        apply_all(p, edits.take(j))->Ok_0.rails.len() == p.rails.len(),
        apply_all(p, edits.take(j))->Ok_0.signals.len() == p.signals.len(),
        period_in_order(apply_all(p, edits.take(j))->Ok_0),
        clear_between(apply_all(p, edits.take(i))->Ok_0, from, to) ==> clear_between(
            apply_all(p, edits.take(j))->Ok_0,
            from,
            to,
        ),
        forall|k: int|
            0 <= k < p.signals.len() && clear_of(
                apply_all(p, edits.take(i))->Ok_0.signals[k].segments,
                from,
                to,
            ) ==> clear_of(
                (#[trigger] apply_all(p, edits.take(j))->Ok_0.signals[k]).segments,
                from,
                to,
            ),
    decreases j,
{
    if j == 0 {
        assert(edits.take(0).len() == 0);
    } else {
        apply_all_step(p, edits, j - 1);
        if i < j {
            apply_all_keeps_clear(p, edits, i, j - 1, from, to);
        } else {
            apply_all_keeps_clear(p, edits, j - 1, j - 1, from, to);
        }
        let before = apply_all(p, edits.take(j - 1))->Ok_0;
        apply_keeps_tracks(before, edits[j - 1]);
        apply_keeps_clear(before, edits[j - 1], from, to);
        assert forall|k: int|
            0 <= k < p.signals.len() && clear_of(
                apply_all(p, edits.take(i))->Ok_0.signals[k].segments,
                from,
                to,
            ) implies clear_of(
            (#[trigger] apply_all(p, edits.take(j))->Ok_0.signals[k]).segments,
            from,
            to,
        ) by {
            if i < j {
                assert(clear_of(before.signals[k].segments, from, to));
                assert(apply(before, edits[j - 1])->Ok_0.signals[k] == apply_all(
                    p,
                    edits.take(j),
                )->Ok_0.signals[k]);
            }
        }
    }
}

/// Once a region has been blocked, it stays clear of wires on every track, whatever edits follow.
pub proof fn blocked_region_stays_clear(p: LayerPeriodView, edits: Seq<TrackEdit>, i: int)
    requires
        0 <= i < edits.len(),
        period_in_order(p),
        apply_all(p, edits) is Ok,
        forall|k: int|
            0 <= k < edits.len() ==> edit_in_range(#[trigger] edits[k], p.signals.len() as int),
        edits[i] is Block,
    ensures
        clear_between(apply_all(p, edits)->Ok_0, edits[i]->Block_start, edits[i]->Block_stop),
{
    let (from, to) = (edits[i]->Block_start, edits[i]->Block_stop);
    assert(edits.take(edits.len() as int) =~= edits);
    apply_all_keeps_clear(p, edits, i, edits.len() as int, from, to);
    apply_all_keeps_clear(p, edits, i + 1, edits.len() as int, from, to);
    apply_all_keeps_clear(p, edits, 0, i, from, to);
    apply_all_step(p, edits, i);
    apply_keeps_clear(apply_all(p, edits.take(i))->Ok_0, edits[i], from, to);
}

/// Once a region has been cut out of a signal track, it stays clear of wires on that track,
/// whatever edits follow.
pub proof fn cut_region_stays_clear(p: LayerPeriodView, edits: Seq<TrackEdit>, i: int)
    requires
        0 <= i < edits.len(),
        period_in_order(p),
        apply_all(p, edits) is Ok,
        forall|k: int|
            0 <= k < edits.len() ==> edit_in_range(#[trigger] edits[k], p.signals.len() as int),
        edits[i] is Cut,
    ensures
        clear_of(
            apply_all(p, edits)->Ok_0.signals[edits[i]->Cut_signal].segments,
            edits[i]->Cut_start,
            edits[i]->Cut_stop,
        ),
{
    let (from, to) = (edits[i]->Cut_start, edits[i]->Cut_stop);
    assert(edits.take(edits.len() as int) =~= edits);
    apply_all_keeps_clear(p, edits, i, edits.len() as int, from, to);
    apply_all_keeps_clear(p, edits, i + 1, edits.len() as int, from, to);
    apply_all_keeps_clear(p, edits, 0, i, from, to);
    apply_all_step(p, edits, i);
    apply_keeps_clear(apply_all(p, edits.take(i))->Ok_0, edits[i], from, to);
}

/// Assignments move no wire.
pub proof fn lands_move_no_wire(p: LayerPeriodView, edits: Seq<TrackEdit>, i: int, n: int, signal: int)
    requires
        0 <= i <= n <= edits.len(),
        apply_all(p, edits.take(n)) is Ok,
        forall|k: int|
            0 <= k < n ==> edit_in_range(#[trigger] edits[k], p.signals.len() as int),
        forall|k: int| i <= k < n ==> (#[trigger] edits[k]) is Land,
        0 <= signal < p.signals.len(),
    ensures
        apply_all(p, edits.take(i)) is Ok,
        same_wires(
            apply_all(p, edits.take(i))->Ok_0.signals[signal].segments,
            apply_all(p, edits.take(n))->Ok_0.signals[signal].segments,
        ),
    decreases n - i,
{
    if i < n {
        apply_all_step(p, edits, n - 1);
        lands_move_no_wire(p, edits, i, n - 1, signal);
        apply_all_keeps_tracks(p, edits, n - 1);
        assert(edits[n - 1] is Land);
        let edit = edits[n - 1];
        let before = apply_all(p, edits.take(n - 1))->Ok_0;
        assigned_net_is_found(before.signals[edit->Land_signal].segments, edit->dist, edit->net);
    }
}

/// Whether two assignments are on the same wire of a signal track of `p`.
pub open spec fn on_same_wire(p: LayerPeriodView, a: TrackEdit, b: TrackEdit) -> bool {
    let segs = p.signals[a->Land_signal].segments;
    &&& a->Land_signal == b->Land_signal
    &&& first_covering(segs, a->dist, a->dist, 0) == first_covering(segs, b->dist, b->dist, 0)
}

/// An assigned wire is still on its net at the end, if every later edit is an assignment that is on
/// another wire or on the same net.
pub proof fn assigned_net_stays(p: LayerPeriodView, edits: Seq<TrackEdit>, i: int, n: int)
    requires
        0 <= i < n <= edits.len(),
        apply_all(p, edits.take(n)) is Ok,
        forall|k: int|
            0 <= k < n ==> edit_in_range(#[trigger] edits[k], p.signals.len() as int),
        edits[i] is Land,
        forall|k: int| i < k < n ==> (#[trigger] edits[k]) is Land,
        forall|k: int|
            i < k < n && on_same_wire(
                apply_all(p, edits.take(n))->Ok_0,
                edits[i],
                #[trigger] edits[k],
            ) ==> edits[k]->net == edits[i]->net,
    ensures
        ({
            let track = apply_all(p, edits.take(n))->Ok_0.signals[edits[i]->Land_signal];
            let f = first_covering(track.segments, edits[i]->dist, edits[i]->dist, 0);
            &&& 0 <= f < track.segments.len()
            &&& track.segments[f].net == Some(edits[i]->net)
        }),
    decreases n,
{
    let signal = edits[i]->Land_signal;
    let (edit, last) = (edits[i], edits[n - 1]);
    lands_move_no_wire(p, edits, n - 1, n, signal);
    apply_all_keeps_tracks(p, edits, n - 1);
    apply_all_step(p, edits, n - 1);
    let before = apply_all(p, edits.take(n - 1))->Ok_0;
    let after = apply_all(p, edits.take(n))->Ok_0;
    assert(last is Land);
    assigned_net_is_found(before.signals[last->Land_signal].segments, last->dist, last->net);
    if n > i + 1 {
        let segs = before.signals[signal].segments;
        assert forall|dist: int|
            #[trigger] first_covering(segs, dist, dist, 0) == first_covering(
                after.signals[signal].segments,
                dist,
                dist,
                0,
            ) by {
            same_wire_is_found(segs, after.signals[signal].segments, dist, dist, 0);
        }
        assert forall|k: int|
            i < k < n - 1 && on_same_wire(before, edit, #[trigger] edits[k]) implies edits[k]->net
            == edit->net by {
            assert(on_same_wire(after, edit, edits[k]));
        }
        assigned_net_stays(p, edits, i, n - 1);
        let f = first_covering(segs, edit->dist, edit->dist, 0);
        if last->Land_signal == signal {
            let g = first_covering(segs, last->dist, last->dist, 0);
            if f == g {
                assert(on_same_wire(after, edit, last));
            }
        }
    }
}

} // verus!
