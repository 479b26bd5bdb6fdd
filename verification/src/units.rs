//! Wires, unit by unit: which stretches of a track of length one have wire on them.

use vstd::prelude::*;

use crate::edits::{
    apply, apply_all, apply_all_fails_early, apply_all_keeps_tracks, apply_all_step,
    apply_keeps_tracks, edit_in_range, reached, TrackEdit,
};
use crate::tracks::{
    assigned_net_is_found, cut_error, cut_segments, first_covering, first_covering_is_first, remainder,
    LayerPeriodView, SegmentView,
};

verus! {

/// Whether there is wire all the way from `x` to `x + 1`.
pub open spec fn wire_on(segs: Seq<SegmentView>, x: int) -> bool {
    exists|k: int| 0 <= k < segs.len() && (#[trigger] segs[k]).start <= x < segs[k].stop
}

/// Whether wires follow each other along the track with a gap between any two.
pub open spec fn apart(segs: Seq<SegmentView>) -> bool {
    forall|i: int, j: int| 0 <= i < j < segs.len() ==> segs[i].stop < segs[j].start
}

/// Whether every wire has a length.
pub open spec fn lengthy(segs: Seq<SegmentView>) -> bool {
    forall|k: int| 0 <= k < segs.len() ==> (#[trigger] segs[k]).start < segs[k].stop
}

/// Whether every wire is on `net`.
pub open spec fn all_on(segs: Seq<SegmentView>, net: Option<Seq<char>>) -> bool {
    forall|k: int| 0 <= k < segs.len() ==> (#[trigger] segs[k]).net == net
}

/// A cut takes out its region, unit by unit, and nothing else. Nets stay as they are.
pub proof fn cut_takes_out_its_units(segs: Seq<SegmentView>, start: int, stop: int)
    requires
        apart(segs),
        cut_segments(segs, start, stop) is Some,
    ensures
        ({
            let after = cut_segments(segs, start, stop)->0;
            &&& start < stop
            &&& apart(after)
            &&& lengthy(segs) ==> lengthy(after)
            &&& forall|x: int| #[trigger]
                wire_on(after, x) <==> wire_on(segs, x) && !(start <= x < stop)
            &&& forall|net: Option<Seq<char>>| #[trigger] all_on(segs, net) ==> all_on(after, net)
        }),
{
    first_covering_is_first(segs, start, stop, 0);
    let i = first_covering(segs, start, stop, 0);
    let left = remainder(segs[i], start, stop);
    let after = cut_segments(segs, start, stop)->0;
    let shift = left.len() - 1;
    assert forall|k: int| 0 <= k < i implies after[k] == segs[k] by {}
    assert forall|k: int| i < k < segs.len() implies #[trigger] segs[k] == after[k + shift] by {}
    assert forall|k: int| i + left.len() <= k < after.len() implies after[k] == segs[k - shift] by {}
    assert forall|k: int| i <= k < i + left.len() implies after[k] == left[k - i] by {}
    assert forall|x: int| #[trigger]
        wire_on(after, x) <==> wire_on(segs, x) && !(start <= x < stop) by {
        if wire_on(after, x) {
            let k = choose|k: int|
                0 <= k < after.len() && (#[trigger] after[k]).start <= x < after[k].stop;
            if k < i {
                assert(segs[k].start <= x < segs[k].stop);
                assert(segs[k].stop < segs[i].start);
            } else if k < i + left.len() {
                assert(left[k - i].start <= x < left[k - i].stop);
                assert(segs[i].start <= x < segs[i].stop);
            } else {
                assert(segs[k - shift].start <= x < segs[k - shift].stop);
                assert(segs[i].stop < segs[k - shift].start);
            }
        }
        if wire_on(segs, x) && !(start <= x < stop) {
            let k = choose|k: int|
                0 <= k < segs.len() && (#[trigger] segs[k]).start <= x < segs[k].stop;
            if k < i {
                assert(after[k].start <= x < after[k].stop);
            } else if k == i {
                if x < start {
                    assert(after[i] == left[0]);
                    assert(after[i].start <= x < after[i].stop);
                } else {
                    assert(after[i + left.len() - 1] == left[left.len() - 1]);
                    assert(after[i + left.len() - 1].start <= x < after[i + left.len() - 1].stop);
                }
            } else {
                assert(after[k + shift].start <= x < after[k + shift].stop);
            }
        }
    }
}

/// A region can be cut exactly if it is not empty and there is wire on every unit of it.
pub proof fn cut_needs_wire_on_every_unit(segs: Seq<SegmentView>, start: int, stop: int)
    requires
        apart(segs),
    ensures
        cut_segments(segs, start, stop) is Some <==> start < stop && forall|x: int|
            start <= x < stop ==> #[trigger] wire_on(segs, x),
{
    first_covering_is_first(segs, start, stop, 0);
    let i = first_covering(segs, start, stop, 0);
    if cut_segments(segs, start, stop) is Some {
        assert forall|x: int| start <= x < stop implies #[trigger] wire_on(segs, x) by {
            assert(segs[i].start <= x < segs[i].stop);
        }
    }
    if start < stop && forall|x: int| start <= x < stop ==> #[trigger] wire_on(segs, x) {
        assert(wire_on(segs, start));
        let k = choose|k: int|
            0 <= k < segs.len() && (#[trigger] segs[k]).start <= start < segs[k].stop;
        one_wire_goes_on(segs, start, stop, k, stop - 1);
        assert(segs[k].covers(start, stop));
    }
}

proof fn one_wire_goes_on(segs: Seq<SegmentView>, start: int, stop: int, k: int, x: int)
    requires
        apart(segs),
        forall|x: int| start <= x < stop ==> #[trigger] wire_on(segs, x),
        0 <= k < segs.len(),
        segs[k].start <= start < segs[k].stop,
        start <= x < stop,
    ensures
        x < segs[k].stop,
    decreases x - start,
{
    if x > start {
        one_wire_goes_on(segs, start, stop, k, x - 1);
        assert(wire_on(segs, x));
        let j = choose|j: int| 0 <= j < segs.len() && (#[trigger] segs[j]).start <= x < segs[j].stop;
        if j < k {
            assert(segs[j].stop < segs[k].start);
        } else if k < j {
            assert(segs[k].stop < segs[j].start);
        }
    }
}

/// At most one wire is at a distance along the track, and it is found there.
pub proof fn wire_at_distance(segs: Seq<SegmentView>, dist: int, k: int)
    requires
        apart(segs),
        0 <= k < segs.len(),
        segs[k].start <= dist <= segs[k].stop,
    ensures
        first_covering(segs, dist, dist, 0) == k,
{
    first_covering_is_first(segs, dist, dist, 0);
    let i = first_covering(segs, dist, dist, 0);
    assert(segs[k].covers(dist, dist));
    if i < k {
        assert(segs[i].stop < segs[k].start);
    }
}

/// Whether an edit cuts into signal track `signal`, or into a rail where that is `None`.
pub open spec fn cuts_into(edit: TrackEdit, signal: Option<int>) -> bool {
    edit is Block || edit is Cut && signal == Some(edit->Cut_signal)
}

/// The region that an edit takes out of a track that it cuts into.
pub open spec fn region(edit: TrackEdit) -> (int, int) {
    match edit {
        TrackEdit::Block { start, stop } => (start, stop),
        TrackEdit::Cut { signal, start, stop } => (start, stop),
        _ => (0, 0),
    }
}

/// Whether one of the first `n` edits takes the unit at `x` out of a track.
pub open spec fn taken_out(edits: Seq<TrackEdit>, n: int, signal: Option<int>, x: int) -> bool {
    exists|k: int|
        0 <= k < n && cuts_into(#[trigger] edits[k], signal) && region(edits[k]).0 <= x < region(
            edits[k],
        ).1
}

/// The wires of a track of `p`: those of signal track `signal`, or of rail `rail` where that is
/// `None`.
pub open spec fn wires(p: LayerPeriodView, signal: Option<int>, rail: int) -> Seq<SegmentView> {
    match signal {
        Some(s) => p.signals[s].segments,
        None => p.rails[rail].segments,
    }
}

/// Whether a track is one of `p`.
pub open spec fn is_track(p: LayerPeriodView, signal: Option<int>, rail: int) -> bool {
    match signal {
        Some(s) => 0 <= s < p.signals.len(),
        None => 0 <= rail < p.rails.len(),
    }
}

/// What an edit does to the wires of a track.
proof fn edit_takes_out(p: LayerPeriodView, edit: TrackEdit, signal: Option<int>, rail: int)
    requires
        apply(p, edit) is Ok,
        edit_in_range(edit, p.signals.len() as int),
        is_track(p, signal, rail),
        apart(wires(p, signal, rail)),
    ensures
        ({
            let segs = wires(p, signal, rail);
            let after = wires(apply(p, edit)->Ok_0, signal, rail);
            &&& cuts_into(edit, signal) ==> {
                &&& cut_segments(segs, region(edit).0, region(edit).1) == Some(after)
                &&& region(edit).0 < region(edit).1
            }
            &&& apart(after)
            &&& lengthy(segs) ==> lengthy(after)
            &&& forall|x: int| #[trigger]
                wire_on(after, x) <==> wire_on(segs, x) && !(cuts_into(edit, signal) && region(
                    edit,
                ).0 <= x < region(edit).1)
            &&& !(edit is Land) ==> forall|net: Option<Seq<char>>| #[trigger]
                all_on(segs, net) ==> all_on(after, net)
            &&& !(edit is Land) && !cuts_into(edit, signal) ==> after == segs
            &&& edit is Land && signal != Some(edit->Land_signal) ==> after == segs
            &&& edit is Land && signal == Some(edit->Land_signal) ==> {
                let f = first_covering(segs, edit->dist, edit->dist, 0);
                &&& 0 <= f < segs.len()
                &&& after == segs.update(f, SegmentView { net: Some(edit->net), ..segs[f] })
            }
        }),
{
    let segs = wires(p, signal, rail);
    let after = wires(apply(p, edit)->Ok_0, signal, rail);
    apply_keeps_tracks(p, edit);
    if cuts_into(edit, signal) {
        if signal is None {
            assert(p.rails[rail].cut(region(edit).0, region(edit).1) is Some);
        } else {
            assert(p.signals[signal->0].cut(region(edit).0, region(edit).1) is Some);
        }
        cut_takes_out_its_units(segs, region(edit).0, region(edit).1);
    } else if edit is Land && signal == Some(edit->Land_signal) {
        assigned_net_is_found(segs, edit->dist, edit->net);
        assert forall|k: int| 0 <= k < segs.len() implies (#[trigger] after[k]).start
            == segs[k].start && after[k].stop == segs[k].stop by {}
        assert forall|x: int| #[trigger] wire_on(after, x) <==> wire_on(segs, x) by {
            if wire_on(after, x) {
                let k = choose|k: int|
                    0 <= k < after.len() && (#[trigger] after[k]).start <= x < after[k].stop;
                assert(segs[k].start <= x < segs[k].stop);
            }
            if wire_on(segs, x) {
                let k = choose|k: int|
                    0 <= k < segs.len() && (#[trigger] segs[k]).start <= x < segs[k].stop;
                assert(after[k].start <= x < after[k].stop);
            }
        }
    } else {
        assert(after == segs);
    }
}

/// The wires of a track after the first `n` edits: what those took out is gone, unit by unit, and
/// nothing else is.
pub proof fn edits_take_out_their_units(
    p: LayerPeriodView,
    edits: Seq<TrackEdit>,
    n: int,
    signal: Option<int>,
    rail: int,
)
    requires
        0 <= n <= edits.len(),
        apply_all(p, edits.take(n)) is Ok,
        forall|k: int|
            0 <= k < n ==> edit_in_range(#[trigger] edits[k], p.signals.len() as int),
        is_track(p, signal, rail),
        apart(wires(p, signal, rail)),
    ensures
        is_track(apply_all(p, edits.take(n))->Ok_0, signal, rail),
        ({
            let segs = wires(p, signal, rail);
            let after = wires(apply_all(p, edits.take(n))->Ok_0, signal, rail);
            &&& apart(after)
            &&& lengthy(segs) ==> lengthy(after)
            &&& forall|x: int| #[trigger]
                wire_on(after, x) <==> wire_on(segs, x) && !taken_out(edits, n, signal, x)
            &&& forall|k: int|
                0 <= k < n && cuts_into(#[trigger] edits[k], signal) ==> region(edits[k]).0
                    < region(edits[k]).1
        }),
    decreases n,
{
    apply_all_keeps_tracks(p, edits, n);
    let segs = wires(p, signal, rail);
    let after = wires(apply_all(p, edits.take(n))->Ok_0, signal, rail);
    if n == 0 {
        assert(edits.take(0).len() == 0);
    } else {
        apply_all_step(p, edits, n - 1);
        edits_take_out_their_units(p, edits, n - 1, signal, rail);
        apply_all_keeps_tracks(p, edits, n - 1);
        let before = apply_all(p, edits.take(n - 1))->Ok_0;
        edit_takes_out(before, edits[n - 1], signal, rail);
        assert forall|x: int| #[trigger]
            wire_on(after, x) <==> wire_on(segs, x) && !taken_out(edits, n, signal, x) by {
            let last = edits[n - 1];
            assert(wire_on(wires(before, signal, rail), x) <==> wire_on(segs, x) && !taken_out(
                edits,
                n - 1,
                signal,
                x,
            ));
            if taken_out(edits, n, signal, x) {
                let k = choose|k: int|
                    0 <= k < n && cuts_into(#[trigger] edits[k], signal) && region(edits[k]).0 <= x
                        < region(edits[k]).1;
                if k < n - 1 {
                    assert(taken_out(edits, n - 1, signal, x));
                }
            }
            if taken_out(edits, n - 1, signal, x) {
                let k = choose|k: int|
                    0 <= k < n - 1 && cuts_into(#[trigger] edits[k], signal) && region(edits[k]).0
                        <= x < region(edits[k]).1;
                assert(taken_out(edits, n, signal, x));
            }
            if cuts_into(last, signal) && region(last).0 <= x < region(last).1 {
                assert(taken_out(edits, n, signal, x));
            }
        }
    }
}

/// As long as no edit is an assignment, wires stay on the net that they are on. A track that no
/// edit cuts into stays as it is.
pub proof fn carving_keeps_nets(
    p: LayerPeriodView,
    edits: Seq<TrackEdit>,
    n: int,
    signal: Option<int>,
    rail: int,
    net: Option<Seq<char>>,
)
    requires
        0 <= n <= edits.len(),
        apply_all(p, edits.take(n)) is Ok,
        forall|k: int|
            0 <= k < n ==> edit_in_range(#[trigger] edits[k], p.signals.len() as int),
        forall|k: int| 0 <= k < n ==> !((#[trigger] edits[k]) is Land),
        is_track(p, signal, rail),
        apart(wires(p, signal, rail)),
        all_on(wires(p, signal, rail), net),
    ensures
        all_on(wires(apply_all(p, edits.take(n))->Ok_0, signal, rail), net),
        (forall|k: int| 0 <= k < n ==> !cuts_into(#[trigger] edits[k], signal)) ==> wires(
            apply_all(p, edits.take(n))->Ok_0,
            signal,
            rail,
        ) == wires(p, signal, rail),
    decreases n,
{
    if n == 0 {
        assert(edits.take(0).len() == 0);
    } else {
        apply_all_step(p, edits, n - 1);
        carving_keeps_nets(p, edits, n - 1, signal, rail, net);
        edits_take_out_their_units(p, edits, n - 1, signal, rail);
        apply_all_keeps_tracks(p, edits, n - 1);
        let before = apply_all(p, edits.take(n - 1))->Ok_0;
        edit_takes_out(before, edits[n - 1], signal, rail);
        assert(all_on(wires(before, signal, rail), net));
    }
}

/// The net that a wire is on once `landings` have been made, one after the other, each on the wire
/// at a distance along a signal track: that of the last one that is made on the wire.
pub open spec fn net_after(
    before: Option<Seq<char>>,
    landings: Seq<(int, int, Seq<char>)>,
    signal: Option<int>,
    start: int,
    stop: int,
) -> Option<Seq<char>>
    decreases landings.len(),
{
    if landings.len() == 0 {
        before
    } else {
        let (on, dist, net) = landings.last();
        if signal == Some(on) && start <= dist <= stop {
            Some(net)
        } else {
            net_after(before, landings.drop_last(), signal, start, stop)
        }
    }
}

/// What assignments, and nothing but assignments, make of the wires of a track from edit `m` on:
/// no wire moves, and each is on the net of the last assignment on it.
pub proof fn landings_set_nets(
    p: LayerPeriodView,
    edits: Seq<TrackEdit>,
    landings: Seq<(int, int, Seq<char>)>,
    m: int,
    n: int,
    signal: Option<int>,
    rail: int,
    net: Option<Seq<char>>,
)
    requires
        0 <= m <= n <= edits.len(),
        landings.len() == n - m,
        apply_all(p, edits.take(n)) is Ok,
        forall|k: int|
            0 <= k < n ==> edit_in_range(#[trigger] edits[k], p.signals.len() as int),
        forall|k: int|
            m <= k < n ==> (#[trigger] edits[k]) is Land && landings[k - m] == (
                edits[k]->Land_signal,
                edits[k]->dist,
                edits[k]->net,
            ),
        is_track(p, signal, rail),
        apart(wires(p, signal, rail)),
        apply_all(p, edits.take(m)) is Ok ==> all_on(
            wires(apply_all(p, edits.take(m))->Ok_0, signal, rail),
            net,
        ),
    ensures
        apply_all(p, edits.take(m)) is Ok,
        ({
            let segs = wires(apply_all(p, edits.take(m))->Ok_0, signal, rail);
            let after = wires(apply_all(p, edits.take(n))->Ok_0, signal, rail);
            &&& after.len() == segs.len()
            &&& forall|k: int|
                0 <= k < after.len() ==> {
                    let seg = #[trigger] after[k];
                    &&& seg.start == segs[k].start
                    &&& seg.stop == segs[k].stop
                    &&& seg.net == net_after(net, landings, signal, seg.start, seg.stop)
                }
        }),
    decreases n - m,
{
    if m < n {
        apply_all_step(p, edits, n - 1);
        let fewer = landings.drop_last();
        landings_set_nets(p, edits, fewer, m, n - 1, signal, rail, net);
        edits_take_out_their_units(p, edits, n - 1, signal, rail);
        apply_all_keeps_tracks(p, edits, n - 1);
        let before = apply_all(p, edits.take(n - 1))->Ok_0;
        let edit = edits[n - 1];
        assert(edit is Land);
        edit_takes_out(before, edit, signal, rail);
        assert(landings.last() == (edit->Land_signal, edit->dist, edit->net));
        let old = wires(before, signal, rail);
        let after = wires(apply_all(p, edits.take(n))->Ok_0, signal, rail);
        assert forall|k: int| 0 <= k < after.len() implies {
            let seg = #[trigger] after[k];
            &&& seg.start == old[k].start
            &&& seg.stop == old[k].stop
            &&& seg.net == net_after(net, landings, signal, seg.start, seg.stop)
        } by {
            assert(old[k].net == net_after(net, fewer, signal, old[k].start, old[k].stop));
            if signal == Some(edit->Land_signal) {
                first_covering_is_first(old, edit->dist, edit->dist, 0);
                if old[k].start <= edit->dist <= old[k].stop {
                    wire_at_distance(old, edit->dist, k);
                }
            }
        }
    }
}

/// Whether `p` has a signal track `signal`, or a rail where that is `None`.
pub open spec fn has_track(p: LayerPeriodView, signal: Option<int>) -> bool {
    match signal {
        Some(s) => 0 <= s < p.signals.len(),
        None => p.rails.len() > 0,
    }
}

/// Whether two regions have no unit in common.
pub open spec fn disjoint(a: (int, int), b: (int, int)) -> bool {
    a.1 <= b.0 || b.1 <= a.0
}

/// Whether there is room for the region of edit number `k` on every track that it cuts into: it has
/// a length, lies between 0 and `span`, and overlaps no region of an edit before.
pub open spec fn room_for(p: LayerPeriodView, edits: Seq<TrackEdit>, k: int, span: int) -> bool {
    forall|signal: Option<int>|
        has_track(p, signal) && #[trigger] cuts_into(edits[k], signal) ==> {
            &&& 0 <= region(edits[k]).0 < region(edits[k]).1 <= span
            &&& forall|j: int|
                0 <= j < k && cuts_into(#[trigger] edits[j], signal) ==> disjoint(
                    region(edits[j]),
                    region(edits[k]),
                )
        }
}

/// Whether there is one unbroken stretch of wire, from 0 to `span`, on every track of `p`.
pub open spec fn unbroken(p: LayerPeriodView, span: int) -> bool {
    &&& forall|k: int|
        0 <= k < p.rails.len() ==> {
            &&& apart((#[trigger] p.rails[k]).segments)
            &&& forall|x: int| wire_on(p.rails[k].segments, x) <==> 0 <= x < span
        }
    &&& forall|k: int|
        0 <= k < p.signals.len() ==> {
            &&& apart((#[trigger] p.signals[k]).segments)
            &&& forall|x: int| wire_on(p.signals[k].segments, x) <==> 0 <= x < span
        }
}

/// One more cut into a track can be made exactly if there is room for it.
proof fn track_has_room(
    p: LayerPeriodView,
    edits: Seq<TrackEdit>,
    n: int,
    span: int,
    signal: Option<int>,
    rail: int,
)
    requires
        0 <= n < edits.len(),
        apply_all(p, edits.take(n)) is Ok,
        forall|k: int|
            0 <= k < n ==> edit_in_range(#[trigger] edits[k], p.signals.len() as int),
        unbroken(p, span),
        is_track(p, signal, rail),
        cuts_into(edits[n], signal),
    ensures
        is_track(apply_all(p, edits.take(n))->Ok_0, signal, rail),
        ({
            let segs = wires(apply_all(p, edits.take(n))->Ok_0, signal, rail);
            let (start, stop) = region(edits[n]);
            cut_segments(segs, start, stop) is Some <==> {
                &&& 0 <= start < stop <= span
                &&& forall|j: int|
                    0 <= j < n && cuts_into(#[trigger] edits[j], signal) ==> disjoint(
                        region(edits[j]),
                        region(edits[n]),
                    )
            }
        }),
{
    let segs = wires(apply_all(p, edits.take(n))->Ok_0, signal, rail);
    let (start, stop) = region(edits[n]);
    let old = wires(p, signal, rail);
    if signal is Some {
        assert(apart(p.signals[signal->0].segments));
        assert(forall|x: int| wire_on(p.signals[signal->0].segments, x) <==> 0 <= x < span);
    } else {
        assert(apart(p.rails[rail].segments));
        assert(forall|x: int| wire_on(p.rails[rail].segments, x) <==> 0 <= x < span);
    }
    assert(forall|x: int| wire_on(old, x) <==> 0 <= x < span);
    edits_take_out_their_units(p, edits, n, signal, rail);
    cut_needs_wire_on_every_unit(segs, start, stop);
    if cut_segments(segs, start, stop) is Some {
        assert(wire_on(segs, start));
        assert(wire_on(segs, stop - 1));
        assert forall|j: int| 0 <= j < n && cuts_into(#[trigger] edits[j], signal) implies disjoint(
            region(edits[j]),
            region(edits[n]),
        ) by {
            let r = region(edits[j]);
            if !disjoint(r, region(edits[n])) {
                let x = if r.0 <= start {
                    start
                } else {
                    r.0
                };
                assert(wire_on(segs, x));
                assert(taken_out(edits, n, signal, x));
            }
        }
    }
    if 0 <= start < stop <= span && forall|j: int|
        0 <= j < n && cuts_into(#[trigger] edits[j], signal) ==> disjoint(
            region(edits[j]),
            region(edits[n]),
        ) {
        assert forall|x: int| start <= x < stop implies #[trigger] wire_on(segs, x) by {
            if taken_out(edits, n, signal, x) {
                let j = choose|j: int|
                    0 <= j < n && cuts_into(#[trigger] edits[j], signal) && region(edits[j]).0 <= x
                        < region(edits[j]).1;
                assert(disjoint(region(edits[j]), region(edits[n])));
            }
            assert(wire_on(old, x));
        }
    }
}

/// Cuts into the tracks of a period succeed exactly if there is room for each of them. The error of
/// the first for which there is none is that of a cut.
pub proof fn carving_needs_room(p: LayerPeriodView, edits: Seq<TrackEdit>, n: int, span: int)
    requires
        0 <= n <= edits.len(),
        unbroken(p, span),
        forall|k: int| 0 <= k < n ==> (#[trigger] edits[k]) is Block || edits[k] is Cut,
        forall|k: int|
            0 <= k < n && #[trigger] reached(p, edits, k) ==> edit_in_range(
                edits[k],
                p.signals.len() as int,
            ),
    ensures
        apply_all(p, edits.take(n)) is Ok <==> forall|k: int|
            0 <= k < n ==> #[trigger] room_for(p, edits, k, span),
        apply_all(p, edits.take(n)) is Err ==> apply_all(p, edits.take(n))->Err_0 == cut_error(),
    decreases n,
{
    if n == 0 {
        assert(edits.take(0).len() == 0);
    } else {
        carving_needs_room(p, edits, n - 1, span);
        apply_all_step(p, edits, n - 1);
        let edit = edits[n - 1];
        if apply_all(p, edits.take(n - 1)) is Ok {
            assert forall|k: int| 0 <= k < n implies edit_in_range(
                #[trigger] edits[k],
                p.signals.len() as int,
            ) by {
                if !reached(p, edits, k) {
                    assert(edits.take(n - 1).take(k) =~= edits.take(k));
                    apply_all_fails_early(p, edits.take(n - 1), k);
                }
            }
            apply_all_keeps_tracks(p, edits, n - 1);
            let q = apply_all(p, edits.take(n - 1))->Ok_0;
            let (start, stop) = region(edit);
            if edit is Cut {
                assert(cuts_into(edit, Some(edit->Cut_signal)));
                track_has_room(p, edits, n - 1, span, Some(edit->Cut_signal), 0);
                if apply(q, edit) is Ok {
                    assert forall|signal: Option<int>|
                        has_track(p, signal) && #[trigger] cuts_into(edits[n - 1], signal) implies {
                        &&& 0 <= start < stop <= span
                        &&& forall|j: int|
                            0 <= j < n - 1 && cuts_into(#[trigger] edits[j], signal) ==> disjoint(
                                region(edits[j]),
                                region(edits[n - 1]),
                            )
                    } by {
                        assert(signal == Some(edit->Cut_signal));
                    }
                    assert(room_for(p, edits, n - 1, span));
                } else if room_for(p, edits, n - 1, span) {
                    assert(has_track(p, Some(edit->Cut_signal)));
                }
            } else {
                assert forall|k: int| 0 <= k < q.rails.len() implies {
                    ((#[trigger] q.rails[k]).cut(start, stop) is Some) <==> {
                        &&& 0 <= start < stop <= span
                        &&& forall|j: int|
                            0 <= j < n - 1 && cuts_into(#[trigger] edits[j], None) ==> disjoint(
                                region(edits[j]),
                                region(edits[n - 1]),
                            )
                    }
                } by {
                    track_has_room(p, edits, n - 1, span, None, k);
                }
                assert forall|k: int| 0 <= k < q.signals.len() implies {
                    ((#[trigger] q.signals[k]).cut(start, stop) is Some) <==> {
                        &&& 0 <= start < stop <= span
                        &&& forall|j: int|
                            0 <= j < n - 1 && cuts_into(#[trigger] edits[j], Some(k)) ==> disjoint(
                                region(edits[j]),
                                region(edits[n - 1]),
                            )
                    }
                } by {
                    track_has_room(p, edits, n - 1, span, Some(k), 0);
                }
                if apply(q, edit) is Ok {
                    assert forall|signal: Option<int>|
                        has_track(p, signal) && #[trigger] cuts_into(edits[n - 1], signal) implies {
                        &&& 0 <= start < stop <= span
                        &&& forall|j: int|
                            0 <= j < n - 1 && cuts_into(#[trigger] edits[j], signal) ==> disjoint(
                                region(edits[j]),
                                region(edits[n - 1]),
                            )
                    } by {
                        if signal is Some {
                            assert(q.signals[signal->0].cut(start, stop) is Some);
                        } else {
                            assert(q.rails[0].cut(start, stop) is Some);
                        }
                    }
                    assert(room_for(p, edits, n - 1, span));
                } else if room_for(p, edits, n - 1, span) {
                    assert forall|k: int| 0 <= k < q.rails.len() implies (
                    #[trigger] q.rails[k]).cut(start, stop) is Some by {
                        assert(cuts_into(edits[n - 1], None));
                    }
                    assert forall|k: int| 0 <= k < q.signals.len() implies (
                    #[trigger] q.signals[k]).cut(start, stop) is Some by {
                        assert(cuts_into(edits[n - 1], Some(k)));
                    }
                }
            }
        }
    }
}

/// There is wire at a distance along a track exactly if there is wire on the unit before it or on
/// the unit after it.
pub proof fn wire_at_means_wire_next_to(segs: Seq<SegmentView>, dist: int)
    requires
        lengthy(segs),
    ensures
        0 <= first_covering(segs, dist, dist, 0) <= segs.len(),
        first_covering(segs, dist, dist, 0) < segs.len() <==> wire_on(segs, dist - 1) || wire_on(
            segs,
            dist,
        ),
{
    first_covering_is_first(segs, dist, dist, 0);
    let f = first_covering(segs, dist, dist, 0);
    if f < segs.len() {
        assert(segs[f].start < segs[f].stop);
        if segs[f].start < dist {
            assert(segs[f].start <= dist - 1 < segs[f].stop);
        } else {
            assert(segs[f].start <= dist < segs[f].stop);
        }
    }
    if wire_on(segs, dist - 1) {
        let k = choose|k: int|
            0 <= k < segs.len() && (#[trigger] segs[k]).start <= dist - 1 < segs[k].stop;
        assert(segs[k].covers(dist, dist));
    }
    if wire_on(segs, dist) {
        let k = choose|k: int|
            0 <= k < segs.len() && (#[trigger] segs[k]).start <= dist < segs[k].stop;
        assert(segs[k].covers(dist, dist));
    }
}

} // verus!
