//! When a conversion fails, and with which error.

use vstd::prelude::*;

use crate::cell::Cell;
use crate::edits::{
    apply_all, apply_all_fails_early, apply_all_step, edit_in_range, lands_move_no_wire, reached,
    TrackEdit,
};
use crate::error::{ErrorView, LayoutResult};
use crate::laws::{
    cells_are_converted_in_order, edit_does_not_fail, filter_contains, no_assignment_is_missing,
    periods_fill_the_cell,
};
use crate::model::{first_error, ConverterView, PeriodInput};
use crate::raw::CellView;
use crate::results::{
    cell_parts, distance, located_in, parts, parts_of_cell, taken_out_is_gone, values, PeriodParts,
};
use crate::stack::ValidMetalLayer;
use crate::tracks::{first_covering_is_first, same_wire_is_found, LayerPeriodView, SegmentView};
use crate::units::{
    apart, carving_keeps_nets, carving_needs_room, cuts_into, disjoint, edits_take_out_their_units,
    has_track, region, room_for, unbroken, wire_at_means_wire_next_to, wire_on, wires,
};
use crate::validate::ValidTrackLoc;

verus! {

impl PeriodParts {
    /// The region of a cut: one of the layer's cut size, around its location.
    pub open spec fn cut_region(self, cut: ValidTrackLoc) -> (int, int) {
        let reach = self.layer.spec.cutsize.0 as int / 2;
        (cut.dist.0 - reach, cut.dist.0 + reach)
    }

    /// Whether there is room for the blocked regions and the cuts: each has a length and lies
    /// within the length of the tracks, no two blocked regions overlap, no cut overlaps a blocked
    /// region, and no two cuts on the same signal track overlap.
    pub open spec fn room(self) -> bool {
        let ntracks = self.layer.period.rails@.len() + self.layer.period.signals@.len();
        &&& ntracks > 0 ==> forall|i: int|
            0 <= i < self.blocked.len() ==> {
                &&& 0 <= (#[trigger] self.blocked[i]).0 < self.blocked[i].1 <= self.span
                &&& forall|j: int|
                    0 <= j < i ==> disjoint(#[trigger] self.blocked[j], self.blocked[i])
            }
        &&& forall|i: int|
            0 <= i < self.cuts.len() ==> {
                let (start, stop) = self.cut_region(#[trigger] self.cuts[i]);
                &&& 0 <= start < stop <= self.span
                &&& forall|j: int|
                    0 <= j < self.blocked.len() ==> disjoint(
                        #[trigger] self.blocked[j],
                        (start, stop),
                    )
                &&& forall|j: int|
                    0 <= j < i && (#[trigger] self.cuts[j]).track as int % self.nsig()
                        == self.cuts[i].track as int % self.nsig() ==> disjoint(
                        self.cut_region(self.cuts[j]),
                        (start, stop),
                    )
            }
    }

    /// Whether there is to be wire on the unit at `x` of signal track `signal`.
    pub open spec fn stays(self, signal: int, x: int) -> bool {
        0 <= x < self.span && !self.gone(Some(signal), x)
    }

    /// Whether there is to be wire at location `loc`: on the unit before it, or on the unit after. A
    /// track without length has wire where it starts and ends.
    pub open spec fn wire_at(self, loc: ValidTrackLoc) -> bool {
        let signal = loc.track as int % self.nsig();
        if self.span > 0 {
            self.stays(signal, loc.dist.0 - 1) || self.stays(signal, loc.dist.0 as int)
        } else {
            loc.dist.0 == 0 && self.span == 0
        }
    }

    /// Whether assignment number `i` from below can be made.
    pub open spec fn bot_fits(self, i: int) -> bool {
        self.wire_at(self.bots[i].bot) && self.via.raw is Some
    }

    /// Whether assignment number `i` from above can be made.
    pub open spec fn top_fits(self, i: int) -> bool {
        self.wire_at(self.tops[i].top)
    }
}

proof fn period_is_unbroken(layer: ValidMetalLayer, periodnum: int, span: int)
    ensures
        unbroken(layer.layer_period(periodnum, span), span),
{
    let p = layer.layer_period(periodnum, span);
    assert forall|k: int| 0 <= k < p.rails.len() implies {
        &&& apart((#[trigger] p.rails[k]).segments)
        &&& forall|x: int| wire_on(p.rails[k].segments, x) <==> 0 <= x < span
    } by {
        one_wire(p.rails[k].segments, span);
    }
    assert forall|k: int| 0 <= k < p.signals.len() implies {
        &&& apart((#[trigger] p.signals[k]).segments)
        &&& forall|x: int| wire_on(p.signals[k].segments, x) <==> 0 <= x < span
    } by {
        one_wire(p.signals[k].segments, span);
    }
}

proof fn one_wire(segs: Seq<SegmentView>, span: int)
    requires
        segs.len() == 1,
        segs[0].start == 0,
        segs[0].stop == span,
    ensures
        forall|x: int| wire_on(segs, x) <==> 0 <= x < span,
{
    assert forall|x: int| wire_on(segs, x) <==> 0 <= x < span by {
        if 0 <= x < span {
            assert(segs[0].start <= x < segs[0].stop);
        }
    }
}

/// What edit number `k` is, and what region it has, if it is a cut.
proof fn carving_edit(c: ConverterView, layer: ValidMetalLayer, input: PeriodInput, k: int)
    requires
        0 <= k < input.blockages.len() + input.cuts.len(),
    ensures
        ({
            let edits = c.edits(layer, input);
            let t = parts(c, layer, 0, 0, input);
            let nb = input.blockages.len() as int;
            let size = layer.spec.cutsize.0 as int;
            &&& k < nb ==> edits[k] is Block && region(edits[k]) == t.blocked[k]
            &&& k >= nb ==> {
                &&& edits[k] is Cut
                &&& edits[k]->Cut_signal == input.cuts[k - nb].track as int % t.nsig()
                &&& size >= 0 ==> region(edits[k]) == t.cut_region(input.cuts[k - nb])
                &&& size < 0 ==> region(edits[k]).0 >= region(edits[k]).1
            }
        }),
{
    let edits = c.edits(layer, input);
    let nb = input.blockages.len() as int;
    if k < nb {
        assert(edits[k] == c.block_edit(input.blockages[k]));
    } else {
        assert(edits[k] == c.cut_edit(layer, input.cuts[k - nb]));
    }
}

proof fn room_means_room_for_each(
    c: ConverterView,
    layer: ValidMetalLayer,
    periodnum: int,
    span: int,
    input: PeriodInput,
)
    requires
        input.cuts.len() > 0 ==> layer.period.signals@.len() > 0,
    ensures
        parts(c, layer, periodnum, span, input).room() <==> forall|k: int|
            0 <= k < input.blockages.len() + input.cuts.len() ==> #[trigger] room_for(
                layer.layer_period(periodnum, span),
                c.edits(layer, input),
                k,
                span,
            ),
{
    let edits = c.edits(layer, input);
    let p = layer.layer_period(periodnum, span);
    let t = parts(c, layer, periodnum, span, input);
    let nb = input.blockages.len() as int;
    let m = nb + input.cuts.len() as int;
    let size = layer.spec.cutsize.0 as int;
    assert forall|k: int| 0 <= k < m implies {
        &&& k < nb ==> (#[trigger] edits[k]) is Block && region(edits[k]) == t.blocked[k]
        &&& k >= nb ==> {
            &&& edits[k] is Cut
            &&& edits[k]->Cut_signal == t.cuts[k - nb].track as int % t.nsig()
            &&& size >= 0 ==> region(edits[k]) == t.cut_region(t.cuts[k - nb])
            &&& size < 0 ==> region(edits[k]).0 >= region(edits[k]).1
        }
    } by {
        carving_edit(c, layer, input, k);
    }
    if t.room() {
        assert forall|k: int| 0 <= k < m implies #[trigger] room_for(p, edits, k, span) by {
            assert forall|signal: Option<int>|
                has_track(p, signal) && #[trigger] cuts_into(edits[k], signal) implies {
                &&& 0 <= region(edits[k]).0 < region(edits[k]).1 <= span
                &&& forall|j: int|
                    0 <= j < k && cuts_into(#[trigger] edits[j], signal) ==> disjoint(
                        region(edits[j]),
                        region(edits[k]),
                    )
            } by {
                if k < nb {
                    assert(0 <= t.blocked[k].0 < t.blocked[k].1 <= t.span);
                } else {
                    let cut = t.cuts[k - nb];
                    assert(t.cut_region(cut).0 < t.cut_region(cut).1);
                    assert(size >= 0);
                }
                assert forall|j: int| 0 <= j < k && cuts_into(#[trigger] edits[j], signal) implies disjoint(
                    region(edits[j]),
                    region(edits[k]),
                ) by {
                    if k < nb {
                        assert(disjoint(t.blocked[j], t.blocked[k]));
                    } else if j < nb {
                        assert(disjoint(t.blocked[j], t.cut_region(t.cuts[k - nb])));
                    } else {
                        assert(t.cuts[j - nb].track as int % t.nsig() == t.cuts[k
                            - nb].track as int % t.nsig());
                    }
                }
            }
        }
    }
    if forall|k: int| 0 <= k < m ==> #[trigger] room_for(p, edits, k, span) {
        if p.rails.len() + p.signals.len() > 0 {
            let signal: Option<int> = if p.rails.len() > 0 {
                None
            } else {
                Some(0)
            };
            assert(has_track(p, signal));
            assert forall|i: int| 0 <= i < t.blocked.len() implies {
                &&& 0 <= (#[trigger] t.blocked[i]).0 < t.blocked[i].1 <= t.span
                &&& forall|j: int| 0 <= j < i ==> disjoint(#[trigger] t.blocked[j], t.blocked[i])
            } by {
                assert(room_for(p, edits, i, span));
                assert(cuts_into(edits[i], signal));
                assert forall|j: int| 0 <= j < i implies disjoint(
                    #[trigger] t.blocked[j],
                    t.blocked[i],
                ) by {
                    assert(cuts_into(edits[j], signal));
                }
            }
        }
        assert forall|i: int| 0 <= i < t.cuts.len() implies {
            let (start, stop) = t.cut_region(#[trigger] t.cuts[i]);
            &&& 0 <= start < stop <= t.span
            &&& forall|j: int|
                0 <= j < t.blocked.len() ==> disjoint(#[trigger] t.blocked[j], (start, stop))
            &&& forall|j: int|
                0 <= j < i && (#[trigger] t.cuts[j]).track as int % t.nsig()
                    == t.cuts[i].track as int % t.nsig() ==> disjoint(
                    t.cut_region(t.cuts[j]),
                    (start, stop),
                )
        } by {
            let signal = Some(edits[nb + i]->Cut_signal);
            assert(room_for(p, edits, nb + i, span));
            assert(cuts_into(edits[nb + i], signal));
            assert(has_track(p, signal));
            assert(size >= 0);
            assert forall|j: int| 0 <= j < t.blocked.len() implies disjoint(
                #[trigger] t.blocked[j],
                t.cut_region(t.cuts[i]),
            ) by {
                assert(cuts_into(edits[j], signal));
            }
            assert forall|j: int|
                0 <= j < i && (#[trigger] t.cuts[j]).track as int % t.nsig()
                    == t.cuts[i].track as int % t.nsig() implies disjoint(
                t.cut_region(t.cuts[j]),
                t.cut_region(t.cuts[i]),
            ) by {
                assert(cuts_into(edits[nb + j], signal));
            }
        }
    }
}

/// Whether the assignments before edit number `n` of a period can all be made.
spec fn all_fit(
    c: ConverterView,
    layer: ValidMetalLayer,
    periodnum: int,
    span: int,
    input: PeriodInput,
    n: int,
) -> bool {
    let t = parts(c, layer, periodnum, span, input);
    let m = input.blockages.len() + input.cuts.len();
    &&& forall|i: int|
        0 <= i < input.bots.len() && m + i < n ==> (#[trigger] input.bots[i]) is Some
            && t.bot_fits(i)
    &&& forall|i: int|
        0 <= i < input.tops.len() && m + input.bots.len() + i < n ==> (
        #[trigger] input.tops[i]) is Some && t.top_fits(i)
}

/// One more assignment can be made exactly if there is wire for it, and a layer for its via.
proof fn next_assignment(
    c: ConverterView,
    layer: ValidMetalLayer,
    periodnum: int,
    span: int,
    input: PeriodInput,
    n: int,
)
    requires
        c.period_ready(layer, periodnum, span, input),
        input.blockages.len() + input.cuts.len() <= n < c.edits(layer, input).len(),
        apply_all(layer.layer_period(periodnum, span), c.edits(layer, input).take(n)) is Ok,
    ensures
        ({
            let t = parts(c, layer, periodnum, span, input);
            let m = input.blockages.len() + input.cuts.len();
            let after = apply_all(
                layer.layer_period(periodnum, span),
                c.edits(layer, input).take(n + 1),
            );
            let i = n - m;
            let j = i - input.bots.len();
            &&& i < input.bots.len() ==> {
                &&& after is Ok <==> input.bots[i] is Some && t.bot_fits(i)
                &&& input.bots[i] is None ==> after->Err_0 == ErrorView::Str(
                    "Internal error: invalid assignment"@,
                )
                &&& input.bots[i] is Some && !t.wire_at(t.bots[i].bot) ==> after->Err_0
                    == ErrorView::Str("COULDNT FIND SEGMENT"@)
                &&& input.bots[i] is Some && t.wire_at(t.bots[i].bot) && t.via.raw is None
                    ==> after->Err_0 == ErrorView::Str("Raw-Layout Layer Not Defined"@)
            }
            &&& i >= input.bots.len() ==> {
                &&& after is Ok <==> input.tops[j] is Some && t.top_fits(j)
                &&& input.tops[j] is None ==> after->Err_0 == ErrorView::Str(
                    "Internal error: invalid assignment"@,
                )
                &&& input.tops[j] is Some && !t.top_fits(j) ==> after->Err_0 == ErrorView::Str(
                    "Internal error: invalid segment"@,
                )
            }
        }),
{
    let p = layer.layer_period(periodnum, span);
    let edits = c.edits(layer, input);
    let t = parts(c, layer, periodnum, span, input);
    let m = (input.blockages.len() + input.cuts.len()) as int;
    let i = n - m;
    let j = i - input.bots.len();
    apply_all_step(p, edits, n);
    assert(reached(p, edits, n));
    if i < input.bots.len() {
        assert(edits[n] == c.bot_edit(layer, input.bots[i]));
    } else {
        assert(edits[n] == c.top_edit(layer, input.tops[j]));
    }
    if edits[n] is Land {
        let signal = edits[n]->Land_signal;
        let dist = edits[n]->dist;
        assert forall|k: int| 0 <= k < n implies edit_in_range(
            #[trigger] edits[k],
            p.signals.len() as int,
        ) by {
            if !reached(p, edits, k) {
                assert(edits.take(n).take(k) =~= edits.take(k));
                apply_all_fails_early(p, edits.take(n), k);
            }
        }
        edits_take_out_their_units(p, edits, n, Some(signal), 0);
        let q = apply_all(p, edits.take(n))->Ok_0;
        let segs = q.signals[signal].segments;
        assert(wires(q, Some(signal), 0) == segs);
        one_wire(p.signals[signal].segments, span);
        assert forall|x: int| #[trigger] wire_on(segs, x) <==> t.stays(signal, x) by {
            taken_out_is_gone(c, layer, periodnum, span, input, n, Some(signal), x);
        }
        if span <= 0 {
            let net = layer.period.signals@[signal].net.deep_view();
            assert(edits.take(n).take(m) =~= edits.take(m));
            no_failure_before(p, edits.take(n), m);
            period_is_unbroken(layer, periodnum, span);
            assert forall|k: int| 0 <= k < m implies (#[trigger] edits[k]) is Block
                || edits[k] is Cut by {
                carving_edit(c, layer, input, k);
            }
            carving_needs_room(p, edits, m, span);
            assert forall|k: int| 0 <= k < m implies !cuts_into(
                #[trigger] edits[k],
                Some(signal),
            ) by {
                assert(room_for(p, edits, k, span));
                assert(has_track(p, Some(signal)));
            }
            carving_keeps_nets(p, edits, m, Some(signal), 0, net);
            assert forall|k: int| m <= k < n implies (#[trigger] edits[k]) is Land by {
                assert(edits.take(n)[k] == edits[k]);
                edit_does_not_fail(p, edits.take(n), k);
                if k - m < input.bots.len() {
                    assert(edits[k] == c.bot_edit(layer, input.bots[k - m]));
                } else {
                    assert(edits[k] == c.top_edit(layer, input.tops[k - m - input.bots.len()]));
                }
            }
            lands_move_no_wire(p, edits, m, n, signal);
            let old = p.signals[signal].segments;
            same_wire_is_found(old, segs, dist, dist, 0);
            first_covering_is_first(old, dist, dist, 0);
            if dist == 0 && span == 0 {
                assert(old[0].covers(dist, dist));
            }
        } else {
            wire_at_means_wire_next_to(segs, dist);
        }
        assert(wire_on(segs, dist - 1) <==> t.stays(signal, dist - 1));
        assert(wire_on(segs, dist) <==> t.stays(signal, dist));
    }
}

/// When a period can be converted, and which error comes otherwise. What comes first decides: the
/// blocked regions and cuts, then the assignments from below, then those from above.
pub proof fn period_fails_as_it_should(
    c: ConverterView,
    layer: ValidMetalLayer,
    periodnum: int,
    span: int,
    input: PeriodInput,
)
    requires
        c.period_ready(layer, periodnum, span, input),
        input.cuts.len() > 0 ==> layer.period.signals@.len() > 0,
    ensures
        ({
            let t = parts(c, layer, periodnum, span, input);
            let r = c.period_outcome(layer, periodnum, span, input);
            let nb = input.bots.len();
            let nt = input.tops.len();
            &&& r is Ok <==> {
                &&& t.room()
                &&& forall|i: int|
                    0 <= i < nb ==> (#[trigger] input.bots[i]) is Some && t.bot_fits(i)
                &&& forall|i: int|
                    0 <= i < nt ==> (#[trigger] input.tops[i]) is Some && t.top_fits(i)
            }
            &&& !t.room() ==> r->Err_0 == ErrorView::Str(
                "Cut Error: not a contiguous wire segment"@,
            )
            &&& forall|i: int|
                0 <= i < nb && t.room() && (forall|k: int|
                    0 <= k < i ==> (#[trigger] input.bots[k]) is Some && t.bot_fits(k)) ==> {
                    &&& (#[trigger] input.bots[i]) is None ==> r->Err_0 == ErrorView::Str(
                        "Internal error: invalid assignment"@,
                    )
                    &&& input.bots[i] is Some && !t.wire_at(t.bots[i].bot) ==> r->Err_0
                        == ErrorView::Str("COULDNT FIND SEGMENT"@)
                    &&& input.bots[i] is Some && t.wire_at(t.bots[i].bot) && t.via.raw is None
                        ==> r->Err_0 == ErrorView::Str("Raw-Layout Layer Not Defined"@)
                }
            &&& forall|i: int|
                0 <= i < nt && t.room() && (forall|k: int|
                    0 <= k < nb ==> (#[trigger] input.bots[k]) is Some && t.bot_fits(k)) && (forall|
                    k: int,
                |
                    0 <= k < i ==> (#[trigger] input.tops[k]) is Some && t.top_fits(k)) ==> {
                    &&& (#[trigger] input.tops[i]) is None ==> r->Err_0 == ErrorView::Str(
                        "Internal error: invalid assignment"@,
                    )
                    &&& input.tops[i] is Some && !t.top_fits(i) ==> r->Err_0 == ErrorView::Str(
                        "Internal error: invalid segment"@,
                    )
                }
        }),
{
    let p = layer.layer_period(periodnum, span);
    let edits = c.edits(layer, input);
    let t = parts(c, layer, periodnum, span, input);
    let r = c.period_outcome(layer, periodnum, span, input);
    let (nb, nt) = (input.bots.len() as int, input.tops.len() as int);
    let m = (input.blockages.len() + input.cuts.len()) as int;
    let n = edits.len() as int;
    assert(edits.take(n) =~= edits);
    period_is_unbroken(layer, periodnum, span);
    room_means_room_for_each(c, layer, periodnum, span, input);
    assert forall|k: int| 0 <= k < m implies (#[trigger] edits[k]) is Block || edits[k] is Cut by {
        carving_edit(c, layer, input, k);
    }
    carving_needs_room(p, edits, m, span);
    if !t.room() {
        apply_all_fails_early(p, edits, m);
    } else {
        assert forall|k: int| m <= k <= n && all_fit(c, layer, periodnum, span, input, k) implies (
        #[trigger] apply_all(p, edits.take(k))) is Ok by {
            fitting_succeeds(c, layer, periodnum, span, input, k);
        }
        if r is Ok {
            assert forall|i: int| 0 <= i < nb implies (#[trigger] input.bots[i]) is Some
                && t.bot_fits(i) by {
                no_failure_before(p, edits, m + i);
                no_failure_before(p, edits, m + i + 1);
                next_assignment(c, layer, periodnum, span, input, m + i);
            }
            assert forall|i: int| 0 <= i < nt implies (#[trigger] input.tops[i]) is Some
                && t.top_fits(i) by {
                no_failure_before(p, edits, m + nb + i);
                no_failure_before(p, edits, m + nb + i + 1);
                next_assignment(c, layer, periodnum, span, input, m + nb + i);
            }
        }
        if (forall|i: int| 0 <= i < nb ==> (#[trigger] input.bots[i]) is Some && t.bot_fits(i)) && (
        forall|i: int| 0 <= i < nt ==> (#[trigger] input.tops[i]) is Some && t.top_fits(i)) {
            assert(all_fit(c, layer, periodnum, span, input, n));
            assert(apply_all(p, edits.take(n)) is Ok);
        }
        assert forall|i: int|
            0 <= i < nb && (forall|k: int|
                0 <= k < i ==> (#[trigger] input.bots[k]) is Some && t.bot_fits(k)) implies {
            &&& (#[trigger] input.bots[i]) is None ==> r->Err_0 == ErrorView::Str(
                "Internal error: invalid assignment"@,
            )
            &&& input.bots[i] is Some && !t.wire_at(t.bots[i].bot) ==> r->Err_0 == ErrorView::Str(
                "COULDNT FIND SEGMENT"@,
            )
            &&& input.bots[i] is Some && t.wire_at(t.bots[i].bot) && t.via.raw is None
                ==> r->Err_0 == ErrorView::Str("Raw-Layout Layer Not Defined"@)
        } by {
            assert(all_fit(c, layer, periodnum, span, input, m + i));
            assert(apply_all(p, edits.take(m + i)) is Ok);
            next_assignment(c, layer, periodnum, span, input, m + i);
            if apply_all(p, edits.take(m + i + 1)) is Err {
                apply_all_fails_early(p, edits, m + i + 1);
            }
        }
        assert forall|i: int|
            0 <= i < nt && (forall|k: int|
                0 <= k < nb ==> (#[trigger] input.bots[k]) is Some && t.bot_fits(k)) && (forall|
                k: int,
            |
                0 <= k < i ==> (#[trigger] input.tops[k]) is Some && t.top_fits(k)) implies {
            &&& (#[trigger] input.tops[i]) is None ==> r->Err_0 == ErrorView::Str(
                "Internal error: invalid assignment"@,
            )
            &&& input.tops[i] is Some && !t.top_fits(i) ==> r->Err_0 == ErrorView::Str(
                "Internal error: invalid segment"@,
            )
        } by {
            assert(all_fit(c, layer, periodnum, span, input, m + nb + i));
            assert(apply_all(p, edits.take(m + nb + i)) is Ok);
            next_assignment(c, layer, periodnum, span, input, m + nb + i);
            if apply_all(p, edits.take(m + nb + i + 1)) is Err {
                apply_all_fails_early(p, edits, m + nb + i + 1);
            }
        }
    }
}

proof fn no_failure_before(p: LayerPeriodView, edits: Seq<TrackEdit>, k: int)
    requires
        0 <= k <= edits.len(),
        apply_all(p, edits) is Ok,
    ensures
        apply_all(p, edits.take(k)) is Ok,
{
    if apply_all(p, edits.take(k)) is Err {
        apply_all_fails_early(p, edits, k);
    }
}

proof fn fitting_succeeds(
    c: ConverterView,
    layer: ValidMetalLayer,
    periodnum: int,
    span: int,
    input: PeriodInput,
    n: int,
)
    requires
        c.period_ready(layer, periodnum, span, input),
        input.blockages.len() + input.cuts.len() <= n <= c.edits(layer, input).len(),
        apply_all(
            layer.layer_period(periodnum, span),
            c.edits(layer, input).take((input.blockages.len() + input.cuts.len()) as int),
        ) is Ok,
        all_fit(c, layer, periodnum, span, input, n),
    ensures
        apply_all(layer.layer_period(periodnum, span), c.edits(layer, input).take(n)) is Ok,
    decreases n,
{
    let m = input.blockages.len() + input.cuts.len();
    if n > m {
        assert(all_fit(c, layer, periodnum, span, input, n - 1));
        fitting_succeeds(c, layer, periodnum, span, input, n - 1);
        next_assignment(c, layer, periodnum, span, input, n - 1);
        let i = n - 1 - m;
        if i < input.bots.len() {
            assert(input.bots[i] is Some);
        } else {
            assert(input.tops[i - input.bots.len()] is Some);
        }
    }
}

/// When a period of a cell can be converted, and which error comes otherwise.
pub proof fn cell_period_fails_as_it_should(
    c: ConverterView,
    cell: Cell,
    layernum: int,
    periodnum: int,
)
    requires
        c.arrange_error(cell) is None,
        c.cell_period_ready(cell, layernum, periodnum),
    ensures
        ({
            let t = cell_parts(c, cell, layernum, periodnum);
            let r = c.cell_period(cell, layernum, periodnum);
            let (nb, nt) = (t.bots.len(), t.tops.len());
            &&& r is Ok <==> {
                &&& t.room()
                &&& forall|i: int| 0 <= i < nb ==> #[trigger] t.bot_fits(i)
                &&& forall|i: int| 0 <= i < nt ==> #[trigger] t.top_fits(i)
            }
            &&& !t.room() ==> r->Err_0 == ErrorView::Str(
                "Cut Error: not a contiguous wire segment"@,
            )
            &&& forall|i: int|
                0 <= i < nb && t.room() && !(#[trigger] t.bot_fits(i)) && (forall|k: int|
                    0 <= k < i ==> #[trigger] t.bot_fits(k)) ==> r->Err_0 == if t.wire_at(
                    t.bots[i].bot,
                ) {
                    ErrorView::Str("Raw-Layout Layer Not Defined"@)
                } else {
                    ErrorView::Str("COULDNT FIND SEGMENT"@)
                }
            &&& forall|i: int|
                0 <= i < nt && t.room() && !(#[trigger] t.top_fits(i)) && (forall|k: int|
                    0 <= k < nb ==> #[trigger] t.bot_fits(k)) && (forall|k: int|
                    0 <= k < i ==> #[trigger] t.top_fits(k)) ==> r->Err_0 == ErrorView::Str(
                    "Internal error: invalid segment"@,
                )
        }),
{
    let layer = c.stack.metals@[layernum];
    let span = c.layer_span(layer, cell.outline);
    let input = c.cell_period_input(cell, layernum, periodnum);
    let t = cell_parts(c, cell, layernum, periodnum);
    let r = c.cell_period(cell, layernum, periodnum);
    parts_of_cell(c, cell, layernum, periodnum);
    if t.cuts.len() > 0 {
        assert(t.cuts.contains(t.cuts[0]));
        filter_contains(
            values(cell.cuts@),
            |cut: ValidTrackLoc| located_in(layer, periodnum, cut),
            t.cuts[0],
        );
    }
    period_fails_as_it_should(c, layer, periodnum, span, input);
    assert forall|i: int| 0 <= i < t.bots.len() implies (#[trigger] input.bots[i]) is Some by {
        let m = input.blockages.len() + input.cuts.len();
        no_assignment_is_missing(c, cell, layernum, periodnum, m + i);
        assert(c.edits(layer, input)[m + i] == c.bot_edit(layer, input.bots[i]));
    }
    assert forall|i: int| 0 <= i < t.tops.len() implies (#[trigger] input.tops[i]) is Some by {
        let m = input.blockages.len() + input.cuts.len() + input.bots.len();
        no_assignment_is_missing(c, cell, layernum, periodnum, m + i);
        assert(c.edits(layer, input)[m + i] == c.top_edit(layer, input.tops[i]));
    }
    assert forall|i: int|
        0 <= i < t.bots.len() && t.room() && !(#[trigger] t.bot_fits(i)) && (forall|k: int|
            0 <= k < i ==> #[trigger] t.bot_fits(k)) implies r->Err_0 == if t.wire_at(
        t.bots[i].bot,
    ) {
        ErrorView::Str("Raw-Layout Layer Not Defined"@)
    } else {
        ErrorView::Str("COULDNT FIND SEGMENT"@)
    } by {
        assert(input.bots[i] is Some);
        assert(forall|k: int|
            0 <= k < i ==> (#[trigger] input.bots[k]) is Some && t.bot_fits(k));
    }
    assert forall|i: int|
        0 <= i < t.tops.len() && t.room() && !(#[trigger] t.top_fits(i)) && (forall|k: int|
            0 <= k < t.bots.len() ==> #[trigger] t.bot_fits(k)) && (forall|k: int|
            0 <= k < i ==> #[trigger] t.top_fits(k)) implies r->Err_0 == ErrorView::Str(
        "Internal error: invalid segment"@,
    ) by {
        assert(input.tops[i] is Some);
        assert(forall|k: int|
            0 <= k < i ==> (#[trigger] input.tops[k]) is Some && t.top_fits(k));
        assert(forall|k: int|
            0 <= k < t.bots.len() ==> (#[trigger] input.bots[k]) is Some && t.bot_fits(k));
    }
    if r is Ok {
        assert forall|i: int| 0 <= i < t.bots.len() implies #[trigger] t.bot_fits(i) by {
            assert(input.bots[i] is Some);
        }
        assert forall|i: int| 0 <= i < t.tops.len() implies #[trigger] t.top_fits(i) by {
            assert(input.tops[i] is Some);
        }
    }
}

/// The first error of `results` is that of the first of them that is one.
pub proof fn first_error_is_the_first<T>(results: Seq<LayoutResult<T>>, i: int)
    ensures
        (forall|k: int| 0 <= k < results.len() ==> (#[trigger] results[k]) is Ok)
            ==> first_error(results) is None,
        0 <= i < results.len() && results[i] is Err && (forall|k: int|
            0 <= k < i ==> (#[trigger] results[k]) is Ok) ==> first_error(results) == Some(
            results[i]->Err_0@,
        ),
    decreases results.len(),
{
    if results.len() > 0 {
        let front = results.drop_last();
        assert forall|k: int| 0 <= k < front.len() implies #[trigger] front[k] == results[k] by {}
        first_error_is_the_first(front, i);
        assert(results.last() == results[results.len() - 1]);
        if (forall|k: int| 0 <= k < results.len() ==> (#[trigger] results[k]) is Ok) || (i
            == front.len() && (forall|k: int| 0 <= k < i ==> (#[trigger] results[k]) is Ok)) {
            assert forall|k: int| 0 <= k < front.len() implies (#[trigger] front[k]) is Ok by {
                assert(results[k] is Ok);
            }
        }
        if 0 <= i < front.len() && (forall|k: int| 0 <= k < i ==> (#[trigger] results[k]) is Ok) {
            assert forall|k: int| 0 <= k < i implies (#[trigger] front[k]) is Ok by {
                assert(results[k] is Ok);
            }
        }
    }
}

/// Which error comes before any shape of a cell is made. What comes first decides: an outline that
/// is not a rectangle, an instance of something that has only a name, the first cut that was
/// refused, the first assignment that was refused.
pub proof fn cell_is_refused_as_it_should_be(c: ConverterView, cell: Cell, i: int)
    ensures
        ({
            let r = c.cell_outcome(cell);
            let rectangular = cell.outline.x@.len() <= 1;
            let named = exists|k: int|
                0 <= k < cell.instances@.len() && (#[trigger] cell.instances@[k]).cell is Name;
            let (cuts, assigns) = (cell.cuts@, cell.assignments@);
            &&& !rectangular ==> r == Err::<CellView, ErrorView>(
                ErrorView::Str("Non-rectangular outline; conversions not supported (yet)"@),
            )
            &&& rectangular && named ==> r == Err::<CellView, ErrorView>(
                ErrorView::Str("FIXME?"@),
            )
            &&& rectangular && !named && 0 <= i < cuts.len() && cuts[i] is Err && (forall|k: int|
                0 <= k < i ==> (#[trigger] cuts[k]) is Ok) ==> r == Err::<CellView, ErrorView>(
                cuts[i]->Err_0@,
            )
            &&& rectangular && !named && (forall|k: int|
                0 <= k < cuts.len() ==> (#[trigger] cuts[k]) is Ok) && 0 <= i < assigns.len()
                && assigns[i] is Err && (forall|k: int|
                0 <= k < i ==> (#[trigger] assigns[k]) is Ok) ==> r == Err::<CellView, ErrorView>(
                assigns[i]->Err_0@,
            )
        }),
{
    first_error_is_the_first(cell.cuts@, i);
    first_error_is_the_first(cell.assignments@, i);
}

/// Once nothing of a cell is refused, the cell can be converted exactly if every period can be. If
/// not, the error is that of the first period that cannot, counted from the lowest layer.
pub proof fn cell_fails_with_its_first_period(
    c: ConverterView,
    cell: Cell,
    layernum: int,
    periodnum: int,
    n: int,
)
    requires
        cell.outline.x@.len() <= 1,
        forall|k: int|
            0 <= k < cell.instances@.len() ==> !((#[trigger] cell.instances@[k]).cell is Name),
        forall|k: int| 0 <= k < cell.cuts@.len() ==> (#[trigger] cell.cuts@[k]) is Ok,
        forall|k: int| 0 <= k < cell.assignments@.len() ==> (#[trigger] cell.assignments@[k]) is Ok,
        0 <= layernum < cell.top_layer,
        0 <= periodnum < n,
        c.cell_ready(cell),
        c.cell_layers(cell, layernum) is Ok,
        n * c.stack.metals@[layernum].pitch.0 == if c.stack.metals@[layernum].spec.dir is Horiz {
            distance(c.stack, cell.outline.y@[0])
        } else {
            distance(c.stack, cell.outline.x@[0])
        },
        forall|p: int| 0 <= p < periodnum ==> (#[trigger] c.cell_period(cell, layernum, p)) is Ok,
    ensures
        c.cell_period(cell, layernum, periodnum) is Err ==> c.cell_outcome(cell) == Err::<
            CellView,
            ErrorView,
        >(c.cell_period(cell, layernum, periodnum)->Err_0),
        c.cell_period(cell, layernum, periodnum) is Ok && periodnum + 1 == n ==> c.cell_layers(
            cell,
            layernum + 1,
        ) is Ok,
        c.cell_period(cell, layernum, periodnum) is Ok && periodnum + 1 == n && layernum + 1
            == cell.top_layer ==> c.cell_outcome(cell) is Ok,
{
    first_error_is_the_first(cell.cuts@, 0);
    first_error_is_the_first(cell.assignments@, 0);
    assert(c.arrange_error(cell) is None);
    assert(c.cell_layer_ready(cell, layernum));
    let layer = c.stack.metals@[layernum];
    let (a, b) = (c.layer_breadth(layer, cell.outline), layer.pitch.0 as int);
    assert(a / b == n) by (nonlinear_arith)
        requires
            n * b == a,
            b != 0,
    ;
    periods_before_succeed(c, cell, layernum, periodnum);
    if c.cell_period(cell, layernum, periodnum) is Err {
        c.cell_periods_fail_early(cell, layernum, periodnum + 1, n);
        c.cell_layers_fail_early(cell, layernum + 1, cell.top_layer as int);
    }
}

proof fn periods_before_succeed(c: ConverterView, cell: Cell, layernum: int, n: int)
    requires
        forall|p: int| 0 <= p < n ==> (#[trigger] c.cell_period(cell, layernum, p)) is Ok,
    ensures
        c.cell_periods(cell, layernum, n) is Ok,
    decreases n,
{
    if n > 0 {
        periods_before_succeed(c, cell, layernum, n - 1);
        assert(c.cell_period(cell, layernum, n - 1) is Ok);
    }
}

impl PeriodParts {
    /// Whether the period can be made: there is room for its blocked regions and cuts, and all of
    /// its assignments can be made.
    pub open spec fn all_fits(self) -> bool {
        &&& self.room()
        &&& forall|i: int| 0 <= i < self.bots.len() ==> #[trigger] self.bot_fits(i)
        &&& forall|i: int| 0 <= i < self.tops.len() ==> #[trigger] self.top_fits(i)
    }
}

/// The extent of a cell across the tracks of metal layer `layernum`.
pub open spec fn breadth(c: ConverterView, cell: Cell, layernum: int) -> int {
    if c.stack.metals@[layernum].spec.dir is Horiz {
        distance(c.stack, cell.outline.y@[0])
    } else {
        distance(c.stack, cell.outline.x@[0])
    }
}

/// Whether period number `periodnum` of metal layer `layernum` is one of a cell: it starts within
/// it.
pub open spec fn is_period(c: ConverterView, cell: Cell, layernum: int, periodnum: int) -> bool {
    0 <= periodnum && periodnum * c.stack.metals@[layernum].pitch.0 < breadth(c, cell, layernum)
}

proof fn periods_are_those(c: ConverterView, cell: Cell, layernum: int, periodnum: int)
    requires
        c.layer_ready(c.stack.metals@[layernum], cell.outline),
        breadth(c, cell, layernum) > 0,
    ensures
        is_period(c, cell, layernum, periodnum) <==> 0 <= periodnum < c.nperiods(
            c.stack.metals@[layernum],
            cell.outline,
        ),
{
    let layer = c.stack.metals@[layernum];
    let (a, b) = (breadth(c, cell, layernum), layer.pitch.0 as int);
    let n = c.nperiods(layer, cell.outline);
    assert(a == c.layer_breadth(layer, cell.outline));
    periods_fill_the_cell(c, layer, cell.outline);
    assert(b * n == a);
    assert(b > 0) by (nonlinear_arith)
        requires
            b * n == a,
            a > 0,
            n >= 0,
    ;
    assert(periodnum * b < a <==> periodnum < n) by (nonlinear_arith)
        requires
            b * n == a,
            b > 0,
    ;
}

proof fn periods_succeed(c: ConverterView, cell: Cell, l: int, n: int)
    requires
        c.arrange_error(cell) is None,
        c.cell_layer_ready(cell, l),
        0 <= n <= c.nperiods(c.stack.metals@[l], cell.outline),
    ensures
        c.cell_periods(cell, l, n) is Ok <==> forall|p: int|
            0 <= p < n ==> (#[trigger] cell_parts(c, cell, l, p)).all_fits(),
    decreases n,
{
    if n > 0 {
        periods_succeed(c, cell, l, n - 1);
        if c.cell_periods(cell, l, n - 1) is Ok {
            assert(c.cell_period_ready(cell, l, n - 1));
            cell_period_fails_as_it_should(c, cell, l, n - 1);
        }
    }
}

proof fn layers_succeed(c: ConverterView, cell: Cell, n: int)
    requires
        cell.outline.x@.len() <= 1,
        c.arrange_error(cell) is None,
        c.cell_ready(cell),
        0 <= n <= cell.top_layer,
        distance(c.stack, cell.outline.x@[0]) > 0,
        distance(c.stack, cell.outline.y@[0]) > 0,
    ensures
        c.cell_layers(cell, n) is Ok <==> forall|l: int, p: int|
            0 <= l < n && is_period(c, cell, l, p) ==> (#[trigger] cell_parts(
                c,
                cell,
                l,
                p,
            )).all_fits(),
    decreases n,
{
    if n > 0 {
        layers_succeed(c, cell, n - 1);
        if c.cell_layers(cell, n - 1) is Ok {
            assert(c.cell_layer_ready(cell, n - 1));
            let count = c.nperiods(c.stack.metals@[n - 1], cell.outline);
            periods_succeed(c, cell, n - 1, count);
            assert forall|p: int| #[trigger] is_period(c, cell, n - 1, p) <==> 0 <= p < count by {
                periods_are_those(c, cell, n - 1, p);
            }
            if c.cell_layers(cell, n) is Ok {
                assert forall|l: int, p: int| 0 <= l < n && is_period(c, cell, l, p) implies (
                #[trigger] cell_parts(c, cell, l, p)).all_fits() by {
                    if l == n - 1 {
                        assert(0 <= p < count);
                    }
                }
            } else {
                let p = choose|p: int|
                    0 <= p < count && !(#[trigger] cell_parts(c, cell, n - 1, p)).all_fits();
                assert(is_period(c, cell, n - 1, p));
                assert(!cell_parts(c, cell, n - 1, p).all_fits());
            }
        }
    }
}

/// A cell can be converted exactly if nothing of it is refused, and every period of every layer
/// that it uses can be made.
pub proof fn cell_succeeds_exactly_if_all_fits(c: ConverterView, cell: Cell)
    requires
        cell.outline.x@.len() <= 1,
        forall|k: int|
            0 <= k < cell.instances@.len() ==> !((#[trigger] cell.instances@[k]).cell is Name),
        forall|k: int| 0 <= k < cell.cuts@.len() ==> (#[trigger] cell.cuts@[k]) is Ok,
        forall|k: int| 0 <= k < cell.assignments@.len() ==> (#[trigger] cell.assignments@[k]) is Ok,
        c.cell_ready(cell),
        distance(c.stack, cell.outline.x@[0]) > 0,
        distance(c.stack, cell.outline.y@[0]) > 0,
    ensures
        c.cell_outcome(cell) is Ok <==> forall|l: int, p: int|
            0 <= l < cell.top_layer && is_period(c, cell, l, p) ==> (#[trigger] cell_parts(
                c,
                cell,
                l,
                p,
            )).all_fits(),
{
    first_error_is_the_first(cell.cuts@, 0);
    first_error_is_the_first(cell.assignments@, 0);
    assert(c.arrange_error(cell) is None);
    layers_succeed(c, cell, cell.top_layer as int);
}

/// A library can be converted exactly if every cell of it can be.
pub proof fn library_succeeds_exactly_if_its_cells_do(c: ConverterView)
    ensures
        c.lib_outcome() is Ok <==> forall|i: int|
            0 <= i < c.lib.cells@.len() ==> c.cell_outcome(#[trigger] c.lib.cells@[i]) is Ok,
{
    let n = c.lib.cells@.len() as int;
    if c.lib_outcome() is Ok {
        assert forall|i: int| 0 <= i < n implies c.cell_outcome(
            #[trigger] c.lib.cells@[i],
        ) is Ok by {
            cells_are_converted_in_order(c, n, i);
        }
    } else {
        some_cell_fails(c, n);
    }
}

proof fn some_cell_fails(c: ConverterView, n: int)
    requires
        c.cells_outcome(n) is Err,
    ensures
        exists|i: int| 0 <= i < n && c.cell_outcome(#[trigger] c.lib.cells@[i]) is Err,
    decreases n,
{
    if c.cells_outcome(n - 1) is Err {
        some_cell_fails(c, n - 1);
    } else {
        assert(c.cell_outcome(c.lib.cells@[n - 1]) is Err);
    }
}

} // verus!
