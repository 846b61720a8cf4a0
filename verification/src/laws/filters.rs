//! What a filter is told, and what it makes of that.

use vstd::prelude::*;

use crate::laws::on_at;
use crate::param::ParamChange;
use crate::prepare::PrepareContext;
use crate::sample::Sample;
use crate::stages::filter::{
    a_briefed_filter_knows_its_target, briefing, cut, one_block, FilterKind, FilterMove,
    FilterOrders, FilterPort, FilterQ, FilterTarget,
};

verus! {

/// A shape or a rule for the quality factor that travels as a number arrives as itself.
pub proof fn shapes_arrive_as_themselves(kind: FilterKind, q: FilterQ)
    ensures
        FilterKind::of_number(kind.number()) == kind,
        FilterQ::by_rule(q.rule(), q.value()) == q,
{
}

/// A filter that is told to become something by these orders, whatever it was told before, moves to
/// just that, over just as many samples as it was given, and not before it has heard all of it.
pub proof fn a_filter_becomes_what_it_is_told(
    orders: FilterOrders,
    port: FilterPort,
    target: FilterTarget,
    ramp_samples: u32,
    k: int,
)
    requires
        port.distinct(),
        0 <= k < briefing(port, target, ramp_samples).len(),
    ensures
        orders.after_all(port, briefing(port, target, ramp_samples)).1 == Some(
            FilterMove { target, ramp_samples },
        ),
        orders.after_all(port, briefing(port, target, ramp_samples).take(k)).1 is None,
{
    a_briefed_filter_knows_its_target(orders, port, target, ramp_samples);
    let told = briefing(port, target, ramp_samples);
    let ids = seq![
        port.ramp_samples,
        port.kind,
        port.freq_hz,
        port.gain_db,
        port.q_rule,
        port.q,
        port.engaged,
    ];
    assert(ids[0] != ids[6] && ids[1] != ids[6] && ids[2] != ids[6]);
    assert(ids[3] != ids[6] && ids[4] != ids[6] && ids[5] != ids[6]);
    if k > 0 {
        assert(told.take(k).last() == told[k - 1]);
    }
}

/// No parameter of the port does the work of two.
pub open spec fn apart(port: FilterPort) -> bool {
    let ids = seq![
        port.ramp_samples,
        port.kind,
        port.freq_hz,
        port.gain_db,
        port.q_rule,
        port.q,
        port.engaged,
    ];
    forall|i: int, j: int| 0 <= i < j < ids.len() ==> ids[i] != ids[j]
}

/// A filter keeps each thing it is told where it belongs, and moves when it is told to engage or to
/// let go, and at no other time.
pub proof fn a_filter_keeps_what_it_is_told(
    orders: FilterOrders,
    port: FilterPort,
    value: Sample,
)
    requires
        apart(port),
    ensures
        port.distinct(),
        orders.after(port, ParamChange { id: port.ramp_samples, value }) == (
            FilterOrders { ramp_samples: value.bits, ..orders },
            None::<FilterMove>,
        ),
        orders.after(port, ParamChange { id: port.kind, value }) == (
            FilterOrders { kind: value.bits, ..orders },
            None::<FilterMove>,
        ),
        orders.after(port, ParamChange { id: port.freq_hz, value }) == (
            FilterOrders { freq_hz: value, ..orders },
            None::<FilterMove>,
        ),
        orders.after(port, ParamChange { id: port.gain_db, value }) == (
            FilterOrders { gain_db: value, ..orders },
            None::<FilterMove>,
        ),
        orders.after(port, ParamChange { id: port.q_rule, value }) == (
            FilterOrders { q_rule: value.bits, ..orders },
            None::<FilterMove>,
        ),
        orders.after(port, ParamChange { id: port.q, value }) == (
            FilterOrders { q: value, ..orders },
            None::<FilterMove>,
        ),
        orders.after(port, ParamChange { id: port.engaged, value }).0 == orders,
        orders.after(port, ParamChange { id: port.engaged, value }).1 is Some,
        ({
            let moved = orders.after(port, ParamChange { id: port.engaged, value }).1->0;
            &&& moved.ramp_samples == orders.ramp_samples
            &&& !on_at(value) ==> moved.target == FilterTarget::Identity
            &&& on_at(value) ==> {
                &&& moved.target is Design
                &&& moved.target->freq_hz == orders.freq_hz
                &&& moved.target->gain_db == orders.gain_db
                &&& orders.kind <= 4 ==> moved.target->kind.number() == orders.kind
                &&& orders.q_rule <= 2 ==> moved.target->Design_q.rule() == orders.q_rule
                &&& orders.q_rule == 2 ==> moved.target->Design_q == FilterQ::Given(orders.q)
            }
        }),
{
    let ids = seq![
        port.ramp_samples,
        port.kind,
        port.freq_hz,
        port.gain_db,
        port.q_rule,
        port.q,
        port.engaged,
    ];
    assert(ids[0] != ids[1] && ids[0] != ids[2] && ids[0] != ids[3]);
    assert(ids[0] != ids[4] && ids[0] != ids[5] && ids[0] != ids[6]);
    assert(ids[1] != ids[2] && ids[1] != ids[3] && ids[1] != ids[4]);
    assert(ids[1] != ids[5] && ids[1] != ids[6] && ids[2] != ids[3]);
    assert(ids[2] != ids[4] && ids[2] != ids[5] && ids[2] != ids[6]);
    assert(ids[3] != ids[4] && ids[3] != ids[5] && ids[3] != ids[6]);
    assert(ids[4] != ids[5] && ids[4] != ids[6] && ids[5] != ids[6]);
}

/// An order that is for none of the filter's parameters changes nothing.
pub proof fn a_filter_ignores_what_is_not_for_it(
    orders: FilterOrders,
    port: FilterPort,
    change: ParamChange,
)
    requires
        change.id != port.ramp_samples,
        change.id != port.kind,
        change.id != port.freq_hz,
        change.id != port.gain_db,
        change.id != port.q_rule,
        change.id != port.q,
        change.id != port.engaged,
    ensures
        orders.after(port, change) == (orders, None::<FilterMove>),
{
}

/// A cut that is switched on is a maximally flat filter of its kind at its own frequency, without a
/// gain; one that is switched off has no effect.
pub proof fn a_cut_is_flat_and_can_be_defeated(kind: FilterKind, freq_hz: Sample)
    ensures
        cut(kind, false, freq_hz) == FilterTarget::Identity,
        cut(kind, true, freq_hz) is Design,
        cut(kind, true, freq_hz)->kind == kind,
        cut(kind, true, freq_hz)->freq_hz == freq_hz,
        cut(kind, true, freq_hz)->Design_q == FilterQ::Butterworth,
        cut(kind, true, freq_hz)->gain_db.bits == 0,
{
}

/// How many samples the largest block has, as far as that can be counted.
pub open spec fn largest_block(ctx: PrepareContext) -> u32 {
    if ctx.max_frames() <= 0xffff_ffff {
        ctx.max_frames() as u32
    } else {
        0xffff_ffff
    }
}

/// A filter takes one largest block to a new target, as far as that can be counted.
pub proof fn a_move_takes_one_largest_block(ctx: PrepareContext)
    ensures
        one_block(ctx.max_frames()) == largest_block(ctx),
{
}

} // verus!
