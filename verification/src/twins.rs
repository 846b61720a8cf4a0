//! Two chains of which the same can be said.
//!
//! What a processor does is decided by its own account of itself: which one it is, and everything
//! that has been done to it, in order. Two chains whose processors give the same accounts, and
//! which agree in everything else that is heard, go on agreeing whatever happens to both, and give
//! out the same.

use vstd::prelude::*;

use crate::chain::{
    all_finite, contained, counted, limited_block, snaps, stages_play, total_latency, BlockShape,
    Chain, CrossCutting,
};
use crate::chain_stage::ChainStage;
use crate::chain_streams::chain_processes_all;
use crate::command::Command;
use crate::engine::{obeys, obeys_all};
use crate::math::{determined, faded, single_valued, summed, SampleMath};
use crate::param::ParamChange;
use crate::prepare::PrepareContext;
use crate::sample::Sample;
use crate::stage::{runs, BoxedStage};
use crate::stages::bypass::{a_block_is_blended_one_way, block_blends, BypassBlend};
use crate::stages::eq::{
    EqBands, EqStage, BAND_COUNT, BAND_HIGH_PASS, BAND_HIGH_SHELF, BAND_LOW_PASS, BAND_LOW_SHELF,
    BAND_MID,
};
use crate::stages::gate::GateStage;
use crate::stages::handover::Crossfade;
use crate::stages::ir;
use crate::stages::ir::{alone_plays, channels_fade, spreads, wet_channel, IrSlot, IrStage};
use crate::stages::ir_filters::IrChannel;
use crate::stages::nam::{
    aims, fade_renders, gain_plays, model_plays, side_plays, slot_plays, NamSlot, NamStage,
    Normalize,
};
use crate::stages::out::{OutChannel, OutStage};
use crate::stages::resampler::{made_of, SlotResampler};

verus! {

/// Whether two processors give the same account of themselves.
pub open spec fn twins(a: BoxedStage, b: BoxedStage) -> bool {
    &&& a.0.identity() == b.0.identity()
    &&& a.0.told() == b.0.told()
    &&& a.0.played() == b.0.played()
    &&& a.0.history() == b.0.history()
}

/// Whether processors have only one result: what one makes of a block, what it reports and how late
/// it is are decided by its account of itself.
pub open spec fn processors_have_one_result() -> bool {
    &&& forall|
        a: BoxedStage,
        b: BoxedStage,
        input: Seq<Seq<Sample>>,
        x: Seq<Seq<Sample>>,
        y: Seq<Seq<Sample>>,
    |
        twins(a, b) && #[trigger] a.0.renders(input, x) && #[trigger] b.0.renders(input, y) ==> x
            == y
    &&& forall|a: BoxedStage, b: BoxedStage| #[trigger]
        twins(a, b) ==> a.0.latency() == b.0.latency() && a.0.readings() == b.0.readings()
}

/// Twins do the same with a block.
pub proof fn twins_pass_the_same(
    a: BoxedStage,
    b: BoxedStage,
    input: Seq<Seq<Sample>>,
    x: Seq<Seq<Sample>>,
    y: Seq<Seq<Sample>>,
    after: (BoxedStage, BoxedStage),
)
    requires
        processors_have_one_result(),
        twins(a, b),
        a.passes(input, x, after.0),
        b.passes(input, y, after.1),
    ensures
        x == y,
        twins(after.0, after.1),
{
    assert(a.0.renders(input, x) && b.0.renders(input, y));
}

/// Twins do the same with a block of one channel.
pub proof fn twins_run_the_same(
    a: BoxedStage,
    b: BoxedStage,
    input: Seq<Sample>,
    x: Seq<Sample>,
    y: Seq<Sample>,
    after: (BoxedStage, BoxedStage),
)
    requires
        processors_have_one_result(),
        twins(a, b),
        runs(a, input, x, after.0),
        runs(b, input, y, after.1),
    ensures
        x == y,
        twins(after.0, after.1),
{
    twins_pass_the_same(a, b, seq![input], seq![x], seq![y], after);
    assert(seq![x][0] == seq![y][0]);
}

/// Whether two noise gates agree in everything that is heard.
pub open spec fn twin_gates<A: SampleMath>(a: GateStage<A>, b: GateStage<A>) -> bool {
    &&& a.math == b.math
    &&& a.ids == b.ids
    &&& a.params == b.params
    &&& a.enabled == b.enabled
    &&& a.blend == b.blend
    &&& twins(a.detector, b.detector)
}

/// Twin noise gates make the same of a block, and stay twins.
proof fn lemma_twin_gates_play<A: SampleMath>(
    a: GateStage<A>,
    b: GateStage<A>,
    input: Seq<Seq<Sample>>,
    x: Seq<Seq<Sample>>,
    y: Seq<Seq<Sample>>,
    after: (GateStage<A>, GateStage<A>),
)
    requires
        processors_have_one_result(),
        determined(a.math),
        twin_gates(a, b),
        a.plays(input, x, after.0),
        b.plays(input, y, after.1),
    ensures
        x == y,
        twin_gates(after.0, after.1),
{
    let p = choose|gated: Seq<Sample>|
        {
            &&& #[trigger] runs(a.detector, input[0], gated, after.0.detector)
            &&& block_blends(
                a.math,
                a.blend,
                input,
                Seq::new(input.len(), |ch: int| gated),
                x,
                after.0.blend.mix,
            )
        };
    let q = choose|gated: Seq<Sample>|
        {
            &&& #[trigger] runs(b.detector, input[0], gated, after.1.detector)
            &&& block_blends(
                b.math,
                b.blend,
                input,
                Seq::new(input.len(), |ch: int| gated),
                y,
                after.1.blend.mix,
            )
        };
    twins_run_the_same(
        a.detector,
        b.detector,
        input[0],
        p,
        q,
        (after.0.detector, after.1.detector),
    );
    a_block_is_blended_one_way(
        a.math,
        a.blend,
        input,
        Seq::new(input.len(), |ch: int| p),
        (x, y),
        (after.0.blend.mix, after.1.blend.mix),
    );
}

/// Whether two channels' filters agree.
pub open spec fn twin_bands(a: EqBands, b: EqBands) -> bool {
    forall|band: usize| band < BAND_COUNT ==> twins(#[trigger] a.band(band), b.band(band))
}

/// Whether two equalisers agree in everything that is heard.
pub open spec fn twin_equalisers(a: EqStage, b: EqStage) -> bool {
    &&& a.ids == b.ids
    &&& a.settings == b.settings
    &&& a.port == b.port
    &&& a.prepared_for == b.prepared_for
    &&& twin_bands(a.first, b.first)
    &&& twin_bands(a.second, b.second)
}

/// The bands of one channel make the same of a block as their twins.
proof fn lemma_twin_bands_pass(
    a: EqBands,
    b: EqBands,
    input: Seq<Sample>,
    x: Seq<Sample>,
    y: Seq<Sample>,
    after: (EqBands, EqBands),
)
    requires
        processors_have_one_result(),
        twin_bands(a, b),
        a.pass(input, x, after.0),
        b.pass(input, y, after.1),
    ensures
        x == y,
        twin_bands(after.0, after.1),
{
    let (a1, a2, a3, a4) = choose|
        a1: Seq<Sample>,
        a2: Seq<Sample>,
        a3: Seq<Sample>,
        a4: Seq<Sample>,
    |
        {
            &&& #[trigger] runs(a.high_pass, input, a1, after.0.high_pass)
            &&& #[trigger] runs(a.low_shelf, a1, a2, after.0.low_shelf)
            &&& #[trigger] runs(a.mid, a2, a3, after.0.mid)
            &&& #[trigger] runs(a.high_shelf, a3, a4, after.0.high_shelf)
            &&& runs(a.low_pass, a4, x, after.0.low_pass)
        };
    let (b1, b2, b3, b4) = choose|
        b1: Seq<Sample>,
        b2: Seq<Sample>,
        b3: Seq<Sample>,
        b4: Seq<Sample>,
    |
        {
            &&& #[trigger] runs(b.high_pass, input, b1, after.1.high_pass)
            &&& #[trigger] runs(b.low_shelf, b1, b2, after.1.low_shelf)
            &&& #[trigger] runs(b.mid, b2, b3, after.1.mid)
            &&& #[trigger] runs(b.high_shelf, b3, b4, after.1.high_shelf)
            &&& runs(b.low_pass, b4, y, after.1.low_pass)
        };
    let (p, q) = after;
    assert(twins(a.band(BAND_HIGH_PASS), b.band(BAND_HIGH_PASS)));
    assert(twins(a.band(BAND_LOW_SHELF), b.band(BAND_LOW_SHELF)));
    assert(twins(a.band(BAND_MID), b.band(BAND_MID)));
    assert(twins(a.band(BAND_HIGH_SHELF), b.band(BAND_HIGH_SHELF)));
    assert(twins(a.band(BAND_LOW_PASS), b.band(BAND_LOW_PASS)));
    twins_run_the_same(a.high_pass, b.high_pass, input, a1, b1, (p.high_pass, q.high_pass));
    twins_run_the_same(a.low_shelf, b.low_shelf, a1, a2, b2, (p.low_shelf, q.low_shelf));
    twins_run_the_same(a.mid, b.mid, a2, a3, b3, (p.mid, q.mid));
    twins_run_the_same(a.high_shelf, b.high_shelf, a3, a4, b4, (p.high_shelf, q.high_shelf));
    twins_run_the_same(a.low_pass, b.low_pass, a4, x, y, (p.low_pass, q.low_pass));
}

/// Twin equalisers make the same of a block, and stay twins.
proof fn lemma_twin_equalisers_play(
    a: EqStage,
    b: EqStage,
    input: Seq<Seq<Sample>>,
    x: Seq<Seq<Sample>>,
    y: Seq<Seq<Sample>>,
    after: (EqStage, EqStage),
)
    requires
        processors_have_one_result(),
        1 <= input.len() <= 2,
        twin_equalisers(a, b),
        a.plays(input, x, after.0),
        b.plays(input, y, after.1),
    ensures
        x == y,
        twin_equalisers(after.0, after.1),
{
    lemma_twin_bands_pass(
        a.first,
        b.first,
        input[0],
        x[0],
        y[0],
        (after.0.first, after.1.first),
    );
    if input.len() > 1 {
        lemma_twin_bands_pass(
            a.second,
            b.second,
            input[1],
            x[1],
            y[1],
            (after.0.second, after.1.second),
        );
    }
    assert(x =~= y);
}

/// Whether two output channels agree in everything that is heard or reported.
pub open spec fn twin_out_channels(a: OutChannel, b: OutChannel) -> bool {
    &&& a.ids == b.ids
    &&& twins(a.gain, b.gain)
    &&& twins(a.meter, b.meter)
}

/// Whether two output stages agree in everything that is heard or reported.
pub open spec fn twin_outputs(a: OutStage, b: OutStage) -> bool {
    &&& a.gain_db == b.gain_db
    &&& a.gain_target_db == b.gain_target_db
    &&& a.gain_target == b.gain_target
    &&& a.silence_floor_db == b.silence_floor_db
    &&& a.settled_db == b.settled_db
    &&& twin_out_channels(a.first, b.first)
    &&& twin_out_channels(a.second, b.second)
}

/// One channel of the output stage makes the same of a block as its twin.
proof fn lemma_twin_out_channels_play(
    a: OutChannel,
    b: OutChannel,
    silencing: bool,
    settled_db: Sample,
    input: Seq<Sample>,
    x: Seq<Sample>,
    y: Seq<Sample>,
    after: (OutChannel, OutChannel),
)
    requires
        processors_have_one_result(),
        twin_out_channels(a, b),
        a.plays(silencing, settled_db, input, x, after.0),
        b.plays(silencing, settled_db, input, y, after.1),
    ensures
        x == y,
        twin_out_channels(after.0, after.1),
{
    let (p, shown_p) = choose|scaled: Seq<Sample>, shown: Seq<Seq<Sample>>|
        {
            &&& #[trigger] runs(a.gain, input, scaled, after.0.gain)
            &&& x == if after.0.silent(silencing, settled_db) {
                Seq::new(input.len(), |i: int| Sample::zero())
            } else {
                scaled
            }
            &&& #[trigger] a.meter.passes(seq![x], shown, after.0.meter)
        };
    let (q, shown_q) = choose|scaled: Seq<Sample>, shown: Seq<Seq<Sample>>|
        {
            &&& #[trigger] runs(b.gain, input, scaled, after.1.gain)
            &&& y == if after.1.silent(silencing, settled_db) {
                Seq::new(input.len(), |i: int| Sample::zero())
            } else {
                scaled
            }
            &&& #[trigger] b.meter.passes(seq![y], shown, after.1.meter)
        };
    twins_run_the_same(a.gain, b.gain, input, p, q, (after.0.gain, after.1.gain));
    assert(twins(after.0.gain, after.1.gain));
    assert(x == y);
    twins_pass_the_same(
        a.meter,
        b.meter,
        seq![x],
        shown_p,
        shown_q,
        (after.0.meter, after.1.meter),
    );
}

/// Twin output stages make the same of a block, and stay twins.
proof fn lemma_twin_outputs_play(
    a: OutStage,
    b: OutStage,
    input: Seq<Seq<Sample>>,
    x: Seq<Seq<Sample>>,
    y: Seq<Seq<Sample>>,
    after: (OutStage, OutStage),
)
    requires
        processors_have_one_result(),
        1 <= input.len() <= 2,
        twin_outputs(a, b),
        a.plays(input, x, after.0),
        b.plays(input, y, after.1),
    ensures
        x == y,
        twin_outputs(after.0, after.1),
{
    let silencing = a.headed_for_silence();
    lemma_twin_out_channels_play(
        a.first,
        b.first,
        silencing,
        a.settled_db,
        input[0],
        x[0],
        y[0],
        (after.0.first, after.1.first),
    );
    if input.len() > 1 {
        lemma_twin_out_channels_play(
            a.second,
            b.second,
            silencing,
            a.settled_db,
            input[1],
            x[1],
            y[1],
            (after.0.second, after.1.second),
        );
    }
    assert(x =~= y);
}

/// Whether the queues around two models agree.
pub open spec fn twin_queues(a: Option<SlotResampler>, b: Option<SlotResampler>) -> bool {
    match (a, b) {
        (None, None) => true,
        (Some(p), Some(q)) => {
            &&& p.block() == q.block()
            &&& p.latency() == q.latency()
            &&& p.waiting() == q.waiting()
            &&& p.ready() == q.ready()
        },
        _ => false,
    }
}

/// Whether two amp slots agree.
pub open spec fn twin_amp_slots(a: NamSlot, b: NamSlot) -> bool {
    &&& twins(a.core, b.core)
    &&& twin_queues(a.resample, b.resample)
    &&& a.base_normalize_gain_db == b.base_normalize_gain_db
    &&& twins(a.normalize_gain, b.normalize_gain)
    &&& a.gain_target == b.gain_target
}

/// Whether two places for an amp slot agree.
pub open spec fn twin_amp_places(a: Option<Box<NamSlot>>, b: Option<Box<NamSlot>>) -> bool {
    match (a, b) {
        (None, None) => true,
        (Some(p), Some(q)) => twin_amp_slots(*p, *q),
        _ => false,
    }
}

/// Whether two amp stages agree in everything that is heard or reported.
pub open spec fn twin_amps<A: SampleMath>(a: NamStage<A>, b: NamStage<A>) -> bool {
    &&& a.math == b.math
    &&& a.ids == b.ids
    &&& a.enabled == b.enabled
    &&& a.normalize_enabled == b.normalize_enabled
    &&& a.normalize_offset_db == b.normalize_offset_db
    &&& a.blend == b.blend
    &&& twin_amp_places(a.handover.active, b.handover.active)
    &&& twin_amp_places(a.handover.inactive, b.handover.inactive)
    &&& a.handover.fade == b.handover.fade
    &&& a.handover.length == b.handover.length
    &&& a.handover.prepared_for == b.handover.prepared_for
    &&& a.handover.parked is Some == b.handover.parked is Some
}

/// Twins make the same of the same chunks.
proof fn lemma_twins_make_the_same(
    a: BoxedStage,
    b: BoxedStage,
    fed: Seq<Sample>,
    x: Seq<Sample>,
    y: Seq<Sample>,
    chunk: nat,
    after: (BoxedStage, BoxedStage),
)
    requires
        processors_have_one_result(),
        twins(a, b),
        x.len() == y.len(),
        made_of(a, fed, x, chunk, after.0),
        made_of(b, fed, y, chunk, after.1),
    ensures
        x == y,
        twins(after.0, after.1),
    decreases x.len(),
{
    if x.len() == 0 || chunk == 0 {
        assert(x =~= y);
    } else {
        let before = x.len() - chunk;
        let end = x.len() as int;
        let input = fed.subrange(before, end);
        let p = choose|between: BoxedStage|
            {
                &&& #[trigger] runs(between, input, x.subrange(before, end), after.0)
                &&& made_of(a, fed, x.take(before), chunk, between)
            };
        let q = choose|between: BoxedStage|
            {
                &&& #[trigger] runs(between, input, y.subrange(before, end), after.1)
                &&& made_of(b, fed, y.take(before), chunk, between)
            };
        lemma_twins_make_the_same(a, b, fed, x.take(before), y.take(before), chunk, (p, q));
        twins_run_the_same(
            p,
            q,
            input,
            x.subrange(before, end),
            y.subrange(before, end),
            after,
        );
        assert(x =~= x.take(before) + x.subrange(before, end));
        assert(y =~= y.take(before) + y.subrange(before, end));
    }
}

/// Twin models behind their queues make the same of a block.
proof fn lemma_twin_models_play(
    a: NamSlot,
    b: NamSlot,
    input: Seq<Sample>,
    x: Seq<Sample>,
    y: Seq<Sample>,
    after: (NamSlot, NamSlot),
)
    requires
        processors_have_one_result(),
        twin_amp_slots(a, b),
        model_plays(a, input, x, after.0),
        model_plays(b, input, y, after.1),
    ensures
        x == y,
        twins(after.0.core, after.1.core),
        twin_queues(after.0.resample, after.1.resample),
{
    match (a.resample, b.resample, after.0.resample, after.1.resample) {
        (Some(p), Some(q), Some(left_p), Some(left_q)) => {
            let made_p = choose|made: Seq<Sample>|
                p.passed(a.core, input, x, left_p, after.0.core, made);
            let made_q = choose|made: Seq<Sample>|
                q.passed(b.core, input, y, left_q, after.1.core, made);
            lemma_twins_make_the_same(
                a.core,
                b.core,
                p.waiting() + input,
                made_p,
                made_q,
                p.block(),
                (after.0.core, after.1.core),
            );
            let whole = p.ready() + made_p;
            assert(x + left_p.ready() == whole);
            assert(y + left_q.ready() == whole);
            assert(x =~= whole.take(input.len() as int));
            assert(y =~= whole.take(input.len() as int));
            assert(left_p.ready() =~= whole.skip(input.len() as int));
            assert(left_q.ready() =~= whole.skip(input.len() as int));
        },
        _ => {
            twins_run_the_same(a.core, b.core, input, x, y, (after.0.core, after.1.core));
        },
    }
}

/// Twin slots of the amp stage make the same of a block.
proof fn lemma_twin_amp_slots_play<A: SampleMath>(
    math: A,
    a: NamSlot,
    b: NamSlot,
    normalize: Normalize,
    input: Seq<Sample>,
    x: Seq<Sample>,
    y: Seq<Sample>,
    after: (NamSlot, NamSlot),
)
    requires
        processors_have_one_result(),
        single_valued(math),
        twin_amp_slots(a, b),
        slot_plays(math, a, normalize, input, x, after.0),
        slot_plays(math, b, normalize, input, y, after.1),
    ensures
        x == y,
        twin_amp_slots(after.0, after.1),
{
    let (p, aim_p) = choose|modelled: Seq<Sample>, target: Sample|
        {
            &&& model_plays(a, input, modelled, after.0)
            &&& aims(math, a, normalize, target)
            &&& #[trigger] gain_plays(a, target, modelled, x, after.0)
        };
    let (q, aim_q) = choose|modelled: Seq<Sample>, target: Sample|
        {
            &&& model_plays(b, input, modelled, after.1)
            &&& aims(math, b, normalize, target)
            &&& #[trigger] gain_plays(b, target, modelled, y, after.1)
        };
    lemma_twin_models_play(a, b, input, p, q, after);
    if normalize.enabled {
        assert(summed(math, a.base_normalize_gain_db, normalize.offset_db, aim_p));
        assert(summed(math, a.base_normalize_gain_db, normalize.offset_db, aim_q));
    }
    assert(aim_p == aim_q);
    let told_p = choose|gain: BoxedStage|
        {
            &&& #[trigger] runs(gain, p, x, after.0.normalize_gain)
            &&& a.normalize_gain.hears(
                seq![ParamChange { id: a.gain_target, value: aim_p }],
                gain,
            )
        };
    let told_q = choose|gain: BoxedStage|
        {
            &&& #[trigger] runs(gain, q, y, after.1.normalize_gain)
            &&& b.normalize_gain.hears(
                seq![ParamChange { id: b.gain_target, value: aim_q }],
                gain,
            )
        };
    twins_run_the_same(
        told_p,
        told_q,
        p,
        x,
        y,
        (after.0.normalize_gain, after.1.normalize_gain),
    );
}

/// Either side of a handover in the amp stage makes the same of a block as its twin.
proof fn lemma_twin_amp_sides_play<A: SampleMath>(
    math: A,
    a: Option<Box<NamSlot>>,
    b: Option<Box<NamSlot>>,
    normalize: Normalize,
    input: Seq<Sample>,
    x: Seq<Sample>,
    y: Seq<Sample>,
    after: (Option<Box<NamSlot>>, Option<Box<NamSlot>>),
)
    requires
        processors_have_one_result(),
        single_valued(math),
        twin_amp_places(a, b),
        side_plays(math, a, normalize, input, x, after.0),
        side_plays(math, b, normalize, input, y, after.1),
    ensures
        x == y,
        twin_amp_places(after.0, after.1),
{
    match (a, b, after.0, after.1) {
        (Some(p), Some(q), Some(left_p), Some(left_q)) => {
            lemma_twin_amp_slots_play(math, *p, *q, normalize, input, x, y, (*left_p, *left_q));
        },
        _ => {},
    }
}

/// A fade has one result, if its operations have.
proof fn lemma_one_fade<A: SampleMath>(
    math: A,
    fade: Crossfade,
    outgoing: Seq<Sample>,
    incoming: Seq<Sample>,
    x: Seq<Sample>,
    y: Seq<Sample>,
)
    requires
        single_valued(math),
        fade_renders(math, fade, outgoing, incoming, x),
        fade_renders(math, fade, outgoing, incoming, y),
    ensures
        x == y,
{
    assert forall|i: int| 0 <= i < x.len() implies x[i] == y[i] by {
        let step = fade.after(i).progress();
        assert(faded(math, outgoing[i], incoming[i], step, fade.total, x[i]));
        assert(faded(math, outgoing[i], incoming[i], step, fade.total, y[i]));
    }
    assert(x =~= y);
}

/// Twin amp stages make the same of a block, and stay twins.
proof fn lemma_twin_amps_play<A: SampleMath>(
    a: NamStage<A>,
    b: NamStage<A>,
    input: Seq<Seq<Sample>>,
    x: Seq<Seq<Sample>>,
    y: Seq<Seq<Sample>>,
    after: (NamStage<A>, NamStage<A>),
)
    requires
        processors_have_one_result(),
        determined(a.math),
        twin_amps(a, b),
        a.plays(input, x, after.0),
        b.plays(input, y, after.1),
    ensures
        x == y,
        twin_amps(after.0, after.1),
{
    let frames = input[0].len() as int;
    let (pa, pi) = choose|active: Option<Box<NamSlot>>, inactive: Option<Box<NamSlot>>|
        {
            &&& #[trigger] a.renders(input, x, after.0.blend.mix, active, inactive)
            &&& after.0.handover == a.handover.moved_on(active, inactive, frames)
        };
    let (qa, qi) = choose|active: Option<Box<NamSlot>>, inactive: Option<Box<NamSlot>>|
        {
            &&& #[trigger] b.renders(input, y, after.1.blend.mix, active, inactive)
            &&& after.1.handover == b.handover.moved_on(active, inactive, frames)
        };
    let heading = BypassBlend { target: a.wanted_after(frames), ..a.blend };
    let p = choose|wet: Seq<Sample>|
        {
            &&& #[trigger] a.wet_plays(input[0], wet, pa, pi)
            &&& block_blends(
                a.math,
                heading,
                input,
                Seq::new(input.len(), |ch: int| wet),
                x,
                after.0.blend.mix,
            )
        };
    let q = choose|wet: Seq<Sample>|
        {
            &&& #[trigger] b.wet_plays(input[0], wet, qa, qi)
            &&& block_blends(
                b.math,
                heading,
                input,
                Seq::new(input.len(), |ch: int| wet),
                y,
                after.1.blend.mix,
            )
        };
    let (math, normalize) = (a.math, a.normalize());
    let (ha, hb) = (a.handover, b.handover);
    match ha.fade {
        None => {
            lemma_twin_amp_sides_play(
                math,
                ha.active,
                hb.active,
                normalize,
                input[0],
                p,
                q,
                (pa, qa),
            );
        },
        Some(fade) => {
            if fade.remaining == 0 {
                lemma_twin_amp_sides_play(
                    math,
                    ha.inactive,
                    hb.inactive,
                    normalize,
                    input[0],
                    p,
                    q,
                    (pi, qi),
                );
            } else {
                let (po, pn) = choose|outgoing: Seq<Sample>, incoming: Seq<Sample>|
                    {
                        &&& a.side(ha.active, input[0], outgoing, pa)
                        &&& a.side(ha.inactive, input[0], incoming, pi)
                        &&& #[trigger] fade_renders(math, fade, outgoing, incoming, p)
                    };
                let (qo, qn) = choose|outgoing: Seq<Sample>, incoming: Seq<Sample>|
                    {
                        &&& b.side(hb.active, input[0], outgoing, qa)
                        &&& b.side(hb.inactive, input[0], incoming, qi)
                        &&& #[trigger] fade_renders(math, fade, outgoing, incoming, q)
                    };
                lemma_twin_amp_sides_play(
                    math,
                    ha.active,
                    hb.active,
                    normalize,
                    input[0],
                    po,
                    qo,
                    (pa, qa),
                );
                lemma_twin_amp_sides_play(
                    math,
                    ha.inactive,
                    hb.inactive,
                    normalize,
                    input[0],
                    pn,
                    qn,
                    (pi, qi),
                );
                lemma_one_fade(math, fade, po, pn, p, q);
            }
        },
    }
    a_block_is_blended_one_way(
        math,
        heading,
        input,
        Seq::new(input.len(), |ch: int| p),
        (x, y),
        (after.0.blend.mix, after.1.blend.mix),
    );
}

/// Whether two cabinet slots agree.
pub open spec fn twin_cabinet_slots(a: IrSlot, b: IrSlot) -> bool {
    &&& twins(a.core, b.core)
    &&& a.wet@.len() == b.wet@.len()
}

/// Whether two places for a cabinet slot agree.
pub open spec fn twin_cabinet_places(a: Option<Box<IrSlot>>, b: Option<Box<IrSlot>>) -> bool {
    match (a, b) {
        (None, None) => true,
        (Some(p), Some(q)) => twin_cabinet_slots(*p, *q),
        _ => false,
    }
}

/// Whether the filters and levels of two channels agree.
pub open spec fn twin_shaping(a: IrChannel, b: IrChannel) -> bool {
    &&& twins(a.low_cut, b.low_cut)
    &&& twins(a.high_cut, b.high_cut)
    &&& twins(a.level, b.level)
}

/// Whether two cabinet stages agree in everything that is heard or reported.
pub open spec fn twin_cabinets<A: SampleMath>(a: IrStage<A>, b: IrStage<A>) -> bool {
    &&& a.math == b.math
    &&& a.ids == b.ids
    &&& a.enabled == b.enabled
    &&& a.filters == b.filters
    &&& a.port == b.port
    &&& a.level_target == b.level_target
    &&& a.blend == b.blend
    &&& twin_cabinet_places(a.handover.active, b.handover.active)
    &&& twin_cabinet_places(a.handover.inactive, b.handover.inactive)
    &&& a.handover.fade == b.handover.fade
    &&& a.handover.length == b.handover.length
    &&& a.handover.prepared_for == b.handover.prepared_for
    &&& a.handover.parked is Some == b.handover.parked is Some
    &&& twin_shaping(a.shaping.first, b.shaping.first)
    &&& twin_shaping(a.shaping.second, b.shaping.second)
}

/// Twin slots of the cabinet stage make the same of a block.
proof fn lemma_twin_cabinet_slots_play(
    a: IrSlot,
    b: IrSlot,
    input: Seq<Sample>,
    x: Seq<Seq<Sample>>,
    y: Seq<Seq<Sample>>,
    after: (IrSlot, IrSlot),
)
    requires
        processors_have_one_result(),
        twin_cabinet_slots(a, b),
        a.plays(input, x, after.0),
        b.plays(input, y, after.1),
    ensures
        x == y,
        twin_cabinet_slots(after.0, after.1),
{
    twins_pass_the_same(
        a.core,
        b.core,
        Seq::new(a.wet@.len(), |ch: int| input),
        x,
        y,
        (after.0.core, after.1.core),
    );
}

/// Either side of a handover in the cabinet stage makes the same of a block as its twin.
proof fn lemma_twin_cabinet_sides_play(
    a: Option<Box<IrSlot>>,
    b: Option<Box<IrSlot>>,
    input: Seq<Sample>,
    x: Seq<Seq<Sample>>,
    y: Seq<Seq<Sample>>,
    after: (Option<Box<IrSlot>>, Option<Box<IrSlot>>),
)
    requires
        processors_have_one_result(),
        twin_cabinet_places(a, b),
        ir::side_plays(a, input, x, after.0),
        ir::side_plays(b, input, y, after.1),
    ensures
        x == y,
        twin_cabinet_places(after.0, after.1),
{
    match (a, b, after.0, after.1) {
        (Some(p), Some(q), Some(left_p), Some(left_q)) => {
            lemma_twin_cabinet_slots_play(*p, *q, input, x, y, (*left_p, *left_q));
        },
        _ => {},
    }
}

/// Twin cabinet stages without a handover under way make the same of a block.
proof fn lemma_twin_cabinets_alone(
    a: Option<Box<IrSlot>>,
    b: Option<Box<IrSlot>>,
    input: Seq<Seq<Sample>>,
    x: Seq<Seq<Sample>>,
    y: Seq<Seq<Sample>>,
    after: (Option<Box<IrSlot>>, Option<Box<IrSlot>>),
)
    requires
        processors_have_one_result(),
        twin_cabinet_places(a, b),
        x.len() == y.len(),
        alone_plays(a, input, x, after.0),
        alone_plays(b, input, y, after.1),
    ensures
        x == y,
        twin_cabinet_places(after.0, after.1),
{
    match (a, b, after.0, after.1) {
        (Some(p), Some(q), Some(left_p), Some(left_q)) => {
            let m = choose|produced: Seq<Seq<Sample>>|
                p.plays(input[0], produced, *left_p) && #[trigger] spreads(produced, x);
            let n = choose|produced: Seq<Seq<Sample>>|
                q.plays(input[0], produced, *left_q) && #[trigger] spreads(produced, y);
            lemma_twin_cabinet_slots_play(*p, *q, input[0], m, n, (*left_p, *left_q));
            assert forall|c: int| 0 <= c < x.len() implies x[c] == y[c] by {
                assert(x[c] == m[wet_channel(c, m.len() as int)]);
                assert(y[c] == n[wet_channel(c, n.len() as int)]);
            }
            assert(x =~= y);
        },
        _ => {},
    }
}

/// The filters of the cabinet stage make the same of a channel as their twins.
proof fn lemma_twin_shaping_passes(
    a: IrChannel,
    b: IrChannel,
    input: Seq<Sample>,
    x: Seq<Sample>,
    y: Seq<Sample>,
    after: (IrChannel, IrChannel),
)
    requires
        processors_have_one_result(),
        twin_shaping(a, b),
        a.pass(input, x, after.0),
        b.pass(input, y, after.1),
    ensures
        x == y,
        twin_shaping(after.0, after.1),
{
    let (p, q) = after;
    let (a1, a2) = choose|a1: Seq<Sample>, a2: Seq<Sample>|
        {
            &&& #[trigger] runs(a.low_cut, input, a1, p.low_cut)
            &&& #[trigger] runs(a.high_cut, a1, a2, p.high_cut)
            &&& runs(a.level, a2, x, p.level)
        };
    let (b1, b2) = choose|b1: Seq<Sample>, b2: Seq<Sample>|
        {
            &&& #[trigger] runs(b.low_cut, input, b1, q.low_cut)
            &&& #[trigger] runs(b.high_cut, b1, b2, q.high_cut)
            &&& runs(b.level, b2, y, q.level)
        };
    twins_run_the_same(a.low_cut, b.low_cut, input, a1, b1, (p.low_cut, q.low_cut));
    twins_run_the_same(a.high_cut, b.high_cut, a1, a2, b2, (p.high_cut, q.high_cut));
    twins_run_the_same(a.level, b.level, a2, x, y, (p.level, q.level));
}

/// Twin cabinet stages make the same of a block, and stay twins.
proof fn lemma_twin_cabinets_play<A: SampleMath>(
    a: IrStage<A>,
    b: IrStage<A>,
    input: Seq<Seq<Sample>>,
    x: Seq<Seq<Sample>>,
    y: Seq<Seq<Sample>>,
    after: (IrStage<A>, IrStage<A>),
)
    requires
        processors_have_one_result(),
        determined(a.math),
        1 <= input.len() <= 2,
        x.len() == input.len(),
        y.len() == input.len(),
        twin_cabinets(a, b),
        a.plays(input, x, after.0),
        b.plays(input, y, after.1),
    ensures
        x == y,
        twin_cabinets(after.0, after.1),
{
    let frames = input[0].len() as int;
    let (pa, pi) = choose|active: Option<Box<IrSlot>>, inactive: Option<Box<IrSlot>>|
        {
            &&& #[trigger] a.renders(
                input,
                x,
                after.0.blend.mix,
                active,
                inactive,
                after.0.shaping,
            )
            &&& after.0.handover == a.handover.moved_on(active, inactive, frames)
        };
    let (qa, qi) = choose|active: Option<Box<IrSlot>>, inactive: Option<Box<IrSlot>>|
        {
            &&& #[trigger] b.renders(
                input,
                y,
                after.1.blend.mix,
                active,
                inactive,
                after.1.shaping,
            )
            &&& after.1.handover == b.handover.moved_on(active, inactive, frames)
        };
    let heading = BypassBlend { target: a.wanted_after(frames), ..a.blend };
    let (p, ps) = choose|wet: Seq<Seq<Sample>>, shaped: Seq<Seq<Sample>>|
        {
            &&& a.wet_plays(input, wet, pa, pi)
            &&& #[trigger] a.shaping.pass(wet, shaped, after.0.shaping)
            &&& block_blends(a.math, heading, input, shaped, x, after.0.blend.mix)
        };
    let (q, qs) = choose|wet: Seq<Seq<Sample>>, shaped: Seq<Seq<Sample>>|
        {
            &&& b.wet_plays(input, wet, qa, qi)
            &&& #[trigger] b.shaping.pass(wet, shaped, after.1.shaping)
            &&& block_blends(b.math, heading, input, shaped, y, after.1.blend.mix)
        };
    let math = a.math;
    let (ha, hb) = (a.handover, b.handover);
    match ha.fade {
        None => {
            lemma_twin_cabinets_alone(ha.active, hb.active, input, p, q, (pa, qa));
        },
        Some(fade) => {
            if fade.remaining == 0 {
                lemma_twin_cabinets_alone(ha.inactive, hb.inactive, input, p, q, (pi, qi));
            } else {
                let (po, pn) = choose|outgoing: Seq<Seq<Sample>>, incoming: Seq<Seq<Sample>>|
                    {
                        &&& ir::side_plays(ha.active, input[0], outgoing, pa)
                        &&& ir::side_plays(ha.inactive, input[0], incoming, pi)
                        &&& #[trigger] channels_fade(math, fade, outgoing, incoming, p)
                    };
                let (qo, qn) = choose|outgoing: Seq<Seq<Sample>>, incoming: Seq<Seq<Sample>>|
                    {
                        &&& ir::side_plays(hb.active, input[0], outgoing, qa)
                        &&& ir::side_plays(hb.inactive, input[0], incoming, qi)
                        &&& #[trigger] channels_fade(math, fade, outgoing, incoming, q)
                    };
                lemma_twin_cabinet_sides_play(
                    ha.active,
                    hb.active,
                    input[0],
                    po,
                    qo,
                    (pa, qa),
                );
                lemma_twin_cabinet_sides_play(
                    ha.inactive,
                    hb.inactive,
                    input[0],
                    pn,
                    qn,
                    (pi, qi),
                );
                assert forall|c: int| 0 <= c < p.len() implies #[trigger] p[c] == q[c] by {
                    let from = po[wet_channel(c, po.len() as int)];
                    let to = pn[wet_channel(c, pn.len() as int)];
                    assert(fade_renders(math, fade, from, to, p[c]));
                    assert(fade_renders(math, fade, from, to, q[c]));
                    lemma_one_fade(math, fade, from, to, p[c], q[c]);
                }
                assert(p =~= q);
            }
        },
    }
    let (left, right) = (after.0.shaping, after.1.shaping);
    lemma_twin_shaping_passes(
        a.shaping.first,
        b.shaping.first,
        p[0],
        ps[0],
        qs[0],
        (left.first, right.first),
    );
    if p.len() > 1 {
        lemma_twin_shaping_passes(
            a.shaping.second,
            b.shaping.second,
            p[1],
            ps[1],
            qs[1],
            (left.second, right.second),
        );
    }
    assert(ps =~= qs);
    a_block_is_blended_one_way(
        math,
        heading,
        input,
        ps,
        (x, y),
        (after.0.blend.mix, after.1.blend.mix),
    );
}

/// Whether two stages of a chain agree in everything that is heard or reported, and their
/// arithmetic has only one result.
pub open spec fn twin_stages<A: SampleMath>(a: ChainStage<A>, b: ChainStage<A>) -> bool {
    match (a, b) {
        (ChainStage::Plain(p), ChainStage::Plain(q)) => twins(p, q),
        (ChainStage::Gate(p), ChainStage::Gate(q)) => determined(p.math) && twin_gates(*p, *q),
        (ChainStage::Nam(p), ChainStage::Nam(q)) => determined(p.math) && twin_amps(*p, *q),
        (ChainStage::Ir(p), ChainStage::Ir(q)) => determined(p.math) && twin_cabinets(*p, *q),
        (ChainStage::Eq(p), ChainStage::Eq(q)) => twin_equalisers(*p, *q),
        (ChainStage::Out(p), ChainStage::Out(q)) => twin_outputs(*p, *q),
        _ => false,
    }
}

/// Whether two rows of stages agree, stage by stage.
pub open spec fn twin_rows<A: SampleMath>(
    a: Seq<ChainStage<A>>,
    b: Seq<ChainStage<A>>,
) -> bool {
    &&& a.len() == b.len()
    &&& forall|i: int| 0 <= i < a.len() ==> twin_stages(#[trigger] a[i], b[i])
}

/// Whether what two chains keep across blocks agrees.
pub open spec fn twin_memories(a: Option<CrossCutting>, b: Option<CrossCutting>) -> bool {
    match (a, b) {
        (None, None) => true,
        (Some(p), Some(q)) => {
            &&& p.started == q.started
            &&& p.blend == q.blend
            &&& p.prepared_for == q.prepared_for
            &&& p.delay_lines@.len() == q.delay_lines@.len()
            &&& forall|c: int|
                0 <= c < p.delay_lines@.len() ==> (#[trigger] p.delay_lines@[c])@
                    == q.delay_lines@[c]@
        },
        _ => false,
    }
}

/// Whether two chains agree in everything that is heard or reported.
pub open spec fn twin_chains<A: SampleMath>(a: Chain<A>, b: Chain<A>) -> bool {
    &&& determined(a.math)
    &&& twin_rows(a.stages@, b.stages@)
    &&& a.ids == b.ids
    &&& a.math == b.math
    &&& a.global_bypass == b.global_bypass
    &&& a.output_ceiling_linear == b.output_ceiling_linear
    &&& a.fault_count == b.fault_count
    &&& twin_memories(a.cross_cutting, b.cross_cutting)
}

/// Twin stages make the same of a block, and stay twins.
pub proof fn twin_stages_play_the_same<A: SampleMath>(
    a: ChainStage<A>,
    b: ChainStage<A>,
    input: Seq<Seq<Sample>>,
    x: Seq<Seq<Sample>>,
    y: Seq<Seq<Sample>>,
    after: (ChainStage<A>, ChainStage<A>),
)
    requires
        processors_have_one_result(),
        1 <= input.len() <= 2,
        twin_stages(a, b),
        a.plays(input, x, after.0),
        b.plays(input, y, after.1),
    ensures
        x == y,
        twin_stages(after.0, after.1),
{
    match (a, b, after.0, after.1) {
        (
            ChainStage::Plain(p),
            ChainStage::Plain(q),
            ChainStage::Plain(l),
            ChainStage::Plain(r),
        ) => {
            twins_pass_the_same(p, q, input, x, y, (l, r));
        },
        (ChainStage::Gate(p), ChainStage::Gate(q), ChainStage::Gate(l), ChainStage::Gate(r)) => {
            lemma_twin_gates_play(*p, *q, input, x, y, (*l, *r));
        },
        (ChainStage::Nam(p), ChainStage::Nam(q), ChainStage::Nam(l), ChainStage::Nam(r)) => {
            lemma_twin_amps_play(*p, *q, input, x, y, (*l, *r));
        },
        (ChainStage::Ir(p), ChainStage::Ir(q), ChainStage::Ir(l), ChainStage::Ir(r)) => {
            lemma_twin_cabinets_play(*p, *q, input, x, y, (*l, *r));
        },
        (ChainStage::Eq(p), ChainStage::Eq(q), ChainStage::Eq(l), ChainStage::Eq(r)) => {
            lemma_twin_equalisers_play(*p, *q, input, x, y, (*l, *r));
        },
        (ChainStage::Out(p), ChainStage::Out(q), ChainStage::Out(l), ChainStage::Out(r)) => {
            lemma_twin_outputs_play(*p, *q, input, x, y, (*l, *r));
        },
        _ => {},
    }
}

/// Twin rows of stages make the same of a block, and stay twins.
proof fn lemma_twin_rows_play<A: SampleMath>(
    a: Seq<ChainStage<A>>,
    b: Seq<ChainStage<A>>,
    input: Seq<Seq<Sample>>,
    x: Seq<Seq<Sample>>,
    y: Seq<Seq<Sample>>,
    after: (Seq<ChainStage<A>>, Seq<ChainStage<A>>),
)
    requires
        processors_have_one_result(),
        1 <= input.len() <= 2,
        twin_rows(a, b),
        stages_play(a, after.0, input, x),
        stages_play(b, after.1, input, y),
    ensures
        x == y,
        x.len() == input.len(),
        twin_rows(after.0, after.1),
    decreases a.len(),
{
    if a.len() > 0 {
        let last = a.len() - 1;
        let p = choose|between: Seq<Seq<Sample>>|
            stages_play(a.drop_last(), after.0.drop_last(), input, between)
                && #[trigger] a.last().plays(between, x, after.0.last());
        let q = choose|between: Seq<Seq<Sample>>|
            stages_play(b.drop_last(), after.1.drop_last(), input, between)
                && #[trigger] b.last().plays(between, y, after.1.last());
        assert forall|i: int| 0 <= i < last implies twin_stages(
            #[trigger] a.drop_last()[i],
            b.drop_last()[i],
        ) by {
            assert(twin_stages(a[i], b[i]));
        }
        lemma_twin_rows_play(
            a.drop_last(),
            b.drop_last(),
            input,
            p,
            q,
            (after.0.drop_last(), after.1.drop_last()),
        );
        assert(twin_stages(a[last], b[last]));
        twin_stages_play_the_same(
            a.last(),
            b.last(),
            p,
            x,
            y,
            (after.0.last(), after.1.last()),
        );
        assert forall|i: int| 0 <= i < after.0.len() implies twin_stages(
            #[trigger] after.0[i],
            after.1[i],
        ) by {
            if i < last {
                assert(twin_stages(after.0.drop_last()[i], after.1.drop_last()[i]));
            }
        }
    }
}

/// Twin rows of stages are equally late.
proof fn lemma_twin_rows_are_as_late<A: SampleMath>(
    a: Seq<ChainStage<A>>,
    b: Seq<ChainStage<A>>,
)
    requires
        processors_have_one_result(),
        twin_rows(a, b),
    ensures
        total_latency(a) == total_latency(b),
    decreases a.len(),
{
    if a.len() > 0 {
        let last = a.len() - 1;
        assert forall|i: int| 0 <= i < last implies twin_stages(
            #[trigger] a.drop_last()[i],
            b.drop_last()[i],
        ) by {
            assert(twin_stages(a[i], b[i]));
        }
        lemma_twin_rows_are_as_late(a.drop_last(), b.drop_last());
        assert(twin_stages(a[last], b[last]));
        if let (ChainStage::Plain(p), ChainStage::Plain(q)) = (a[last], b[last]) {
            assert(twins(p, q));
        }
    }
}

/// Twin chains make the same of a block, and stay twins.
pub proof fn twin_chains_process_the_same<A: SampleMath>(
    a: Chain<A>,
    b: Chain<A>,
    input: Seq<Seq<Sample>>,
    frames: nat,
    x: Seq<Seq<Sample>>,
    y: Seq<Seq<Sample>>,
    after: (Chain<A>, Chain<A>),
)
    requires
        processors_have_one_result(),
        1 <= input.len() <= 2,
        twin_chains(a, b),
        a.cross_cutting matches Some(cc) ==> cc.delay_lines@.len() == input.len(),
        a.processes(input, frames, x, after.0),
        b.processes(input, frames, y, after.1),
    ensures
        x == y,
        twin_chains(after.0, after.1),
{
    lemma_twin_rows_are_as_late(a.stages@, b.stages@);
    match (a.cross_cutting, b.cross_cutting, after.0.cross_cutting, after.1.cross_cutting) {
        (Some(p), Some(q), Some(l), Some(r)) => {
            let shape = BlockShape::of(p.started, p.blend.mix, a.global_bypass);
            let ceiling = a.output_ceiling_linear;
            let (pw, pd, pm) = choose|
                wet: Seq<Seq<Sample>>,
                dry: Seq<Seq<Sample>>,
                mixed: Seq<Seq<Sample>>,
            |
                {
                    &&& #[trigger] a.mixes(
                        p,
                        input,
                        wet,
                        dry,
                        mixed,
                        l.blend.mix,
                        after.0.stages@,
                    )
                    &&& x == contained(mixed, frames, ceiling, !shape.dry)
                    &&& after.0.fault_count == counted(
                        a.fault_count,
                        !all_finite(mixed),
                    )
                };
            let (qw, qd, qm) = choose|
                wet: Seq<Seq<Sample>>,
                dry: Seq<Seq<Sample>>,
                mixed: Seq<Seq<Sample>>,
            |
                {
                    &&& #[trigger] b.mixes(
                        q,
                        input,
                        wet,
                        dry,
                        mixed,
                        r.blend.mix,
                        after.1.stages@,
                    )
                    &&& y == contained(mixed, frames, ceiling, !shape.dry)
                    &&& after.1.fault_count == counted(
                        b.fault_count,
                        !all_finite(mixed),
                    )
                };
            if shape.wet {
                lemma_twin_rows_play(
                    a.stages@,
                    b.stages@,
                    input,
                    pw,
                    qw,
                    (after.0.stages@, after.1.stages@),
                );
            }
            if shape.dry {
                assert forall|c: int| 0 <= c < input.len() implies #[trigger] pd[c]
                    == qd[c] by {
                    assert(p.delay_lines@[c]@ == q.delay_lines@[c]@);
                    assert(qd[c].len() == input[c].len());
                    assert forall|n: int| 0 <= n < input[c].len() implies pd[c][n]
                        == qd[c][n] by {}
                    assert(pd[c] =~= qd[c]);
                }
                assert(pd =~= qd);
            }
            if shape.dry && shape.wet {
                let blend = BypassBlend {
                    mix: shape.mix,
                    target: shape.target,
                    coefficient: p.blend.coefficient,
                };
                let limited = limited_block(pw, ceiling);
                let pe = choose|end: Sample|
                    {
                        &&& #[trigger] block_blends(a.math, blend, limited, pd, pm, end)
                        &&& snaps(a.math, end, shape.target, p.blend.coefficient, l.blend.mix)
                    };
                let qe = choose|end: Sample|
                    {
                        &&& #[trigger] block_blends(b.math, blend, limited, qd, qm, end)
                        &&& snaps(b.math, end, shape.target, p.blend.coefficient, r.blend.mix)
                    };
                a_block_is_blended_one_way(a.math, blend, limited, pd, (pm, qm), (pe, qe));
            }
            assert(pm == qm);
            assert forall|c: int| 0 <= c < l.delay_lines@.len() implies (
            #[trigger] l.delay_lines@[c])@ == r.delay_lines@[c]@ by {
                assert(p.delay_lines@[c]@ == q.delay_lines@[c]@);
                assert(r.delay_lines@[c]@ == r.delay_lines@[c]@);
            }
        },
        _ => {
            if !a.global_bypass {
                lemma_twin_rows_play(
                    a.stages@,
                    b.stages@,
                    input,
                    x,
                    y,
                    (after.0.stages@, after.1.stages@),
                );
            }
        },
    }
}

/// Twin equalisers that are given the same update stay twins.
proof fn lemma_twin_equalisers_apply(
    a: EqStage,
    b: EqStage,
    change: ParamChange,
    after: (EqStage, EqStage),
)
    requires
        twin_equalisers(a, b),
        a.applies(change, after.0),
        b.applies(change, after.1),
    ensures
        twin_equalisers(after.0, after.1),
{
    assert forall|band: usize| band < BAND_COUNT implies twins(
        #[trigger] after.0.first.band(band),
        after.1.first.band(band),
    ) by {
        assert(twins(a.first.band(band), b.first.band(band)));
    }
    assert forall|band: usize| band < BAND_COUNT implies twins(
        #[trigger] after.0.second.band(band),
        after.1.second.band(band),
    ) by {
        assert(twins(a.second.band(band), b.second.band(band)));
    }
}

/// Twin stages that are given the same update stay twins.
pub proof fn twin_stages_apply_the_same<A: SampleMath>(
    a: ChainStage<A>,
    b: ChainStage<A>,
    change: ParamChange,
    after: (ChainStage<A>, ChainStage<A>),
)
    requires
        twin_stages(a, b),
        a.applies(change, after.0),
        b.applies(change, after.1),
    ensures
        twin_stages(after.0, after.1),
{
    if let (ChainStage::Eq(p), ChainStage::Eq(q), ChainStage::Eq(l), ChainStage::Eq(r)) = (
        a,
        b,
        after.0,
        after.1,
    ) {
        lemma_twin_equalisers_apply(*p, *q, change, (*l, *r));
    }
}

/// Twin chains that are given the same update stay twins.
pub proof fn twin_chains_apply_the_same<A: SampleMath>(
    a: Chain<A>,
    b: Chain<A>,
    change: ParamChange,
    after: (Chain<A>, Chain<A>),
)
    requires
        twin_chains(a, b),
        a.applies(change, after.0),
        b.applies(change, after.1),
    ensures
        twin_chains(after.0, after.1),
{
    if change.id != a.ids.bypass && change.id != a.ids.output_ceiling_db {
        assert forall|i: int| 0 <= i < after.0.stages@.len() implies twin_stages(
            #[trigger] after.0.stages@[i],
            after.1.stages@[i],
        ) by {
            assert(twin_stages(a.stages@[i], b.stages@[i]));
            twin_stages_apply_the_same(
                a.stages@[i],
                b.stages@[i],
                change,
                (after.0.stages@[i], after.1.stages@[i]),
            );
        }
    }
}

/// Twin chains make the same of a stream.
pub proof fn twin_chains_sound_the_same<A: SampleMath>(
    a: Chain<A>,
    b: Chain<A>,
    blocks: Seq<Seq<Seq<Sample>>>,
    x: Seq<Seq<Seq<Sample>>>,
    y: Seq<Seq<Seq<Sample>>>,
    after: (Chain<A>, Chain<A>),
    channels: nat,
)
    requires
        processors_have_one_result(),
        1 <= channels <= 2,
        twin_chains(a, b),
        a.cross_cutting matches Some(cc) ==> cc.delay_lines@.len() == channels,
        forall|k: int| 0 <= k < blocks.len() ==> (#[trigger] blocks[k]).len() == channels,
        chain_processes_all(a, blocks, x, after.0),
        chain_processes_all(b, blocks, y, after.1),
    ensures
        x == y,
        twin_chains(after.0, after.1),
        after.0.cross_cutting matches Some(cc) ==> cc.delay_lines@.len() == channels,
    decreases blocks.len(),
{
    if blocks.len() == 0 {
        assert(x =~= y);
    } else {
        let past = blocks.drop_last();
        let frames = blocks.last()[0].len();
        let p = choose|between: Chain<A>|
            {
                &&& chain_processes_all(a, past, x.drop_last(), between)
                &&& #[trigger] between.processes(blocks.last(), frames, x.last(), after.0)
            };
        let q = choose|between: Chain<A>|
            {
                &&& chain_processes_all(b, past, y.drop_last(), between)
                &&& #[trigger] between.processes(blocks.last(), frames, y.last(), after.1)
            };
        assert forall|k: int| 0 <= k < past.len() implies (#[trigger] past[k]).len()
            == channels by {
            assert(blocks[k].len() == channels);
        }
        twin_chains_sound_the_same(a, b, past, x.drop_last(), y.drop_last(), (p, q), channels);
        assert(blocks[blocks.len() - 1].len() == channels);
        twin_chains_process_the_same(
            p,
            q,
            blocks.last(),
            frames,
            x.last(),
            y.last(),
            after,
        );
        assert(x =~= x.drop_last().push(x.last()));
        assert(y =~= y.drop_last().push(y.last()));
    }
}

/// A chain with arithmetic that has only one result is its own twin.
pub proof fn a_chain_is_its_own_twin<A: SampleMath>(chain: Chain<A>)
    requires
        determined(chain.math),
        forall|i: int|
            0 <= i < chain.stages@.len() ==> stage_determined(#[trigger] chain.stages@[i]),
    ensures
        twin_chains(chain, chain),
{
    assert forall|i: int| 0 <= i < chain.stages@.len() implies twin_stages(
        #[trigger] chain.stages@[i],
        chain.stages@[i],
    ) by {
        assert(stage_determined(chain.stages@[i]));
    }
}

/// Whether the arithmetic of a stage has only one result.
pub open spec fn stage_determined<A: SampleMath>(stage: ChainStage<A>) -> bool {
    match stage {
        ChainStage::Gate(gate) => determined(gate.math),
        ChainStage::Nam(nam) => determined(nam.math),
        ChainStage::Ir(ir) => determined(ir.math),
        _ => true,
    }
}

/// Twin chains that are prepared for the same blocks stay twins.
pub proof fn twin_chains_prepare_the_same<A: SampleMath>(
    a: Chain<A>,
    b: Chain<A>,
    ctx: PrepareContext,
    after: (Chain<A>, Chain<A>),
)
    requires
        processors_have_one_result(),
        twin_chains(a, b),
        a.prepares_to(ctx, after.0),
        b.prepares_to(ctx, after.1),
    ensures
        twin_chains(after.0, after.1),
{
    lemma_twin_rows_are_as_late(a.stages@, b.stages@);
    let p = after.0.cross_cutting->0;
    let q = after.1.cross_cutting->0;
    assert(p.blend == q.blend);
    assert forall|c: int| 0 <= c < p.delay_lines@.len() implies (#[trigger] p.delay_lines@[c])@
        == q.delay_lines@[c]@ by {
        assert(q.delay_lines@[c]@.len() == p.delay_lines@[c]@.len());
    }
}

/// A preparation and the chain's own settings may come in any order: a chain that was prepared
/// before a setting and one that was prepared after it give out the same from then on, sample for
/// sample.
pub proof fn either_order_of_preparing_is_heard_the_same<A: SampleMath>(
    chain: Chain<A>,
    ctx: PrepareContext,
    setting: ParamChange,
    prepared: Chain<A>,
    set: Chain<A>,
    ready: (Chain<A>, Chain<A>),
    blocks: Seq<Seq<Seq<Sample>>>,
    outputs: (Seq<Seq<Seq<Sample>>>, Seq<Seq<Seq<Sample>>>),
    after: (Chain<A>, Chain<A>),
    channels: nat,
)
    requires
        processors_have_one_result(),
        determined(chain.math),
        forall|i: int|
            0 <= i < chain.stages@.len() ==> stage_determined(#[trigger] chain.stages@[i]),
        1 <= channels <= 2,
        channels == ctx.channels(),
        setting.id == chain.ids.bypass || setting.id == chain.ids.output_ceiling_db,
        chain.prepares_to(ctx, prepared),
        prepared.applies(setting, ready.0),
        chain.applies(setting, set),
        set.prepares_to(ctx, ready.1),
        forall|k: int| 0 <= k < blocks.len() ==> (#[trigger] blocks[k]).len() == channels,
        chain_processes_all(ready.0, blocks, outputs.0, after.0),
        chain_processes_all(ready.1, blocks, outputs.1, after.1),
    ensures
        outputs.0 == outputs.1,
        twin_chains(after.0, after.1),
{
    let other = Chain { cross_cutting: chain.cross_cutting, ..ready.0 };
    assert(chain.applies(setting, other));
    assert(other.prepares_to(ctx, ready.0));
    a_chain_is_its_own_twin(chain);
    twin_chains_apply_the_same(chain, chain, setting, (other, set));
    twin_chains_prepare_the_same(other, set, ctx, ready);
    twin_chains_sound_the_same(
        ready.0,
        ready.1,
        blocks,
        outputs.0,
        outputs.1,
        after,
        channels,
    );
}

/// A parameter update is heard the same by either route: a chain to which it was applied at once
/// and one to which it came through the command ring give out the same from the very next block on,
/// sample for sample.
pub proof fn either_route_is_heard_the_same<A: SampleMath>(
    chain: Chain<A>,
    change: ParamChange,
    direct: Chain<A>,
    queued: Chain<A>,
    blocks: Seq<Seq<Seq<Sample>>>,
    outputs: (Seq<Seq<Seq<Sample>>>, Seq<Seq<Seq<Sample>>>),
    after: (Chain<A>, Chain<A>),
    channels: nat,
)
    requires
        processors_have_one_result(),
        determined(chain.math),
        forall|i: int|
            0 <= i < chain.stages@.len() ==> stage_determined(#[trigger] chain.stages@[i]),
        1 <= channels <= 2,
        chain.cross_cutting matches Some(cc) ==> cc.delay_lines@.len() == channels,
        obeys(chain, Command::Param(change), direct),
        obeys_all(chain, seq![Command::Param(change)], queued),
        forall|k: int| 0 <= k < blocks.len() ==> (#[trigger] blocks[k]).len() == channels,
        chain_processes_all(direct, blocks, outputs.0, after.0),
        chain_processes_all(queued, blocks, outputs.1, after.1),
    ensures
        outputs.0 == outputs.1,
        twin_chains(after.0, after.1),
{
    let commands = seq![Command::Param(change)];
    let start = choose|start: Chain<A>|
        obeys_all(chain, commands.drop_last(), start) && #[trigger] obeys(
            start,
            commands.last(),
            queued,
        );
    assert(commands.drop_last().len() == 0);
    a_chain_is_its_own_twin(chain);
    twin_chains_apply_the_same(chain, chain, change, (direct, queued));
    twin_chains_sound_the_same(
        direct,
        queued,
        blocks,
        outputs.0,
        outputs.1,
        after,
        channels,
    );
}

} // verus!
