//! What the resource stages sound like over any number of blocks.
//!
//! A stream is a sequence of blocks, and a channel of it is that channel of every block, one after
//! the other. The laws here speak of whole channels, so that where one block ends and the next
//! begins does not occur in them.

use vstd::prelude::*;

use crate::math::{exact_at_rest, faded, smooth_path, steady, SampleMath};
use crate::param::ParamChange;
use crate::prepare::PrepareContext;
use crate::sample::Sample;
use crate::stage::StagePrep;
use crate::stage_io::{block_of, channels_keep_pace, joined, stream_of};
use crate::stages::bypass::{
    a_blend_at_rest_is_one_side, a_blend_does_not_depend_on_the_division, block_blends,
    channel_blends, channel_runs, channels_end_together, BypassBlend,
};
use crate::stages::handover::{fade_does_not_depend_on_the_division, Crossfade};
use crate::stages::ir;
use crate::stages::ir::{channels_fade, spreads, wet_channel, IrSlot, IrStage};
use crate::stages::ir_filters::IrShaping;
use crate::stages::nam::{
    fade_renders, side_plays, with_nothing_loaded_there_is_only_the_input, NamPrep, NamSlot,
    NamStage, Normalize,
};
use crate::telemetry::TelemetryEntry;

verus! {

/// Two blocks faded one after the other come to the same as both faded at once.
pub proof fn a_crossfade_does_not_depend_on_the_division<A: SampleMath>(
    math: A,
    fade: Crossfade,
    outgoing: (Seq<Sample>, Seq<Sample>),
    incoming: (Seq<Sample>, Seq<Sample>),
    output: (Seq<Sample>, Seq<Sample>),
)
    requires
        fade.wf(),
        fade_renders(math, fade, outgoing.0, incoming.0, output.0),
        fade_renders(math, fade.after(output.0.len() as int), outgoing.1, incoming.1, output.1),
    ensures
        fade_renders(
            math,
            fade,
            outgoing.0 + outgoing.1,
            incoming.0 + incoming.1,
            output.0 + output.1,
        ),
{
    let n = output.0.len() as int;
    let all = output.0 + output.1;
    assert forall|i: int| 0 <= i < all.len() implies faded(
        math,
        (outgoing.0 + outgoing.1)[i],
        (incoming.0 + incoming.1)[i],
        fade.after(i).progress(),
        fade.total,
        #[trigger] all[i],
    ) by {
        if i < n {
            assert(all[i] == output.0[i]);
        } else {
            fade_does_not_depend_on_the_division(fade, n as nat, (i - n) as nat);
            assert(all[i] == output.1[i - n]);
        }
    }
}

/// Whether `out` is the sample `s`, but for the sign of a zero.
pub open spec fn heard_as(s: Sample, out: Sample) -> bool {
    &&& out.same_number(s)
    &&& s.plain() ==> out == s
}

/// Whether the amp stage may turn the stream `blocks` into `outputs` and be left as `after`.
pub open spec fn amp_plays_all<A: SampleMath>(
    stage: NamStage<A>,
    blocks: Seq<Seq<Seq<Sample>>>,
    outputs: Seq<Seq<Seq<Sample>>>,
    after: NamStage<A>,
) -> bool
    decreases blocks.len(),
{
    &&& outputs.len() == blocks.len()
    &&& if blocks.len() == 0 {
        after == stage
    } else {
        exists|between: NamStage<A>|
            {
                &&& amp_plays_all(stage, blocks.drop_last(), outputs.drop_last(), between)
                &&& #[trigger] between.plays(blocks.last(), outputs.last(), after)
            }
    }
}

/// Whether a slot of the amp stage that is fed channel 0 of every block may produce `produced`, one
/// channel per block, and be left as `after`.
pub open spec fn amp_slot_plays_all<A: SampleMath>(
    math: A,
    slot: Option<Box<NamSlot>>,
    normalize: Normalize,
    blocks: Seq<Seq<Seq<Sample>>>,
    produced: Seq<Seq<Seq<Sample>>>,
    after: Option<Box<NamSlot>>,
) -> bool
    decreases blocks.len(),
{
    &&& produced.len() == blocks.len()
    &&& if blocks.len() == 0 {
        after == slot
    } else {
        exists|between: Option<Box<NamSlot>>|
            {
                &&& amp_slot_plays_all(
                    math,
                    slot,
                    normalize,
                    blocks.drop_last(),
                    produced.drop_last(),
                    between,
                )
                &&& #[trigger] side_plays(
                    math,
                    between,
                    normalize,
                    blocks.last()[0],
                    produced.last()[0],
                    after,
                )
            }
    }
}

/// Whether `out` is what a channel of the amp stage sounds like from a first load on: `dry` is that
/// channel of the input and `lead` the input's channel 0. The blend stands open, the fade runs from
/// `lead` to `produced`, and both move on by one frame per frame.
pub open spec fn amp_fades_in<A: SampleMath>(
    math: A,
    coefficient: Sample,
    fade: Crossfade,
    lead: Seq<Sample>,
    produced: Seq<Sample>,
    dry: Seq<Sample>,
    out: Seq<Sample>,
    end: Sample,
) -> bool {
    exists|wet: Seq<Sample>|
        {
            &&& #[trigger] fade_renders(math, fade, lead, produced, wet)
            &&& channel_blends(
                math,
                Sample::one(),
                Sample::one(),
                coefficient,
                dry,
                wet,
                out,
                end,
            )
        }
}

/// Where an amp stage that has just been given its first model stands, `frames` frames later, as
/// long as the fade is not over.
spec fn amp_on_its_way<A: SampleMath>(
    start: NamStage<A>,
    fade: Crossfade,
    frames: int,
    after: NamStage<A>,
) -> bool {
    &&& after.math == start.math
    &&& after.enabled
    &&& after.normalize() == start.normalize()
    &&& after.blend.coefficient == start.blend.coefficient
    &&& after.handover.fade == Some(fade.after(frames))
    &&& after.handover.active is None
    &&& after.handover.inactive is Some
    &&& after.handover.parked is None
}

/// From its first model on, an amp stage that is switched on sounds the same however the stream is
/// divided into blocks, up to the block that ends the fade: on every channel, frame `n` is faded
/// from the input to the model's own output at the step that `n` alone determines, which is 0 for
/// as long as the model's delay lasts and for one frame more.
///
/// Of a channel that is not the last this needs a smoothing step to have only one result.
pub proof fn a_first_model_fades_in_wherever_blocks_end<A: SampleMath>(
    stage: NamStage<A>,
    slot: Box<NamSlot>,
    blocks: Seq<Seq<Seq<Sample>>>,
    outputs: Seq<Seq<Seq<Sample>>>,
    after: NamStage<A>,
    channels: nat,
    ch: int,
)
    requires
        stage.enabled,
        stage.handover.wf(),
        !stage.handover.sounds(),
        stream_of(blocks, channels),
        stream_of(outputs, channels),
        0 <= ch < channels,
        ch == channels - 1 || steady(stage.math),
        amp_plays_all(stage.begun(Some(slot), slot.latency()), blocks, outputs, after),
        blocks.len() > 0 ==> joined(blocks.drop_last(), 0).len() < slot.latency()
            + stage.handover.length,
    ensures
        exists|produced: Seq<Seq<Seq<Sample>>>, left: Option<Box<NamSlot>>|
            {
                &&& #[trigger] amp_slot_plays_all(
                    stage.math,
                    Some(slot),
                    stage.normalize(),
                    blocks,
                    produced,
                    left,
                )
                &&& amp_fades_in(
                    stage.math,
                    stage.blend.coefficient,
                    Crossfade::fresh(slot.latency(), stage.handover.length),
                    joined(blocks, 0),
                    joined(produced, 0),
                    joined(blocks, ch),
                    joined(outputs, ch),
                    after.blend.mix,
                )
            },
{
    let fade = Crossfade::fresh(slot.latency(), stage.handover.length);
    let start = stage.begun(Some(slot), slot.latency());
    let (produced, left) = lemma_amp_onset(start, slot, fade, blocks, outputs, after, channels, ch);
    assert(amp_slot_plays_all(
        stage.math,
        Some(slot),
        stage.normalize(),
        blocks,
        produced,
        left,
    ));
}

/// Until its fade moves, a first model is not heard: with exact arithmetic at rest, every channel
/// gives the input's channel 0, number for number, for as long as the model's delay lasts and for
/// one frame more, however the stream is divided into blocks.
pub proof fn a_first_model_is_silent_until_its_fade_moves<A: SampleMath>(
    stage: NamStage<A>,
    slot: Box<NamSlot>,
    blocks: Seq<Seq<Seq<Sample>>>,
    outputs: Seq<Seq<Seq<Sample>>>,
    after: NamStage<A>,
    channels: nat,
    ch: int,
)
    requires
        stage.enabled,
        stage.handover.wf(),
        !stage.handover.sounds(),
        stream_of(blocks, channels),
        stream_of(outputs, channels),
        0 <= ch < channels,
        ch == channels - 1 || steady(stage.math),
        exact_at_rest(stage.math),
        stage.blend.coefficient.finite(),
        amp_plays_all(stage.begun(Some(slot), slot.latency()), blocks, outputs, after),
        blocks.len() > 0 ==> joined(blocks.drop_last(), 0).len() < slot.latency()
            + stage.handover.length,
    ensures
        exists|produced: Seq<Seq<Seq<Sample>>>, left: Option<Box<NamSlot>>|
            {
                &&& #[trigger] amp_slot_plays_all(
                    stage.math,
                    Some(slot),
                    stage.normalize(),
                    blocks,
                    produced,
                    left,
                )
                &&& forall|n: int|
                    0 <= n <= slot.latency() && n < joined(outputs, ch).len() && joined(
                        blocks,
                        0,
                    )[n].finite() && joined(blocks, ch)[n].finite() && joined(
                        produced,
                        0,
                    )[n].finite() ==> heard_as(
                        joined(blocks, 0)[n],
                        #[trigger] joined(outputs, ch)[n],
                    )
            },
{
    a_first_model_fades_in_wherever_blocks_end(
        stage,
        slot,
        blocks,
        outputs,
        after,
        channels,
        ch,
    );
    let fade = Crossfade::fresh(slot.latency(), stage.handover.length);
    let coefficient = stage.blend.coefficient;
    let lead = joined(blocks, 0);
    let dry = joined(blocks, ch);
    let out = joined(outputs, ch);
    let end = after.blend.mix;
    let (produced, left) = choose|
        produced: Seq<Seq<Seq<Sample>>>,
        left: Option<Box<NamSlot>>,
    |
        {
            &&& #[trigger] amp_slot_plays_all(
                stage.math,
                Some(slot),
                stage.normalize(),
                blocks,
                produced,
                left,
            )
            &&& amp_fades_in(
                stage.math,
                coefficient,
                fade,
                lead,
                joined(produced, 0),
                dry,
                out,
                end,
            )
        };
    let heard = joined(produced, 0);
    let wet = choose|wet: Seq<Sample>|
        {
            &&& #[trigger] fade_renders(stage.math, fade, lead, heard, wet)
            &&& channel_blends(
                stage.math,
                Sample::one(),
                Sample::one(),
                coefficient,
                dry,
                wet,
                out,
                end,
            )
        };
    assert forall|n: int|
        0 <= n <= slot.latency() && n < out.len() && lead[n].finite() && dry[n].finite()
            && heard[n].finite() implies heard_as(lead[n], #[trigger] out[n]) by {
        a_blend_at_rest_is_one_side(
            stage.math,
            Sample::one(),
            coefficient,
            dry,
            wet,
            out,
            end,
            n,
        );
        assert(faded(stage.math, lead[n], heard[n], 0, fade.total, wet[n]));
    }
}

/// The step that proves the law, one block at a time.
#[verifier::spinoff_prover]
#[verifier::rlimit(40)]
proof fn lemma_amp_onset<A: SampleMath>(
    start: NamStage<A>,
    slot: Box<NamSlot>,
    fade: Crossfade,
    blocks: Seq<Seq<Seq<Sample>>>,
    outputs: Seq<Seq<Seq<Sample>>>,
    after: NamStage<A>,
    channels: nat,
    ch: int,
) -> (r: (Seq<Seq<Seq<Sample>>>, Option<Box<NamSlot>>))
    requires
        fade.wf(),
        fade.remaining == fade.total,
        amp_on_its_way(start, fade, 0, start),
        start.handover.inactive == Some(slot),
        start.blend.mix == Sample::one(),
        stream_of(blocks, channels),
        stream_of(outputs, channels),
        0 <= ch < channels,
        ch == channels - 1 || steady(start.math),
        amp_plays_all(start, blocks, outputs, after),
        blocks.len() > 0 ==> joined(blocks.drop_last(), 0).len() < fade.hold + fade.total,
    ensures
        amp_slot_plays_all(start.math, Some(slot), start.normalize(), blocks, r.0, r.1),
        amp_fades_in(
            start.math,
            start.blend.coefficient,
            fade,
            joined(blocks, 0),
            joined(r.0, 0),
            joined(blocks, ch),
            joined(outputs, ch),
            after.blend.mix,
        ),
        joined(blocks, 0).len() < fade.hold + fade.total ==> {
            &&& amp_on_its_way(start, fade, joined(blocks, 0).len() as int, after)
            &&& after.handover.inactive == r.1
        },
    decreases blocks.len(),
{
    if blocks.len() == 0 {
        let none = Seq::<Sample>::empty();
        let produced = Seq::<Seq<Seq<Sample>>>::empty();
        let path = seq![Sample::one()];
        assert(smooth_path(
            start.math,
            Sample::one(),
            Sample::one(),
            start.blend.coefficient,
            path,
        ));
        assert(fade_renders(start.math, fade, none, none, none));
        (produced, Some(slot))
    } else {
        let math = start.math;
        let coefficient = start.blend.coefficient;
        let past = blocks.drop_last();
        let input = blocks.last();
        let output = outputs.last();
        let between = choose|between: NamStage<A>|
            {
                &&& amp_plays_all(start, past, outputs.drop_last(), between)
                &&& #[trigger] between.plays(input, output, after)
            };
        let (produced, held) = lemma_amp_onset(
            start,
            slot,
            fade,
            past,
            outputs.drop_last(),
            between,
            channels,
            ch,
        );
        let n = joined(past, 0).len() as int;
        let now = fade.after(n);
        let frames = input[0].len() as int;
        fade_does_not_depend_on_the_division(fade, n as nat, frames as nat);
        assert(blocks[blocks.len() - 1] == input && outputs[outputs.len() - 1] == output);
        let (active, inactive) = choose|
            active: Option<Box<NamSlot>>,
            inactive: Option<Box<NamSlot>>,
        |
            {
                &&& #[trigger] between.renders(input, output, after.blend.mix, active, inactive)
                &&& after.handover == between.handover.moved_on(active, inactive, frames)
            };
        let blend = BypassBlend { target: between.wanted_after(frames), ..between.blend };
        let wet = choose|wet: Seq<Sample>|
            {
                &&& #[trigger] between.wet_plays(input[0], wet, active, inactive)
                &&& block_blends(
                    math,
                    blend,
                    input,
                    Seq::new(input.len(), |c: int| wet),
                    output,
                    after.blend.mix,
                )
            };
        let (outgoing, incoming) = choose|outgoing: Seq<Sample>, incoming: Seq<Sample>|
            {
                &&& between.side(between.handover.active, input[0], outgoing, active)
                &&& between.side(between.handover.inactive, input[0], incoming, inactive)
                &&& #[trigger] fade_renders(math, now, outgoing, incoming, wet)
            };
        assert(outgoing == input[0]);
        let wets = Seq::new(input.len(), |c: int| wet);
        channels_end_together(math, blend, input, wets, output, after.blend.mix, ch);
        assert(block_of(input, input[0].len()));
        channels_keep_pace(past, channels, ch);
        let before = choose|before: Seq<Sample>|
            {
                &&& #[trigger] fade_renders(
                    math,
                    fade,
                    joined(past, 0),
                    joined(produced, 0),
                    before,
                )
                &&& channel_blends(
                    math,
                    Sample::one(),
                    Sample::one(),
                    coefficient,
                    joined(past, ch),
                    before,
                    joined(outputs.drop_last(), ch),
                    between.blend.mix,
                )
            };
        a_crossfade_does_not_depend_on_the_division(
            math,
            fade,
            (joined(past, 0), input[0]),
            (joined(produced, 0), incoming),
            (before, wet),
        );
        a_blend_does_not_depend_on_the_division(
            math,
            Sample::one(),
            between.blend.mix,
            after.blend.mix,
            Sample::one(),
            coefficient,
            (joined(past, ch), input[ch]),
            (before, wet),
            (joined(outputs.drop_last(), ch), output[ch]),
        );
        let all = produced.push(seq![incoming]);
        assert(all.drop_last() =~= produced);
        assert(side_plays(math, held, start.normalize(), input[0], all.last()[0], inactive));
        assert(amp_slot_plays_all(math, Some(slot), start.normalize(), blocks, all, inactive));
        assert(fade_renders(math, fade, joined(blocks, 0), joined(all, 0), before + wet));
        (all, inactive)
    }
}

/// An amp stage with nothing loaded stays empty over any stream, and each of its channels is one
/// blend of that channel and the input's channel 0, on its way to that channel alone, however the
/// stream is divided into blocks.
pub proof fn an_empty_amp_stage_is_one_blend<A: SampleMath>(
    stage: NamStage<A>,
    blocks: Seq<Seq<Seq<Sample>>>,
    outputs: Seq<Seq<Seq<Sample>>>,
    after: NamStage<A>,
    channels: nat,
    ch: int,
)
    requires
        !stage.handover.sounds(),
        stage.handover.fade is None,
        stream_of(blocks, channels),
        stream_of(outputs, channels),
        0 <= ch < channels,
        ch == channels - 1 || steady(stage.math),
        amp_plays_all(stage, blocks, outputs, after),
    ensures
        after.handover == stage.handover,
        after.math == stage.math,
        after.blend.coefficient == stage.blend.coefficient,
        channel_blends(
            stage.math,
            stage.blend.mix,
            Sample::zero(),
            stage.blend.coefficient,
            joined(blocks, ch),
            joined(blocks, 0),
            joined(outputs, ch),
            after.blend.mix,
        ),
    decreases blocks.len(),
{
    if blocks.len() == 0 {
        assert(smooth_path(
            stage.math,
            stage.blend.mix,
            Sample::zero(),
            stage.blend.coefficient,
            seq![stage.blend.mix],
        ));
    } else {
        let past = blocks.drop_last();
        let input = blocks.last();
        let output = outputs.last();
        let between = choose|between: NamStage<A>|
            {
                &&& amp_plays_all(stage, past, outputs.drop_last(), between)
                &&& #[trigger] between.plays(input, output, after)
            };
        an_empty_amp_stage_is_one_blend(
            stage,
            past,
            outputs.drop_last(),
            between,
            channels,
            ch,
        );
        with_nothing_loaded_there_is_only_the_input(between, input, output, after);
        assert(blocks[blocks.len() - 1] == input && outputs[outputs.len() - 1] == output);
        assert(block_of(input, input[0].len()));
        channels_end_together(
            stage.math,
            BypassBlend { target: Sample::zero(), ..between.blend },
            input,
            Seq::new(input.len(), |c: int| input[0]),
            output,
            after.blend.mix,
            ch,
        );
        channels_keep_pace(past, channels, ch);
        a_blend_does_not_depend_on_the_division(
            stage.math,
            stage.blend.mix,
            between.blend.mix,
            after.blend.mix,
            Sample::zero(),
            stage.blend.coefficient,
            (joined(past, ch), input[ch]),
            (joined(past, 0), input[0]),
            (joined(outputs.drop_last(), ch), output[ch]),
        );
    }
}

/// An amp stage with nothing loaded whose blend has arrived gives its input back, number for
/// number, over any stream, with exact arithmetic at rest.
pub proof fn an_empty_amp_stage_gives_its_input_back<A: SampleMath>(
    stage: NamStage<A>,
    blocks: Seq<Seq<Seq<Sample>>>,
    outputs: Seq<Seq<Seq<Sample>>>,
    after: NamStage<A>,
    channels: nat,
    ch: int,
)
    requires
        !stage.handover.sounds(),
        stage.handover.fade is None,
        stage.blend.mix == Sample::zero(),
        stage.blend.coefficient.finite(),
        exact_at_rest(stage.math),
        stream_of(blocks, channels),
        stream_of(outputs, channels),
        0 <= ch < channels,
        ch == channels - 1 || steady(stage.math),
        amp_plays_all(stage, blocks, outputs, after),
    ensures
        forall|n: int|
            0 <= n < joined(outputs, ch).len() && joined(blocks, ch)[n].finite() && joined(
                blocks,
                0,
            )[n].finite() ==> heard_as(joined(blocks, ch)[n], #[trigger] joined(outputs, ch)[n]),
{
    an_empty_amp_stage_is_one_blend(stage, blocks, outputs, after, channels, ch);
    let dry = joined(blocks, ch);
    let lead = joined(blocks, 0);
    let out = joined(outputs, ch);
    assert forall|n: int|
        0 <= n < out.len() && dry[n].finite() && lead[n].finite() implies heard_as(
        dry[n],
        #[trigger] out[n],
    ) by {
        a_blend_at_rest_is_one_side(
            stage.math,
            Sample::zero(),
            stage.blend.coefficient,
            dry,
            lead,
            out,
            after.blend.mix,
            n,
        );
    }
}

/// Something that happens to an amp stage.
pub enum AmpStep {
    /// A parameter update.
    Update(ParamChange),
    /// A block, and what it is turned into.
    Block(Seq<Seq<Sample>>, Seq<Seq<Sample>>),
}

/// Whether an amp stage to which this happens may be left as `after`.
pub open spec fn amp_steps_to<A: SampleMath>(
    stage: NamStage<A>,
    step: AmpStep,
    after: NamStage<A>,
) -> bool {
    match step {
        AmpStep::Update(change) => after == stage.applied(change),
        AmpStep::Block(input, output) => stage.plays(input, output, after),
    }
}

/// Whether an amp stage to which all this happens may be left as `after`.
pub open spec fn amp_goes_through<A: SampleMath>(
    stage: NamStage<A>,
    steps: Seq<AmpStep>,
    after: NamStage<A>,
) -> bool
    decreases steps.len(),
{
    if steps.len() == 0 {
        after == stage
    } else {
        exists|between: NamStage<A>|
            {
                &&& amp_goes_through(stage, steps.drop_last(), between)
                &&& #[trigger] amp_steps_to(between, steps.last(), after)
            }
    }
}

/// Whether a block is passed on as it is.
pub open spec fn passed_on(input: Seq<Seq<Sample>>, output: Seq<Seq<Sample>>) -> bool {
    forall|c: int, n: int|
        0 <= c < output.len() && 0 <= n < output[c].len() && input[c][n].finite()
            && input[0][n].finite() ==> heard_as(input[c][n], #[trigger] output[c][n])
}

/// A prepared amp stage that is given no model behaves as bypassed, whatever it is told, whether it
/// is switched on or not, and however many blocks it is given: it passes every finite block on,
/// number for number, adds no delay, and reports that nothing is loaded. It holds nothing.
pub proof fn an_amp_stage_without_a_model_behaves_as_bypassed<A: SampleMath>(
    prep: NamPrep<A>,
    ctx: PrepareContext,
    stage: NamStage<A>,
    steps: Seq<AmpStep>,
    after: NamStage<A>,
)
    requires
        prep.prepares(ctx, stage),
        exact_at_rest(stage.math),
        stage.blend.coefficient.finite(),
        amp_goes_through(stage, steps, after),
    ensures
        after.handover == stage.handover,
        after.latency() == 0,
        after.readings()[0] == (TelemetryEntry { id: prep.ids.loaded, value: Sample::zero() }),
        forall|k: int|
            0 <= k < steps.len() ==> (#[trigger] steps[k] matches AmpStep::Block(input, output)
                ==> passed_on(input, output)),
{
    lemma_stays_bypassed(stage, steps, after);
}

/// One step more of an amp stage without a model.
proof fn lemma_stays_bypassed<A: SampleMath>(
    stage: NamStage<A>,
    steps: Seq<AmpStep>,
    after: NamStage<A>,
)
    requires
        !stage.handover.sounds(),
        stage.handover.fade is None,
        stage.blend.mix == Sample::zero(),
        exact_at_rest(stage.math),
        stage.blend.coefficient.finite(),
        amp_goes_through(stage, steps, after),
    ensures
        after.handover == stage.handover,
        after.math == stage.math,
        after.ids == stage.ids,
        after.blend.mix == Sample::zero(),
        after.blend.coefficient == stage.blend.coefficient,
        forall|k: int|
            0 <= k < steps.len() ==> (#[trigger] steps[k] matches AmpStep::Block(input, output)
                ==> passed_on(input, output)),
    decreases steps.len(),
{
    if steps.len() > 0 {
        let past = steps.drop_last();
        let between = choose|between: NamStage<A>|
            {
                &&& amp_goes_through(stage, past, between)
                &&& #[trigger] amp_steps_to(between, steps.last(), after)
            };
        lemma_stays_bypassed(stage, past, between);
        let math = stage.math;
        let coefficient = stage.blend.coefficient;
        if let AmpStep::Block(input, output) = steps.last() {
            with_nothing_loaded_there_is_only_the_input(between, input, output, after);
            let blend = BypassBlend { target: Sample::zero(), ..between.blend };
            let wet = Seq::new(input.len(), |c: int| input[0]);
            let last = output.len() - 1;
            a_blend_at_rest_is_one_side(
                math,
                Sample::zero(),
                coefficient,
                input[last],
                wet[last],
                output[last],
                after.blend.mix,
                0,
            );
            assert forall|c: int, n: int|
                0 <= c < output.len() && 0 <= n < output[c].len() && input[c][n].finite()
                    && input[0][n].finite() implies heard_as(
                input[c][n],
                #[trigger] output[c][n],
            ) by {
                assert(channel_runs(math, blend, input[c], wet[c], output[c]));
                let end = choose|end: Sample|
                    channel_blends(
                        math,
                        blend.mix,
                        blend.target,
                        blend.coefficient,
                        input[c],
                        wet[c],
                        output[c],
                        end,
                    );
                a_blend_at_rest_is_one_side(
                    math,
                    Sample::zero(),
                    coefficient,
                    input[c],
                    wet[c],
                    output[c],
                    end,
                    n,
                );
            }
        }
        assert forall|k: int| 0 <= k < steps.len() implies (
        #[trigger] steps[k] matches AmpStep::Block(input, output) ==> passed_on(
            input,
            output,
        )) by {
            if k < past.len() {
                assert(past[k] == steps[k]);
            }
        }
    }
}

/// Whether the cabinet stage may turn the stream `blocks` into `outputs` and be left as `after`.
pub open spec fn cabinet_plays_all<A: SampleMath>(
    stage: IrStage<A>,
    blocks: Seq<Seq<Seq<Sample>>>,
    outputs: Seq<Seq<Seq<Sample>>>,
    after: IrStage<A>,
) -> bool
    decreases blocks.len(),
{
    &&& outputs.len() == blocks.len()
    &&& if blocks.len() == 0 {
        after == stage
    } else {
        exists|between: IrStage<A>|
            {
                &&& cabinet_plays_all(stage, blocks.drop_last(), outputs.drop_last(), between)
                &&& #[trigger] between.plays(blocks.last(), outputs.last(), after)
            }
    }
}

/// Whether a slot of the cabinet stage that is fed channel 0 of every block may sound as `heard` on
/// the physical channels and be left as `after`.
pub open spec fn cabinet_slot_plays_all(
    slot: Option<Box<IrSlot>>,
    blocks: Seq<Seq<Seq<Sample>>>,
    heard: Seq<Seq<Seq<Sample>>>,
    after: Option<Box<IrSlot>>,
) -> bool
    decreases blocks.len(),
{
    &&& heard.len() == blocks.len()
    &&& if blocks.len() == 0 {
        after == slot
    } else {
        exists|between: Option<Box<IrSlot>>, produced: Seq<Seq<Sample>>|
            {
                &&& cabinet_slot_plays_all(slot, blocks.drop_last(), heard.drop_last(), between)
                &&& #[trigger] ir::side_plays(between, blocks.last()[0], produced, after)
                &&& spreads(produced, heard.last())
            }
    }
}

/// Whether the cut filters and the level may turn the stream `blocks` into `outputs` and be left as
/// `after`.
pub open spec fn shaping_passes_all(
    shaping: IrShaping,
    blocks: Seq<Seq<Seq<Sample>>>,
    outputs: Seq<Seq<Seq<Sample>>>,
    after: IrShaping,
) -> bool
    decreases blocks.len(),
{
    &&& outputs.len() == blocks.len()
    &&& if blocks.len() == 0 {
        after == shaping
    } else {
        exists|between: IrShaping|
            {
                &&& shaping_passes_all(shaping, blocks.drop_last(), outputs.drop_last(), between)
                &&& #[trigger] between.pass(blocks.last(), outputs.last(), after)
            }
    }
}

/// Whether `out` is what channel `ch` of the cabinet stage sounds like from a first load on: the
/// fade runs from the input's channel 0 to what the slot sounds as on that channel; the result goes
/// through the filters and the level; and the blend stands open. All of it moves on by one frame
/// per frame.
pub open spec fn cabinet_fades_in<A: SampleMath>(
    stage: IrStage<A>,
    blocks: Seq<Seq<Seq<Sample>>>,
    heard: Seq<Seq<Seq<Sample>>>,
    out: Seq<Sample>,
    channels: nat,
    ch: int,
    after: IrStage<A>,
) -> bool {
    exists|wet: Seq<Seq<Seq<Sample>>>, shaped: Seq<Seq<Seq<Sample>>>|
        {
            &&& stream_of(wet, channels)
            &&& forall|k: int| 0 <= k < heard.len() ==> (#[trigger] heard[k]).len() == channels
            &&& fade_renders(
                stage.math,
                Crossfade::fresh(0, stage.handover.length),
                joined(blocks, 0),
                joined(heard, ch),
                joined(wet, ch),
            )
            &&& #[trigger] shaping_passes_all(stage.shaping, wet, shaped, after.shaping)
            &&& channel_blends(
                stage.math,
                Sample::one(),
                Sample::one(),
                stage.blend.coefficient,
                joined(blocks, ch),
                joined(shaped, ch),
                out,
                after.blend.mix,
            )
        }
}

/// Where a cabinet stage that has just been given its first response stands, `frames` frames later,
/// as long as the fade is not over.
spec fn cabinet_on_its_way<A: SampleMath>(
    start: IrStage<A>,
    frames: int,
    after: IrStage<A>,
) -> bool {
    &&& after.math == start.math
    &&& after.enabled
    &&& after.blend.coefficient == start.blend.coefficient
    &&& after.handover.length == start.handover.length
    &&& after.handover.fade == Some(Crossfade::fresh(0, start.handover.length).after(frames))
    &&& after.handover.active is None
    &&& after.handover.inactive is Some
    &&& after.handover.parked is None
}

/// From its first response on, a cabinet stage that is switched on sounds the same however the
/// stream is divided into blocks, up to the block that ends the fade: on every channel, frame `n`
/// is faded from the input to the response at step `n`, so that the first frame at which the
/// response is heard is frame 1, and the result goes through that channel's filters and level.
///
/// Of a channel that is not the last this needs a smoothing step to have only one result.
pub proof fn a_first_response_fades_in_wherever_blocks_end<A: SampleMath>(
    stage: IrStage<A>,
    slot: Box<IrSlot>,
    blocks: Seq<Seq<Seq<Sample>>>,
    outputs: Seq<Seq<Seq<Sample>>>,
    after: IrStage<A>,
    channels: nat,
    ch: int,
)
    requires
        stage.enabled,
        stage.handover.wf(),
        !stage.handover.sounds(),
        1 <= channels <= 2,
        stream_of(blocks, channels),
        stream_of(outputs, channels),
        0 <= ch < channels,
        ch == channels - 1 || steady(stage.math),
        cabinet_plays_all(stage.begun(Some(slot), 0), blocks, outputs, after),
        blocks.len() > 0 ==> joined(blocks.drop_last(), 0).len() < stage.handover.length,
    ensures
        exists|heard: Seq<Seq<Seq<Sample>>>, left: Option<Box<IrSlot>>|
            {
                &&& #[trigger] cabinet_slot_plays_all(Some(slot), blocks, heard, left)
                &&& cabinet_fades_in(stage, blocks, heard, joined(outputs, ch), channels, ch, after)
            },
{
    let start = stage.begun(Some(slot), 0);
    let (heard, left) = lemma_cabinet_onset(start, slot, blocks, outputs, after, channels, ch);
    assert(cabinet_slot_plays_all(Some(slot), blocks, heard, left));
    let (wet, shaped) = choose|wet: Seq<Seq<Seq<Sample>>>, shaped: Seq<Seq<Seq<Sample>>>|
        {
            &&& stream_of(wet, channels)
            &&& fade_renders(
                start.math,
                Crossfade::fresh(0, start.handover.length),
                joined(blocks, 0),
                joined(heard, ch),
                joined(wet, ch),
            )
            &&& #[trigger] shaping_passes_all(start.shaping, wet, shaped, after.shaping)
            &&& channel_blends(
                start.math,
                Sample::one(),
                Sample::one(),
                start.blend.coefficient,
                joined(blocks, ch),
                joined(shaped, ch),
                joined(outputs, ch),
                after.blend.mix,
            )
        };
    assert(shaping_passes_all(stage.shaping, wet, shaped, after.shaping));
}

/// The step that proves the law, one block at a time.
#[verifier::spinoff_prover]
#[verifier::rlimit(40)]
proof fn lemma_cabinet_onset<A: SampleMath>(
    start: IrStage<A>,
    slot: Box<IrSlot>,
    blocks: Seq<Seq<Seq<Sample>>>,
    outputs: Seq<Seq<Seq<Sample>>>,
    after: IrStage<A>,
    channels: nat,
    ch: int,
) -> (r: (Seq<Seq<Seq<Sample>>>, Option<Box<IrSlot>>))
    requires
        start.handover.length >= 1,
        cabinet_on_its_way(start, 0, start),
        start.handover.inactive == Some(slot),
        start.blend.mix == Sample::one(),
        1 <= channels <= 2,
        stream_of(blocks, channels),
        stream_of(outputs, channels),
        0 <= ch < channels,
        ch == channels - 1 || steady(start.math),
        cabinet_plays_all(start, blocks, outputs, after),
        blocks.len() > 0 ==> joined(blocks.drop_last(), 0).len() < start.handover.length,
    ensures
        cabinet_slot_plays_all(Some(slot), blocks, r.0, r.1),
        cabinet_fades_in(start, blocks, r.0, joined(outputs, ch), channels, ch, after),
        joined(outputs, ch).len() == joined(blocks, ch).len(),
        joined(blocks, 0).len() < start.handover.length ==> {
            &&& cabinet_on_its_way(start, joined(blocks, 0).len() as int, after)
            &&& after.handover.inactive == r.1
        },
    decreases blocks.len(),
{
    let fade = Crossfade::fresh(0, start.handover.length);
    let math = start.math;
    let coefficient = start.blend.coefficient;
    if blocks.len() == 0 {
        let none = Seq::<Seq<Seq<Sample>>>::empty();
        assert(smooth_path(
            math,
            Sample::one(),
            Sample::one(),
            coefficient,
            seq![Sample::one()],
        ));
        assert(shaping_passes_all(start.shaping, none, none, after.shaping));
        (none, Some(slot))
    } else {
        let past = blocks.drop_last();
        let input = blocks.last();
        let output = outputs.last();
        let between = choose|between: IrStage<A>|
            {
                &&& cabinet_plays_all(start, past, outputs.drop_last(), between)
                &&& #[trigger] between.plays(input, output, after)
            };
        let (heard, held) = lemma_cabinet_onset(
            start,
            slot,
            past,
            outputs.drop_last(),
            between,
            channels,
            ch,
        );
        let n = joined(past, 0).len() as int;
        let now = fade.after(n);
        let frames = input[0].len() as int;
        fade_does_not_depend_on_the_division(fade, n as nat, frames as nat);
        assert(blocks[blocks.len() - 1] == input && outputs[outputs.len() - 1] == output);
        assert(block_of(input, input[0].len()));
        let (active, inactive) = choose|
            active: Option<Box<IrSlot>>,
            inactive: Option<Box<IrSlot>>,
        |
            {
                &&& #[trigger] between.renders(
                    input,
                    output,
                    after.blend.mix,
                    active,
                    inactive,
                    after.shaping,
                )
                &&& after.handover == between.handover.moved_on(active, inactive, frames)
            };
        let blend = BypassBlend { target: between.wanted_after(frames), ..between.blend };
        let (wet, shaped) = choose|wet: Seq<Seq<Sample>>, shaped: Seq<Seq<Sample>>|
            {
                &&& between.wet_plays(input, wet, active, inactive)
                &&& #[trigger] between.shaping.pass(wet, shaped, after.shaping)
                &&& block_blends(math, blend, input, shaped, output, after.blend.mix)
            };
        let (outgoing, produced) = choose|
            outgoing: Seq<Seq<Sample>>,
            produced: Seq<Seq<Sample>>,
        |
            {
                &&& ir::side_plays(between.handover.active, input[0], outgoing, active)
                &&& ir::side_plays(between.handover.inactive, input[0], produced, inactive)
                &&& #[trigger] channels_fade(math, now, outgoing, produced, wet)
            };
        assert(outgoing == seq![input[0]]);
        let now_heard = Seq::new(
            channels,
            |c: int| produced[wet_channel(c, produced.len() as int)],
        );
        assert forall|c: int| 0 <= c < channels implies (#[trigger] wet[c]).len()
            == input[0].len() && shaped[c].len() == input[0].len() && fade_renders(
            math,
            now,
            input[0],
            now_heard[c],
            wet[c],
        ) by {
            assert(outgoing[wet_channel(c, outgoing.len() as int)] == input[0]);
        }
        assert(wet[ch].len() == input[0].len());
        assert(wet[channels - 1].len() == input[0].len());
        channels_end_together(math, blend, input, shaped, output, after.blend.mix, ch);
        channels_keep_pace(past, channels, ch);
        let (wets, shapeds) = choose|
            wets: Seq<Seq<Seq<Sample>>>,
            shapeds: Seq<Seq<Seq<Sample>>>,
        |
            {
                &&& stream_of(wets, channels)
                &&& fade_renders(
                    math,
                    fade,
                    joined(past, 0),
                    joined(heard, ch),
                    joined(wets, ch),
                )
                &&& #[trigger] shaping_passes_all(start.shaping, wets, shapeds, between.shaping)
                &&& channel_blends(
                    math,
                    Sample::one(),
                    Sample::one(),
                    coefficient,
                    joined(past, ch),
                    joined(shapeds, ch),
                    joined(outputs.drop_last(), ch),
                    between.blend.mix,
                )
            };
        a_crossfade_does_not_depend_on_the_division(
            math,
            fade,
            (joined(past, 0), input[0]),
            (joined(heard, ch), now_heard[ch]),
            (joined(wets, ch), wet[ch]),
        );
        a_blend_does_not_depend_on_the_division(
            math,
            Sample::one(),
            between.blend.mix,
            after.blend.mix,
            Sample::one(),
            coefficient,
            (joined(past, ch), input[ch]),
            (joined(shapeds, ch), shaped[ch]),
            (joined(outputs.drop_last(), ch), output[ch]),
        );
        let all_heard = heard.push(now_heard);
        let all_wet = wets.push(wet);
        let all_shaped = shapeds.push(shaped);
        assert(all_heard.drop_last() =~= heard);
        assert forall|k: int| 0 <= k < all_heard.len() implies (#[trigger] all_heard[k]).len()
            == channels by {
            if k < heard.len() {
                assert(all_heard[k] == heard[k]);
            }
        }
        assert(all_wet.drop_last() =~= wets);
        assert forall|k: int| 0 <= k < all_wet.len() implies (#[trigger] all_wet[k]).len()
            == channels && block_of(all_wet[k], all_wet[k][0].len()) by {
            if k < wets.len() {
                assert(all_wet[k] == wets[k]);
            } else {
                assert(wet[0].len() == input[0].len());
            }
        }
        assert(all_shaped.drop_last() =~= shapeds);
        assert(spreads(produced, now_heard));
        assert(ir::side_plays(held, blocks.last()[0], produced, inactive));
        assert(cabinet_slot_plays_all(Some(slot), blocks, all_heard, inactive));
        assert(between.shaping.pass(all_wet.last(), all_shaped.last(), after.shaping));
        assert(shaping_passes_all(start.shaping, all_wet, all_shaped, after.shaping));
        (all_heard, inactive)
    }
}

} // verus!
