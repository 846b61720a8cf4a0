//! What a model at another rate than the engine's costs, and how a block passes it.

use vstd::arithmetic::div_mod::lemma_fundamental_div_mod;
use vstd::prelude::*;

use crate::laws::has_played;
use crate::prepare::ChannelConfig;
use crate::sample::Sample;
use crate::stage::{runs, BoxedStage};
use crate::stages::resampler::{
    converted, made_of, pipeline_latency, samples_needed, ConverterFigures, SlotResampler,
};

verus! {

/// A number of frames at one rate is the nearest whole number of frames at the other: no other is
/// closer in time, and of two that are equally close it is the larger.
pub proof fn frames_are_converted_to_the_nearest(frames: nat, to_hz: nat, from_hz: nat)
    requires
        from_hz >= 1,
    ensures
        2 * (converted(frames, to_hz, from_hz) * from_hz) <= 2 * (frames * to_hz) + from_hz,
        2 * (converted(frames, to_hz, from_hz) * from_hz) > 2 * (frames * to_hz) - from_hz,
{
    let n = (2 * frames * to_hz + from_hz) as int;
    let d = (2 * from_hz) as int;
    lemma_fundamental_div_mod(n, d);
    let q = converted(frames, to_hz, from_hz);
    assert(d * (n / d) == 2 * (q * from_hz)) by (nonlinear_arith)
        requires
            d == 2 * from_hz,
            q == n / d,
    ;
    assert(2 * frames * to_hz == 2 * (frames * to_hz)) by (nonlinear_arith);
}

/// The delay of a converted model is the sum of three: the way in, in engine frames, the way out,
/// and one block of the engine's; at equal rates the way in is taken as it is. A sum beyond the
/// largest figure stops there.
pub proof fn a_converted_model_is_late_by_three_delays(
    figures: ConverterFigures,
    engine_hz: u32,
    model_hz: u32,
)
    requires
        model_hz >= 1,
    ensures
        ({
            let sum = converted(
                figures.into_model_delay as nat,
                engine_hz as nat,
                model_hz as nat,
            ) + figures.out_of_model_delay + figures.engine_block;
            &&& sum <= 0xffff_ffff ==> pipeline_latency(figures, engine_hz, model_hz) == sum
            &&& sum > 0xffff_ffff ==> pipeline_latency(figures, engine_hz, model_hz)
                == 0xffff_ffff
        }),
        engine_hz == model_hz ==> converted(
            figures.into_model_delay as nat,
            engine_hz as nat,
            model_hz as nat,
        ) == figures.into_model_delay,
{
    if engine_hz == model_hz {
        let frames = figures.into_model_delay as nat;
        let hz = engine_hz as nat;
        frames_are_converted_to_the_nearest(frames, hz, hz);
        let q = converted(frames, hz, hz);
        assert(q == frames) by (nonlinear_arith)
            requires
                hz >= 1,
                2 * (q * hz) <= 2 * (frames * hz) + hz,
                2 * (q * hz) > 2 * (frames * hz) - hz,
        ;
    }
}

/// The model runs as often as it takes for the block to be served, in whole chunks, and not once
/// more than that.
pub proof fn no_more_chunks_are_made_than_needed(frames: nat, queued: nat, chunk: nat) -> (times:
    nat)
    requires
        chunk >= 1,
    ensures
        samples_needed(frames, queued, chunk) == times * chunk,
        queued + samples_needed(frames, queued, chunk) >= frames,
        times == 0 || queued + samples_needed(frames, queued, chunk) - chunk < frames,
        queued >= frames ==> times == 0,
    decreases frames + chunk - queued,
{
    if frames <= queued {
        assert(0 * chunk == 0) by (nonlinear_arith);
        0
    } else {
        let rest = no_more_chunks_are_made_than_needed(frames, queued + chunk, chunk);
        assert((rest + 1) * chunk == rest * chunk + chunk) by (nonlinear_arith);
        rest + 1
    }
}

/// Whether a processor has been played chunk after chunk: `states` is what it is before the first,
/// between any two, and behind the last.
pub open spec fn played_in_chunks(
    states: Seq<BoxedStage>,
    fed: Seq<Sample>,
    made: Seq<Sample>,
    chunk: int,
) -> bool {
    forall|k: int|
        #![trigger states[k]]
        0 <= k < states.len() - 1 ==> has_played(
            states[k],
            seq![fed.subrange(k * chunk, k * chunk + chunk)],
            seq![made.subrange(k * chunk, k * chunk + chunk)],
            states[k + 1],
        )
}

/// What is made of a signal is made of it chunk by chunk, in order, each chunk once: the first
/// chunk of the result comes from the first chunk of the signal, and so on.
pub proof fn a_model_is_fed_chunk_by_chunk(
    core: BoxedStage,
    fed: Seq<Sample>,
    made: Seq<Sample>,
    chunk: nat,
    after: BoxedStage,
) -> (states: Seq<BoxedStage>)
    requires
        chunk >= 1,
        made_of(core, fed, made, chunk, after),
    ensures
        states.len() >= 1,
        (states.len() - 1) * chunk == made.len(),
        states[0] == core,
        states.last() == after,
        played_in_chunks(states, fed, made, chunk as int),
    decreases made.len(),
{
    if made.len() == 0 {
        assert(0 * chunk == 0) by (nonlinear_arith);
        seq![core]
    } else {
        let before = made.len() - chunk;
        let between = choose|between: BoxedStage|
            {
                &&& #[trigger] runs(
                    between,
                    fed.subrange(before, made.len() as int),
                    made.subrange(before, made.len() as int),
                    after,
                )
                &&& made_of(core, fed, made.take(before), chunk, between)
            };
        let first = a_model_is_fed_chunk_by_chunk(core, fed, made.take(before), chunk, between);
        let all = first.push(after);
        let n = first.len() - 1;
        assert((n + 1) * chunk == n * chunk + chunk) by (nonlinear_arith);
        assert forall|k: int| #![trigger all[k]] 0 <= k < all.len() - 1 implies has_played(
            all[k],
            seq![fed.subrange(k * chunk, k * chunk + chunk)],
            seq![made.subrange(k * chunk, k * chunk + chunk)],
            all[k + 1],
        ) by {
            if k < n {
                assert(first[k] == all[k]);
                assert(first[k + 1] == all[k + 1]);
                assert(0 <= k * chunk && k * chunk + chunk <= n * chunk) by (nonlinear_arith)
                    requires
                        0 <= k < n,
                        chunk >= 1,
                ;
                assert(made.take(before).subrange(k * chunk, k * chunk + chunk) =~= made.subrange(
                    k * chunk,
                    k * chunk + chunk,
                ));
            } else {
                assert(all[k] == between);
                assert(runs(
                    between,
                    fed.subrange(before, made.len() as int),
                    made.subrange(before, made.len() as int),
                    after,
                ));
            }
        }
        all
    }
}

/// A block that passes a converted model comes out of one unbroken stream: what was ready before,
/// then what the model makes of what was waiting and of the block, in order and with nothing
/// dropped on either side. The block keeps its length.
pub proof fn a_converted_stream_is_unbroken(
    resampler: SlotResampler,
    core: BoxedStage,
    input: Seq<Sample>,
    output: Seq<Sample>,
    after: SlotResampler,
    core_after: BoxedStage,
) -> (made: Seq<Sample>)
    requires
        resampler.passes_on(core, input, output, after, core_after),
        resampler.block() >= 1,
    ensures
        made_of(core, resampler.waiting() + input, made, resampler.block(), core_after),
        output.len() == input.len(),
        output + after.ready() == resampler.ready() + made,
        after.waiting().len() == resampler.waiting().len() + input.len() - made.len(),
        made.len() + after.waiting().len() == resampler.waiting().len() + input.len(),
        forall|i: int|
            0 <= i < after.waiting().len() ==> #[trigger] after.waiting()[i] == (
            resampler.waiting() + input)[made.len() + i],
        resampler.ready().len() + made.len() >= input.len(),
        resampler.ready().len() + made.len() < input.len() + resampler.block() || made.len() == 0,
        after.block() == resampler.block(),
        after.latency() == resampler.latency(),
{
    let made = choose|made: Seq<Sample>| #[trigger]
        resampler.passed(core, input, output, after, core_after, made);
    assert(resampler.passed(core, input, output, after, core_after, made));
    let times = no_more_chunks_are_made_than_needed(
        input.len(),
        resampler.ready().len(),
        resampler.block(),
    );
    assert(0 * resampler.block() == 0) by (nonlinear_arith);
    made
}

/// A reset leaves nothing waiting and one block of silence ready, as at the start.
pub proof fn a_reset_leaves_one_block_of_silence(resampler: SlotResampler, after: SlotResampler)
    requires
        resampler.resets_to(after),
    ensures
        after.block() == resampler.block(),
        after.latency() == resampler.latency(),
        after.waiting().len() == 0,
        after.ready().len() == resampler.block(),
        forall|i: int| 0 <= i < after.ready().len() ==> (#[trigger] after.ready()[i]).bits == 0,
{
}

/// A block has one channel in mono and two in either other layout.
pub proof fn a_layout_has_one_channel_or_two(layout: ChannelConfig)
    ensures
        layout.outputs() == if layout == ChannelConfig::Mono {
            1int
        } else {
            2
        },
{
}

} // verus!
